use pytest_rs_core::fixture::Scope;
use pytest_rs_core::item::TestItem;
use pytest_rs_core::object::Handle;
use pytest_rs_core::report::{Elapsed, Outcome, Phase, Section, TestReport};
use pytest_rs_core::terminal::display::{
    block_lines, collect_only_summary, errors_section, hook_lines, marker_listing, platform_name,
    session_header, warnings_summary, HeaderInfo,
};
use pytest_rs_core::terminal::durations::{durations_lines, TimedPhase};
use pytest_rs_core::terminal::line::{Line, Style};
use pytest_rs_core::terminal::results::{
    failure_title, failures_section, junit_line, passes_section, render_longrepr, report_chars,
    teardown_sections, xfailures_section, xpasses_section, ReportOptions, WorkerInfo,
};
use pytest_rs_core::terminal::summary::{
    crash_line, format_trimmed, short_summary, subtest_summary_word, SummaryOptions, SummaryReport,
};
use pytest_rs_core::terminal::tree::{collect_tree, item_dirs, Anchor, DirLabel, TreeItem};

fn strings(v: &[&str]) -> Vec<String> {
    v.iter().map(|s| s.to_string()).collect()
}

fn texts(lines: &[Line]) -> Vec<String> {
    lines.iter().map(|l| l.text.clone()).collect()
}

fn report(nodeid: &str, phase: Phase, outcome: Outcome, longrepr: Option<&str>) -> TestReport {
    TestReport {
        nodeid: nodeid.to_string(),
        phase,
        outcome,
        duration: Elapsed { secs: 0, nanos: 0 },
        longrepr: longrepr.map(|s| s.to_string()),
        location: None,
        subtest_desc: None,
        sections: vec![],
        rerun: false,
        xfail_longrepr: None,
        reprcrash_message: None,
        head_line: None,
    }
}

fn section(title: &str, text: &str) -> Section {
    Section { title: title.to_string(), text: text.to_string() }
}

fn rule(title: &str) -> String {
    format!("{:-^80}", format!(" {title} "))
}

fn named(fill: char, label: &str) -> String {
    let label = format!(" {label} ");
    let pad = 80 - label.len();
    let side = fill.to_string();
    format!("{}{label}{}", side.repeat(pad / 2), side.repeat(pad - pad / 2))
}

fn report_options() -> ReportOptions {
    ReportOptions { tb: None, show_capture: None, report_chars: None, xfail_tb: false }
}

fn no_workers() -> WorkerInfo {
    WorkerInfo { workers: vec![], platinfo: None }
}

fn item(nodeid: &str, path: &[&str]) -> TestItem {
    TestItem {
        nodeid: nodeid.to_string(),
        path: strings(path),
        module_name: "m".to_string(),
        func_name: "f".to_string(),
        func: Handle { id: 0 },
        cls: None,
        is_coroutine: false,
        fixture_names: vec![],
        extra_fixture_names: vec![],
        marks: vec![],
        callspec: vec![],
        max_param_scope: Scope::Function,
        scope_sort_keys: vec![],
        is_doctest: false,
        collector_class: String::new(),
        func_class: String::new(),
    }
}

#[test]
fn longrepr_with_sections() {
    let mut r = report("a.py::t", Phase::Call, Outcome::Failed, Some("E   no"));
    r.sections = vec![
        section("Captured stdout call", "out\n\n"),
        section("Captured log call", "log"),
        section("Extra", "x"),
    ];
    assert_eq!(
        render_longrepr(&r, "all"),
        format!(
            "E   no\n{}\nout\n{}\nlog\n{}\nx",
            rule("Captured stdout call"),
            rule("Captured log call"),
            rule("Extra")
        )
    );
    assert_eq!(render_longrepr(&r, "no"), format!("E   no\n{}\nx", rule("Extra")));
    assert_eq!(
        render_longrepr(&r, "log"),
        format!("E   no\n{}\nlog\n{}\nx", rule("Captured log call"), rule("Extra"))
    );
}

#[test]
fn titles_of_failures() {
    assert_eq!(failure_title("a.py::T::m"), "T.m");
    assert_eq!(failure_title("a.py::f"), "f");
    assert_eq!(failure_title("doc.txt"), "[doctest] doc.txt");
    assert_eq!(failure_title("a.py::mod.Class"), "[doctest] mod.Class");
    assert_eq!(failure_title("a.py::T::m[1.5]"), "T.m[1.5]");
    assert_eq!(failure_title("t.py::test_foo[1.5]"), "test_foo[1.5]");
    assert_eq!(failure_title("t.py::mod.f[1]"), "[doctest] mod.f[1]");
}

#[test]
fn failures_are_listed() {
    let mut failed = report("a.py::T::m", Phase::Call, Outcome::Failed, Some("E   no"));
    failed.subtest_desc = Some("[sub]".to_string());
    let mut down = report("a.py::T::m", Phase::Teardown, Outcome::Passed, None);
    down.sections = vec![
        section("Captured stdout teardown", "bye\n"),
        section("Captured stdout call", "no"),
    ];
    let reports = [
        report("a.py::x", Phase::Setup, Outcome::Failed, Some("setup")),
        failed,
        down,
    ];
    let info = WorkerInfo {
        workers: vec![("a.py::T::m".to_string(), 3)],
        platinfo: Some("linux -- Python 3".to_string()),
    };
    let lines = failures_section(&reports, &report_options(), &info);
    assert_eq!(
        texts(&lines),
        vec![
            named('=', "FAILURES"),
            named('_', "T.m [sub]"),
            "[gw3] linux -- Python 3".to_string(),
            "E   no".to_string(),
            rule("Captured stdout teardown"),
            "bye".to_string(),
        ]
    );
    assert_eq!(lines[1].style, Style::RedBold);
    let silent = ReportOptions { tb: Some("no".to_string()), ..report_options() };
    assert!(failures_section(&reports, &silent, &info).is_empty());
    assert!(failures_section(&reports[..1], &report_options(), &info).is_empty());
}

#[test]
fn teardown_output_is_filtered() {
    let mut down = report("a", Phase::Teardown, Outcome::Passed, None);
    down.sections = vec![
        section("Captured stdout teardown", "o"),
        section("Captured stderr teardown", "e"),
    ];
    let reports = [down];
    assert_eq!(teardown_sections(&reports, "a", "all").len(), 4);
    assert_eq!(
        texts(&teardown_sections(&reports, "a", "stderr")),
        vec![rule("Captured stderr teardown"), "e".to_string()]
    );
    assert!(teardown_sections(&reports, "a", "no").is_empty());
    assert!(teardown_sections(&reports, "b", "all").is_empty());
}

#[test]
fn report_flags_are_expanded() {
    let chars = |given: Option<&str>| {
        let o = ReportOptions {
            report_chars: given.map(|s| s.to_string()),
            ..report_options()
        };
        report_chars(&o).into_iter().collect::<String>()
    };
    assert_eq!(chars(None), "fE");
    assert_eq!(chars(Some("a")), "sxXEf");
    assert_eq!(chars(Some("xA")), "PpsxXEf");
    assert_eq!(chars(Some("FSf")), "fs");
    assert_eq!(chars(Some("sxN")), "");
    assert_eq!(chars(Some("Nxs")), "xs");
}

#[test]
fn passes_are_listed_on_request() {
    let mut passed = report("a.py::t", Phase::Call, Outcome::Passed, None);
    passed.sections = vec![section("Captured stdout call", "hi\n")];
    let reports = [passed];
    assert!(passes_section(&reports, &report_options(), &no_workers()).is_empty());
    let o = ReportOptions { report_chars: Some("P".to_string()), ..report_options() };
    assert_eq!(
        texts(&passes_section(&reports, &o, &no_workers())),
        vec![
            named('=', "PASSES"),
            named('_', "t"),
            rule("Captured stdout call"),
            "hi".to_string()
        ]
    );
}

#[test]
fn expected_failures_are_listed_on_request() {
    let mut xfailed = report("a.py::t", Phase::Call, Outcome::XFailed, Some("why"));
    xfailed.xfail_longrepr = Some("trace".to_string());
    let reports = [xfailed];
    assert!(xfailures_section(&reports, &report_options(), &no_workers()).is_empty());
    let o = ReportOptions { xfail_tb: true, ..report_options() };
    assert_eq!(
        texts(&xfailures_section(&reports, &o, &no_workers())),
        vec![named('=', "XFAILURES"), named('_', "t"), "trace".to_string()]
    );
    let o = ReportOptions { tb: Some("line".to_string()), ..o };
    assert_eq!(
        texts(&xfailures_section(&reports, &o, &no_workers())),
        vec![named('=', "XFAILURES"), "trace".to_string()]
    );
    assert!(xpasses_section(&reports, &o, &no_workers()).is_empty());
}

#[test]
fn xml_file_is_announced() {
    assert_eq!(
        texts(&junit_line("out.xml", false, false)),
        vec![named('-', "generated xml file: out.xml")]
    );
    assert!(junit_line("out.xml", true, false).is_empty());
    assert!(junit_line("out.xml", false, true).is_empty());
}

#[test]
fn messages_are_trimmed() {
    assert_eq!(format_trimmed(" - ", "short", 20), Some(" - short".to_string()));
    assert_eq!(format_trimmed(" - ", "abcdefgh", 9), Some(" - abc...".to_string()));
    assert_eq!(format_trimmed(" - ", "abc", 6), Some(" - abc".to_string()));
    assert_eq!(format_trimmed(" - ", "abcd", 6), Some(" - ...".to_string()));
    assert_eq!(format_trimmed(" - ", "abc", 5), None);
    assert_eq!(format_trimmed(" - ", "one\ntwo", 20), Some(" - one".to_string()));
}

fn summary_options() -> SummaryOptions {
    SummaryOptions {
        hide_subtests: false,
        no_fold_skipped: false,
        force_short: false,
        on_ci: false,
        verbose: 0,
        width: 40,
    }
}

fn seen(r: &TestReport) -> SummaryReport<'_> {
    SummaryReport { report: r, shown_nodeid: r.nodeid.clone(), status_word: None }
}

#[test]
fn summary_lines_are_grouped() {
    let failed = report("a.py::t", Phase::Call, Outcome::Failed, Some("E   ValueError: a long message"));
    let error = report("b.py::t", Phase::Setup, Outcome::Failed, Some("E   boom"));
    let xfail = report("c.py::t", Phase::Call, Outcome::XFailed, Some("because it is long, very long"));
    let reports = [seen(&error), seen(&failed), seen(&xfail)];
    let o = ReportOptions { report_chars: Some("fEx".to_string()), ..report_options() };
    let lines = short_summary(&o, &reports, &[], &summary_options());
    assert_eq!(
        texts(&lines),
        vec![
            named('=', "short test summary info"),
            "FAILED a.py::t - ValueError: a long m...".to_string(),
            "ERROR b.py::t - boom".to_string(),
            "XFAIL c.py::t - because it is long, very long".to_string(),
        ]
    );
    let wide = SummaryOptions { on_ci: true, ..summary_options() };
    let lines = short_summary(&o, &reports, &[], &wide);
    assert_eq!(lines[1].text, "FAILED a.py::t - ValueError: a long message");
    let forced = SummaryOptions { on_ci: true, force_short: true, ..summary_options() };
    let lines = short_summary(&o, &reports, &[], &forced);
    assert_eq!(lines[1].text, "FAILED a.py::t - ValueError: a long m...");
}

#[test]
fn skips_are_folded() {
    let mut one = report("a.py::t", Phase::Setup, Outcome::Skipped, Some("why"));
    one.location = Some("a.py:3".to_string());
    let mut two = report("a.py::u", Phase::Setup, Outcome::Skipped, Some("why"));
    two.location = Some("a.py:3".to_string());
    let three = report("b.py::t", Phase::Setup, Outcome::Skipped, Some("other"));
    let word = |r| SummaryReport { status_word: Some("SKIPPED".to_string()), ..seen(r) };
    let reports = [word(&one), word(&two), word(&three)];
    let o = ReportOptions { report_chars: Some("s".to_string()), ..report_options() };
    let lines = short_summary(&o, &reports, &[], &summary_options());
    assert_eq!(
        texts(&lines)[1..],
        strings(&["SKIPPED [2] a.py:3: why", "SKIPPED [1] b.py::t: other"])[..]
    );
    let unfolded = SummaryOptions { no_fold_skipped: true, ..summary_options() };
    let lines = short_summary(&o, &reports, &[], &unfolded);
    assert_eq!(
        texts(&lines)[1..],
        strings(&[
            "SKIPPED a.py::t - Skipped: why",
            "SKIPPED a.py::u - Skipped: why",
            "SKIPPED b.py::t - Skipped: other"
        ])[..]
    );
}

#[test]
fn doctests_and_syntax_errors_have_no_message() {
    let failed = report("d.txt::d.txt", Phase::Call, Outcome::Failed, Some("E   x"));
    let syntax = report("a.py", Phase::Setup, Outcome::Failed, Some("E   SyntaxError: bad"));
    let mut doctest = item("d.txt::d.txt", &["/", "r", "d.txt"]);
    doctest.is_doctest = true;
    let reports = [seen(&failed), seen(&syntax)];
    let lines = short_summary(&report_options(), &reports, &[doctest], &summary_options());
    assert_eq!(texts(&lines)[1..], strings(&["FAILED d.txt::d.txt", "ERROR a.py"])[..]);
    assert_eq!(crash_line("E   SyntaxError: bad"), None);
    assert_eq!(crash_line("E   other"), Some("other".to_string()));
    assert!(short_summary(&report_options(), &[], &[], &summary_options()).is_empty());
}

#[test]
fn words_of_subtests() {
    let mut r = report("a.py::t", Phase::Call, Outcome::Failed, None);
    r.subtest_desc = Some("[x]".to_string());
    assert_eq!(subtest_summary_word(&seen(&r), "FAILED"), "SUBFAILED[x]");
    r.outcome = Outcome::Passed;
    assert_eq!(subtest_summary_word(&seen(&r), "PASSED"), "SUBPASSED[x]");
    r.outcome = Outcome::XPassed;
    assert_eq!(subtest_summary_word(&seen(&r), "XPASS"), "XPASS");
    let given = SummaryReport { status_word: Some("MINE".to_string()), ..seen(&r) };
    assert_eq!(subtest_summary_word(&given, "XPASS"), "MINE");
    let empty = SummaryReport { status_word: Some(String::new()), ..seen(&r) };
    assert_eq!(subtest_summary_word(&empty, "XPASS"), "XPASS");
}

#[test]
fn tree_of_items() {
    let a = item("sub/a.py::T::m", &["/", "r", "sub", "a.py"]);
    let b = item("sub/a.py::T::n", &["/", "r", "sub", "a.py"]);
    let c = item("c.py::f", &["/", "r", "c.py"]);
    let root = strings(&["/", "r"]);
    let dirs = item_dirs(&a, &root, &[]);
    assert_eq!(dirs.len(), 1);
    assert_eq!(dirs[0].name, "sub");
    assert_eq!(dirs[0].path, strings(&["/", "r", "sub"]));
    fn entry<'a>(item: &'a TestItem, dirs: Vec<DirLabel>) -> TreeItem<'a> {
        TreeItem { item, dirs, func_doc: vec!["doc".to_string()], class_doc: vec![] }
    }
    let sub = || vec![DirLabel { name: "sub".to_string(), is_package: true }];
    let items = [entry(&a, sub()), entry(&b, sub()), entry(&c, vec![]), entry(&c, vec![])];
    assert_eq!(
        texts(&collect_tree(&items, false, "r", false)),
        strings(&[
            "<Dir r>",
            "  <Package sub>",
            "    <Module a.py>",
            "      <Class T>",
            "        <Function m>",
            "        <Function n>",
            "  <Module c.py>",
            "    <Function f>",
            "    <Function f>",
        ])
    );
    let lines = texts(&collect_tree(&items[2..3], true, "r", true));
    assert_eq!(lines, strings(&["<Module c.py>", "  <Function f>", "    doc"]));
    assert!(collect_tree(&[], false, "r", false).is_empty());
}

#[test]
fn tree_below_an_import_root() {
    let a = item("lib/pkg/sub/a.py::f", &["/", "r", "lib", "pkg", "sub", "a.py"]);
    let anchors = [
        Anchor { components: strings(&["/", "r", "lib"]), len: 6, label: "lib".to_string() },
        Anchor {
            components: strings(&["/", "r", "lib", "pkg"]),
            len: 10,
            label: "lib/pkg".to_string(),
        },
    ];
    let dirs = item_dirs(&a, &strings(&["/", "r"]), &anchors);
    let names: Vec<String> = dirs.iter().map(|d| d.name.clone()).collect();
    assert_eq!(names, strings(&["lib/pkg", "sub"]));
}

fn header() -> HeaderInfo {
    HeaderInfo {
        quiet: false,
        no_terminal: false,
        no_header: false,
        os: "macos".to_string(),
        python_version: "3.13.2 (main)".to_string(),
        plugin_lines: vec![],
        tox_env_dir: None,
        cache_dir: None,
        cache_disabled: false,
        verbose: 0,
        rootdir: "/r".to_string(),
        config_file: None,
        ignored_config_files: vec![],
        has_paths: false,
        testpaths: None,
        plugins: vec![],
        traceconfig: false,
        own_version: "0.1.0".to_string(),
    }
}

#[test]
fn header_of_a_session() {
    let lines = session_header(&header());
    assert_eq!(
        texts(&lines),
        vec![
            named('=', "test session starts"),
            "platform darwin -- Python 3.13.2, pytest-9.0.3, pluggy-1.6.0".to_string(),
            "rootdir: /r".to_string(),
        ]
    );
    assert_eq!(lines[0].style, Style::Bold);
    let full = HeaderInfo {
        plugin_lines: strings(&["benchmark: on"]),
        tox_env_dir: Some("/tox".to_string()),
        config_file: Some("pytest.ini".to_string()),
        ignored_config_files: strings(&["tox.ini", "setup.cfg"]),
        testpaths: Some("a  b".to_string()),
        plugins: strings(&["cov-1", "mock-2"]),
        traceconfig: true,
        ..header()
    };
    assert_eq!(
        texts(&session_header(&full))[2..],
        strings(&[
            "benchmark: on",
            "cachedir: /tox/.pytest_cache",
            "rootdir: /r",
            "configfile: pytest.ini (WARNING: ignoring pytest config in tox.ini, setup.cfg!)",
            "testpaths: a, b",
            "plugins: cov-1, mock-2",
            "using: pytest-9.0.3 (pytest-rs-0.1.0, embedded)",
            "active plugins:",
            "    pytest-rs               : pytest-rs-0.1.0",
        ])[..]
    );
    assert_eq!(session_header(&HeaderInfo { no_header: true, ..header() }).len(), 1);
    assert!(session_header(&HeaderInfo { quiet: true, ..header() }).is_empty());
    assert_eq!(platform_name("windows"), "win32");
    assert_eq!(platform_name("linux"), "linux");
}

#[test]
fn hook_output_is_split_into_lines() {
    assert_eq!(block_lines(&strings(&["a\nb", "", "c"])), strings(&["a", "b", "", "c"]));
    assert_eq!(hook_lines(&strings(&["a\nb"]), false, false), strings(&["a", "b"]));
    assert!(hook_lines(&strings(&["a"]), true, false).is_empty());
    assert!(hook_lines(&strings(&["a"]), false, true).is_empty());
}

#[test]
fn errors_are_listed() {
    let errors = [("a.py".to_string(), "boom".to_string())];
    let reports = [
        report("a.py", Phase::Setup, Outcome::Failed, Some("boom")),
        report("b.py::T::m", Phase::Teardown, Outcome::Failed, Some("down")),
        report("b.py::x", Phase::Call, Outcome::Failed, Some("call")),
    ];
    assert_eq!(
        texts(&errors_section(&errors, &reports, &None, "all")),
        vec![
            String::new(),
            named('=', "ERRORS"),
            named('_', "ERROR collecting a.py"),
            "boom".to_string(),
            named('_', "ERROR at teardown of T.m"),
            "down".to_string(),
        ]
    );
    assert!(errors_section(&errors, &reports, &Some("no".to_string()), "all").is_empty());
    assert!(errors_section(&[], &reports[2..], &None, "all").is_empty());
}

#[test]
fn collect_only_summaries() {
    let last = |s, d, e| {
        let lines = collect_only_summary(s, d, e, "0.01", true);
        (lines[lines.len() - 1].text.clone(), lines[lines.len() - 1].style)
    };
    assert_eq!(last(0, 0, 0), ("no tests collected in 0.01s".to_string(), Style::Yellow));
    assert_eq!(last(1, 0, 0), ("1 test collected in 0.01s".to_string(), Style::Green));
    assert_eq!(
        last(0, 2, 0),
        ("no tests collected (2 deselected) in 0.01s".to_string(), Style::Yellow)
    );
    assert_eq!(
        last(3, 2, 1),
        ("3/5 tests collected (2 deselected), 1 error in 0.01s".to_string(), Style::Red)
    );
    let lines = collect_only_summary(2, 0, 2, "1.50", false);
    assert_eq!(lines[0].text, "");
    assert_eq!(lines[1].text, named('=', "2 tests collected, 2 errors in 1.50s"));
}

#[test]
fn warnings_are_summarized() {
    let docs = "-- Docs: https://docs.pytest.org/en/stable/how-to/capture-warnings.html";
    let lines = warnings_summary(&strings(&["w"]), &strings(&["from worker"]), 1, 1, false, false);
    assert_eq!(
        texts(&lines),
        vec![
            named('=', "warnings summary"),
            "w".to_string(),
            "from worker".to_string(),
            docs.to_string()
        ]
    );
    assert!(warnings_summary(&[], &[], 0, 0, false, false).is_empty());
    assert!(warnings_summary(&strings(&["w"]), &[], 1, 0, true, false).is_empty());
    assert!(warnings_summary(&[], &strings(&["x"]), 1, 1, false, true).is_empty());
    let lines = warnings_summary(&strings(&["w"]), &strings(&["x"]), 1, 1, false, true);
    assert_eq!(
        texts(&lines),
        vec![
            named('=', "warnings summary (final)"),
            "w".to_string(),
            docs.to_string()
        ]
    );
}

#[test]
fn markers_are_listed() {
    let lines = texts(&marker_listing(&strings(&[" slow: long ", "", "fast"])));
    assert_eq!(lines.len(), 10);
    assert_eq!(lines[0], "@pytest.mark.slow: long\n");
    assert_eq!(lines[1], "@pytest.mark.fast\n");
    assert!(lines[2].starts_with("@pytest.mark.filterwarnings(warning): add a warning filter"));
    assert!(lines[9].starts_with("@pytest.mark.trylast: "));
    assert!(lines[9].ends_with("instead.\n"));
}

#[test]
fn slowest_phases_are_listed() {
    let timed = |nodeid: &str, phase, secs: f64| TimedPhase {
        nodeid: nodeid.to_string(),
        phase,
        rank: secs.to_bits(),
        seconds: format!("{secs:.2}"),
        below_min: secs < 0.005,
    };
    let phases = [
        timed("a", Phase::Setup, 0.001),
        timed("b", Phase::Call, 0.5),
        timed("c", Phase::Teardown, 2.0),
        timed("d", Phase::Call, 0.5),
    ];
    assert_eq!(
        texts(&durations_lines(&phases, 0, "0.005", false)),
        vec![
            named('=', "slowest durations"),
            "2.00s teardown c".to_string(),
            "0.50s call     b".to_string(),
            "0.50s call     d".to_string(),
            String::new(),
            "(1 durations < 0.005s hidden.  Use -vv to show these durations.)".to_string(),
        ]
    );
    assert_eq!(
        texts(&durations_lines(&phases, 1, "0.005", true)),
        vec![named('=', "slowest 1 durations"), "2.00s teardown c".to_string()]
    );
    let hidden = durations_lines(&phases, 9, "0.005", true);
    assert_eq!(hidden[hidden.len() - 1].text, "(1 durations < 0.005s hidden.)");
}
