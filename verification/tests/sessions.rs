use pytest_rs_core::fixture::Scope;
use pytest_rs_core::item::TestItem;
use pytest_rs_core::object::Handle;
use pytest_rs_core::report::{Elapsed, Outcome, Phase, TestReport};
use pytest_rs_core::session::abort::{collect_failure, prefix_lines};
use pytest_rs_core::session::collected::{
    abort_banner, abort_code, abort_steps, aborted_count_line, blank_after_count,
    collect_layout, collect_only_banner, collect_only_code, collect_only_steps, count_line,
    count_steps, error_report, error_reports, file_count_lines, interrupted_banner, maxfail_hit,
    nodeid_lines, should_abort, skip_report, AbortStep, CollectOnlyFacts, CollectOnlyStep,
    CountFacts, CountStep, ErrorFacts, Layout,
};
use pytest_rs_core::session::finish::{
    code_of_tests, exit_line, finish_steps, hook_exits, interrupt_lines, no_tests_steps,
    reporter_banner, stop_banner, stopping_after, update_code, CodeEvent, FinishFacts, FinishStep,
};
use pytest_rs_core::session::flow::{
    cache_glob, collect_skips, next, start, Action, Event, Machine, Notice, SessionOptions,
};
use pytest_rs_core::session::startup::{
    capture_mode, check_basetemp, check_capture, check_color, check_doctest_report, check_junit,
    check_log_file_mode, failure_code, failure_notice, nested_plan, run_plan, ErrorTexts,
    StartOptions, StartStep,
};

fn strings(v: &[&str]) -> Vec<String> {
    v.iter().map(|s| s.to_string()).collect()
}

fn report(phase: Phase, outcome: Outcome) -> TestReport {
    TestReport {
        nodeid: "a.py::t".to_string(),
        phase,
        outcome,
        duration: Elapsed { secs: 0, nanos: 0 },
        longrepr: None,
        location: None,
        subtest_desc: None,
        sections: vec![],
        rerun: false,
        xfail_longrepr: None,
        reprcrash_message: None,
        head_line: None,
    }
}

fn item(nodeid: &str) -> TestItem {
    TestItem {
        nodeid: nodeid.to_string(),
        path: strings(&["/", "r", "a.py"]),
        module_name: "m".to_string(),
        func_name: "f".to_string(),
        func: Handle { id: 0 },
        cls: None,
        is_coroutine: false,
        fixture_names: vec![],
        extra_fixture_names: vec![],
        marks: vec![],
        callspec: vec![],
        max_param_scope: Scope::Function,
        scope_sort_keys: vec![],
        is_doctest: false,
        collector_class: String::new(),
        func_class: String::new(),
    }
}

#[test]
fn failures_of_collection() {
    let end = |m: &str| collect_failure(m, &None);
    assert_eq!(end("\x00INTERNAL_DONE\x007").code, 7);
    assert_eq!(end("\x00INTERNAL_DONE\x00x").code, 3);
    let ending = end("\x00INTERNAL_STDERR\x00a\nb");
    assert_eq!(ending.code, 3);
    assert_eq!(ending.stderr, strings(&["INTERNALERROR> a", "INTERNALERROR> b"]));
    assert!(!ending.unconfigure);
    let ending = end("\x00KEYBOARD_INTERRUPT\x00");
    assert_eq!(ending.code, 2);
    assert_eq!(ending.stdout, strings(&["!!! KeyboardInterrupt !!!"]));
    let ending = end("\x00CONFTEST_IMPORT_ERROR\x00x");
    assert_eq!((ending.code, ending.unconfigure), (4, true));
    assert_eq!(ending.stderr, strings(&["x"]));
    let ending = end("\x00USAGE_ERROR\x00");
    assert_eq!((ending.code, ending.stderr.len(), ending.unconfigure), (4, 0, true));
    let ending = end("\x00USAGE_ERROR\x00why");
    assert_eq!(ending.stderr, strings(&["ERROR during collection:\nwhy"]));
    let ending = collect_failure("\x00EXIT\x000", &Some("Exit: done".to_string()));
    assert_eq!(ending.code, 0);
    assert!(ending.stdout[0].contains("!! Exit: done !!"));
    let ending = end("plain");
    assert_eq!((ending.code, ending.unconfigure), (4, false));
    assert_eq!(ending.stderr, strings(&["ERROR: plain"]));
    assert_eq!(prefix_lines("> ", "a\n\nb"), strings(&["> a", "> ", "> b"]));
}

fn errors() -> ErrorFacts {
    ErrorFacts {
        errors: 2,
        maxfail: None,
        continue_on_errors: false,
        collect_only: false,
        workers: None,
        not_found: false,
        no_terminal: false,
        quiet: false,
        no_summary: false,
        custom_reporter: false,
        is_worker: false,
    }
}

#[test]
fn collection_errors_interrupt() {
    let f = errors();
    assert!(should_abort(&f));
    assert!(!should_abort(&ErrorFacts { errors: 0, ..f }));
    assert!(!should_abort(&ErrorFacts { continue_on_errors: true, ..f }));
    assert!(!should_abort(&ErrorFacts { collect_only: true, ..f }));
    assert_eq!(abort_code(&f), 2);
    assert_eq!(
        abort_banner(&f),
        Some("Interrupted: 2 errors during collection".to_string())
    );
    assert_eq!(interrupted_banner(1), "Interrupted: 1 error during collection");
    let spent = ErrorFacts { maxfail: Some(2), ..f };
    assert!(maxfail_hit(&spent));
    assert!(!maxfail_hit(&f));
    assert_eq!(abort_code(&spent), 1);
    assert_eq!(abort_banner(&spent), Some("stopping after 2 failures".to_string()));
    let spread = ErrorFacts { workers: Some(4), ..f };
    assert_eq!(abort_code(&spread), 1);
    assert_eq!(abort_banner(&spread), None);
    assert_eq!(abort_code(&ErrorFacts { not_found: true, ..f }), 4);
}

#[test]
fn aborted_sessions_still_report() {
    let steps = abort_steps(&errors());
    assert_eq!(
        steps,
        vec![
            AbortStep::ApplySelection,
            AbortStep::CountLine,
            AbortStep::Errors,
            AbortStep::SaveCache,
            AbortStep::JunitXml,
            AbortStep::ShortSummary,
            AbortStep::Banner,
            AbortStep::SummaryLine,
            AbortStep::FireSessionFinish
        ]
    );
    let quiet = abort_steps(&ErrorFacts { no_terminal: true, is_worker: true, ..errors() });
    assert_eq!(quiet, vec![AbortStep::SaveCache, AbortStep::JunitXml]);
    let spread = abort_steps(&ErrorFacts { workers: Some(3), ..errors() });
    assert_eq!(spread[0], AbortStep::DistBanner(3));
    assert!(!spread.contains(&AbortStep::Banner));
    // Once the budget is spent, workers make no difference.
    let spent = ErrorFacts { errors: 2, maxfail: Some(2), ..errors() };
    let spread = ErrorFacts { workers: Some(3), ..spent };
    assert_eq!(abort_steps(&spread), abort_steps(&spent));
    assert!(abort_steps(&spread).contains(&AbortStep::Banner));
    assert_eq!(abort_banner(&spread).as_deref(), Some("stopping after 2 failures"));
    assert_eq!(abort_code(&spread), 1);
}

#[test]
fn reports_made_at_collection() {
    let r = error_report("a.py", "E   SyntaxError: bad");
    assert_eq!((r.phase, r.outcome), (Phase::Setup, Outcome::Failed));
    assert_eq!(r.reprcrash_message, None);
    let r = error_report("a.py", "E   other");
    assert_eq!(r.reprcrash_message.as_deref(), Some("other"));
    assert_eq!(r.longrepr.as_deref(), Some("E   other"));
    let r = skip_report("a.py", "why");
    assert_eq!(r.outcome, Outcome::Skipped);
    assert_eq!(r.location.as_deref(), Some("a.py:1"));
}

#[test]
fn every_collection_error_is_reported() {
    let errors = [
        ("b.py".to_string(), "E   other".to_string()),
        ("a.py".to_string(), "E   SyntaxError: bad".to_string()),
    ];
    let reports = error_reports(&errors);
    let seen: Vec<(&str, Option<&str>, Option<&str>)> = reports
        .iter()
        .map(|r| (r.nodeid.as_str(), r.longrepr.as_deref(), r.reprcrash_message.as_deref()))
        .collect();
    assert_eq!(
        seen,
        vec![
            ("b.py", Some("E   other"), Some("other")),
            ("a.py", Some("E   SyntaxError: bad"), None),
        ]
    );
    assert!(reports.iter().all(|r| r.outcome == Outcome::Failed && r.phase == Phase::Setup));
    assert!(error_reports(&[]).is_empty());
}

#[test]
fn what_follows_the_count() {
    let facts = CountFacts {
        custom_reporter: false,
        quiet: false,
        no_terminal: false,
        collect_only: false,
        items: 2,
        verbosity: 0,
    };
    let shown = [CountStep::CountLine, CountStep::CacheLines, CountStep::HookLines];
    let steps = count_steps(&facts);
    assert_eq!(steps[..3], shown);
    assert_eq!(steps[3..], [CountStep::Blank]);
    assert_eq!(count_steps(&CountFacts { verbosity: -1, ..facts }), shown);
    assert_eq!(count_steps(&CountFacts { items: 0, ..facts }), shown);
    assert_eq!(count_steps(&CountFacts { quiet: true, ..facts }), vec![]);
    assert_eq!(
        count_steps(&CountFacts { no_terminal: true, custom_reporter: true, ..facts }),
        vec![CountStep::ReporterCollectionFinish]
    );
}

#[test]
fn steps_of_collect_only() {
    let facts = CollectOnlyFacts {
        no_terminal: false,
        custom_reporter: false,
        errors: 0,
        items: 2,
        verbosity: -1,
    };
    let items = CollectOnlyStep::Items(Layout::Nodeids);
    assert_eq!(collect_only_steps(&facts), vec![items, CollectOnlyStep::Summary]);
    assert_eq!(
        collect_only_steps(&CollectOnlyFacts { errors: 1, ..facts }),
        vec![
            items,
            CollectOnlyStep::Errors,
            CollectOnlyStep::ShortSummary,
            CollectOnlyStep::Banner,
            CollectOnlyStep::Summary,
        ]
    );
    // A custom reporter closes the session, whatever the errors.
    for (count, code) in [(2, 0), (0, 5)] {
        let facts = CollectOnlyFacts { custom_reporter: true, errors: 1, items: count, ..facts };
        assert_eq!(
            collect_only_steps(&facts),
            vec![
                items,
                CollectOnlyStep::FireSessionFinish(code),
                CollectOnlyStep::ReporterFinish(code),
            ]
        );
    }
    assert_eq!(collect_only_steps(&CollectOnlyFacts { no_terminal: true, ..facts }), vec![]);
}

#[test]
fn counts_of_items() {
    assert_eq!(
        aborted_count_line(3, 2, 1),
        "collected 5 items / 1 error / 2 deselected / 3 selected"
    );
    assert_eq!(aborted_count_line(1, 0, 2), "collected 1 item / 2 errors");
    assert_eq!(count_line(1, 0, 0, 0, 1, 0), "collected 1 item");
    assert_eq!(
        count_line(5, 1, 2, 3, 2, 1),
        "collecting ... collected 5 items / 1 error / 2 skipped / 3 deselected / 2 selected"
    );
    let items = [item("a.py::t"), item("b.py::t"), item("a.py::u")];
    let texts: Vec<String> = file_count_lines(&items).iter().map(|l| l.text.clone()).collect();
    assert_eq!(texts, strings(&["a.py: 2", "b.py: 1"]));
    let texts: Vec<String> = nodeid_lines(&items).iter().map(|l| l.text.clone()).collect();
    assert_eq!(texts, strings(&["a.py::t", "b.py::t", "a.py::u"]));
}

#[test]
fn collect_only_sessions() {
    assert_eq!(collect_layout(-2), Layout::Counts);
    assert_eq!(collect_layout(-1), Layout::Nodeids);
    assert_eq!(collect_layout(0), Layout::Tree);
    assert_eq!(collect_layout(1), Layout::TreeWithDocs);
    assert_eq!(collect_only_code(0, 3), 0);
    assert_eq!(collect_only_code(0, 0), 5);
    assert_eq!(collect_only_code(1, 3), 2);
    assert!(collect_only_banner(0).is_empty());
    let banner = collect_only_banner(2);
    assert_eq!(
        banner[banner.len() - 1].text,
        format!("{} Interrupted: 2 errors during collection {}", "!".repeat(19), "!".repeat(20))
    );
    assert!(blank_after_count(1, false, 0));
    assert!(blank_after_count(1, true, -1));
    assert!(!blank_after_count(1, false, -1));
    assert!(!blank_after_count(0, true, 1));
}

#[test]
fn exit_codes_of_runs() {
    let ok = [report(Phase::Call, Outcome::Passed)];
    let bad = [report(Phase::Call, Outcome::Passed), report(Phase::Teardown, Outcome::Failed)];
    assert_eq!(code_of_tests(&ok, None), 0);
    assert_eq!(code_of_tests(&bad, None), 1);
    assert_eq!(code_of_tests(&[], Some(0)), 5);
    assert_eq!(update_code(0, CodeEvent::Forced(1)), 1);
    assert_eq!(update_code(0, CodeEvent::HookExit(Some(9))), 9);
    assert!(hook_exits(CodeEvent::HookExit(None)));
    assert_eq!(stopping_after(1), "stopping after 1 failures");
    assert_eq!(update_code(1, CodeEvent::HookExit(None)), 1);
    assert_eq!(update_code(0, CodeEvent::HookInterrupt), 2);
    assert_eq!(update_code(0, CodeEvent::ShouldStop), 2);
    assert_eq!(update_code(0, CodeEvent::Unraisable), 1);
    assert_eq!(update_code(2, CodeEvent::Unraisable), 2);
    assert_eq!(update_code(0, CodeEvent::Threads), 3);
    assert_eq!(update_code(1, CodeEvent::HookError), 1);
    assert_eq!(
        stop_banner("enough", true),
        format!("{} enough {}", "!".repeat(36), "!".repeat(36))
    );
    assert_eq!(
        stop_banner("enough", false),
        format!("{} Interrupted: enough {}", "!".repeat(29), "!".repeat(30))
    );
    assert_eq!(
        reporter_banner(&Some("fail".to_string()), &None, None),
        Some("fail".to_string())
    );
    assert_eq!(reporter_banner(&None, &None, Some(2)), Some("stopping after 2 failures".to_string()));
    assert_eq!(reporter_banner(&None, &None, None), None);
    assert_eq!(exit_line(""), None);
    assert_eq!(exit_line("bye"), Some("Exit: bye".to_string()));
    let lines = interrupt_lines("short", "long", false);
    assert_eq!(lines.len(), 3);
    assert!(lines[0].text.contains("!! KeyboardInterrupt !!"));
    assert_eq!(lines[1].text, "short");
    assert_eq!(
        lines[2].text,
        "(to show a full traceback on KeyboardInterrupt use --full-trace)"
    );
    assert_eq!(interrupt_lines("short", "long", true)[1].text, "long");
}

fn facts() -> FinishFacts {
    FinishFacts {
        no_terminal: false,
        has_reports: true,
        custom_reporter: false,
        is_worker: false,
        no_summary: false,
        aborted: false,
        interrupted: false,
        has_dist_banner: false,
        stopped_after: false,
        should_fail: false,
    }
}

#[test]
fn sections_at_the_end() {
    let steps = finish_steps(&facts());
    let at = |s: FinishStep| steps.iter().position(|x| *x == s);
    assert!(at(FinishStep::Errors) < at(FinishStep::Failures));
    assert!(at(FinishStep::Failures) < at(FinishStep::ShortSummary));
    assert!(at(FinishStep::JunitXml).is_some());
    assert!(at(FinishStep::ShortSummary) < at(FinishStep::SummaryLine));
    assert_eq!(at(FinishStep::AbortBanner), None);
    let quiet = finish_steps(&FinishFacts { no_terminal: true, ..facts() });
    assert!(!quiet.contains(&FinishStep::Failures));
    assert!(quiet.contains(&FinishStep::JunitXml));
    assert!(no_tests_steps(&facts()).contains(&FinishStep::JunitXml));
}

fn session() -> SessionOptions {
    SessionOptions {
        is_worker: false,
        numprocesses: None,
        dist_load: false,
        has_tx: false,
        doctest_report: None,
        cache_show: false,
        markers: false,
        help: false,
        collect_only: false,
        fixtures: false,
        fixtures_per_test: false,
    }
}

#[test]
fn course_of_a_session() {
    let o = session();
    let m = start(&o);
    assert_eq!(m.action, Action::Configure);
    let path = [
        (Event::Done, Action::OpenCache),
        (Event::Done, Action::Collect),
        (Event::Collected { errors: 0, claimed: None }, Action::HandleCollectionErrors),
        (Event::ErrorsHandled { code: None, not_found: false }, Action::CheckStrictMarkers),
        (Event::Done, Action::CountItems),
        (Event::Count(5), Action::Deselect),
        (Event::Done, Action::CheckPendingHooks),
        (Event::Done, Action::ModifyItems),
        (Event::Done, Action::CacheModifyItems),
        (Event::Done, Action::DeferredWrappers),
        (Event::Done, Action::FireDeselected),
        (Event::Count(3), Action::FinishCollection),
        (Event::Done, Action::PrintCollectionCount),
        (Event::Done, Action::RunLoopHook),
        (Event::LoopReplaced(false), Action::ResolveWorkers),
        (Event::Workers(None), Action::RunItems),
        (Event::RunEnded(None), Action::FinishSession),
        (Event::Code(0), Action::Stop { code: 0, notice: Notice::Silent, unconfigure: false }),
    ];
    let mut m: Machine = m;
    for (event, action) in path {
        m = next(&o, &m, event);
        assert_eq!(m.action, action);
    }
    assert_eq!(m.deselected, 2);
}

#[test]
fn sessions_that_end_early() {
    let o = session();
    let m = next(&o, &start(&o), Event::UsageError);
    assert_eq!(
        m.action,
        Action::Stop { code: 4, notice: Notice::ErrorLine, unconfigure: false }
    );
    let markers = SessionOptions { markers: true, ..session() };
    let collect = Machine { action: Action::Collect, ..start(&markers) };
    let m = next(&markers, &collect, Event::Collected { errors: 0, claimed: None });
    assert_eq!(m.action, Action::Stop { code: 0, notice: Notice::Silent, unconfigure: true });
    let m = next(&o, &collect, Event::Collected { errors: 0, claimed: Some(6) });
    assert_eq!(
        m.action,
        Action::Stop { code: 6, notice: Notice::SummaryLine, unconfigure: true }
    );
    let m = next(&o, &collect, Event::Error);
    assert_eq!(m.action, Action::ShowCollectFailure);
    let spread = SessionOptions { numprocesses: Some("2".to_string()), ..session() };
    assert_eq!(start(&spread).action, Action::RegisterXdistMarkers);
    let alone = SessionOptions { numprocesses: Some("0".to_string()), ..session() };
    assert_eq!(start(&alone).action, Action::Configure);
    let bad = SessionOptions { doctest_report: Some("odd".to_string()), ..session() };
    let m = next(&bad, &start(&bad), Event::Done);
    assert_eq!(
        m.action,
        Action::Stop { code: 4, notice: Notice::DoctestReport, unconfigure: false }
    );
    let skips = [report(Phase::Setup, Outcome::Skipped), report(Phase::Call, Outcome::Skipped)];
    assert_eq!(collect_skips(&skips), 1);
    assert_eq!(cache_glob(""), "*");
    assert_eq!(cache_glob("a*"), "a*");
}

fn startup() -> StartOptions {
    StartOptions {
        warnings_disabled: false,
        unraisable_disabled: false,
        threadexception_disabled: false,
        debugging_disabled: false,
        log_file_mode: None,
        log_file_mode_ini: None,
        color: None,
        capture_disable: false,
        capture: None,
        basetemp: None,
        basetemp_path: vec![],
        cwd: strings(&["/", "r"]),
        junit_xml: None,
        junit_is_dir: false,
        is_worker: false,
        runxfail: false,
    }
}

#[test]
fn options_are_checked_at_the_start() {
    let o = startup();
    assert_eq!(check_log_file_mode(&o), None);
    assert_eq!(check_color(&o), None);
    assert_eq!(check_capture(&o), None);
    assert_eq!(check_basetemp(&o), None);
    assert_eq!(check_junit(&o), None);
    assert_eq!(capture_mode(&o), "fd");
    assert_eq!(capture_mode(&StartOptions { capture_disable: true, ..startup() }), "no");
    assert_eq!(
        check_color(&StartOptions { color: Some("blue".to_string()), ..startup() }),
        Some(
            "error: argument --color: invalid choice: 'blue' (choose from 'yes', 'no', 'auto')"
                .to_string()
        )
    );
    assert_eq!(check_color(&StartOptions { color: Some("auto".to_string()), ..startup() }), None);
    assert_eq!(
        check_capture(&StartOptions { capture: Some("x".to_string()), ..startup() }),
        Some(
            "error: argument --capture: invalid choice: 'x' (choose from 'fd', 'sys', 'no', \
             'tee-sys')"
                .to_string()
        )
    );
    let mode = StartOptions { log_file_mode: Some("r".to_string()), ..startup() };
    assert_eq!(
        check_log_file_mode(&mode),
        Some(
            "error: argument --log-file-mode: invalid choice: 'r' (choose from 'w', 'a')"
                .to_string()
        )
    );
    let dir = StartOptions {
        junit_xml: Some("out".to_string()),
        junit_is_dir: true,
        ..startup()
    };
    assert_eq!(
        check_junit(&dir),
        Some("ERROR: --junitxml must be a filename, given: out".to_string())
    );
    assert_eq!(check_junit(&StartOptions { is_worker: true, ..dir }), None);
    let base = StartOptions {
        basetemp: Some("..".to_string()),
        basetemp_path: strings(&["/"]),
        ..startup()
    };
    assert_eq!(
        check_basetemp(&base),
        Some(
            "ERROR: basetemp must not be the current directory or an ancestor directory. Use a \
             relative path: .."
                .to_string()
        )
    );
    let below = StartOptions { basetemp_path: strings(&["/", "r", "tmp"]), ..base };
    assert_eq!(check_basetemp(&below), None);
    assert_eq!(
        check_doctest_report("odd"),
        Some(
            "error: argument --doctest-report: invalid choice: 'odd' (choose from none, cdiff, \
             udiff, ndiff, only_first_failure)"
                .to_string()
        )
    );
    assert_eq!(check_doctest_report("UDiff"), None);
}

#[test]
fn plans_of_sessions() {
    let plan = run_plan(&startup());
    assert_eq!(plan.rejection, None);
    assert_eq!(plan.steps.iter().filter(|s| **s == StartStep::RunSession).count(), 1);
    let bad = run_plan(&StartOptions { color: Some("blue".to_string()), ..startup() });
    assert!(bad.rejection.is_some());
    assert!(!bad.steps.contains(&StartStep::RunSession));
    let nested = nested_plan(&startup());
    assert!(nested.steps.contains(&StartStep::RunSession));
    assert!(nested.steps.contains(&StartStep::RestoreColor));
    assert_eq!(failure_code(StartStep::InstallShim, false), Some(3));
    assert_eq!(failure_code(StartStep::CheckTheme, false), Some(4));
    assert_eq!(failure_code(StartStep::InstallWarningCapture, false), Some(4));
    assert_eq!(failure_code(StartStep::InstallWarningCapture, true), None);
    assert_eq!(failure_code(StartStep::RunSession, false), None);
}

#[test]
fn failures_at_the_start_are_told() {
    let error = ErrorTexts {
        message: "no such filter".to_string(),
        shown: "UsageError: no such filter".to_string(),
        rendered: "Traceback\nUsageError: no such filter".to_string(),
    };
    let told = |step, nested| failure_notice(step, nested, &error);
    assert_eq!(
        told(StartStep::ActivateVirtualenv, false),
        Some(
            "INTERNAL ERROR: failed to activate virtualenv: UsageError: no such filter"
                .to_string()
        )
    );
    assert_eq!(
        told(StartStep::InstallShim, false),
        Some("INTERNAL ERROR: failed to install pytest shim: UsageError: no such filter".to_string())
    );
    let traced = Some("INTERNAL ERROR: Traceback\nUsageError: no such filter".to_string());
    assert_eq!(told(StartStep::ConfigureJunit, false), traced);
    assert_eq!(told(StartStep::ConfigureMarkGenerator, false), traced);
    let plain = Some("ERROR: no such filter".to_string());
    assert_eq!(told(StartStep::CheckTheme, false), plain);
    assert_eq!(told(StartStep::InstallWarningCapture, false), plain);
    assert_eq!(told(StartStep::InstallWarningCapture, true), None);
    assert_eq!(told(StartStep::RunSession, false), None);
}
