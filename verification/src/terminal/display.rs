//! The session header, the ERRORS section, the warnings summary, the list of
//! markers and the closing line of `--collect-only`.

use vstd::prelude::*;

use crate::banner::{banner_of, center_banner, center_with};
use crate::lists::{append_texts, contains_sum};
use crate::nodeid::nodeids_come_apart;
use crate::report::{Outcome, Phase, TestReport};
use crate::terminal::line::{emit, no_lines, plain, shown, Line, LineView, Style};
use crate::terminal::results::{rendered, render_longrepr};
use crate::text::{
    decimal, decimal_of, join, joined, joined_push, not_parted, plural, plural_of, same, split,
    split_by, split_whitespace,
    texts, trim, trimmed, words_of,
};

verus! {

/// How `--markers` explains `filterwarnings`.
pub const FILTERWARNINGS_MARK: &'static str = "@pytest.mark.filterwarnings(warning): add a warning filter to the given test. see https://docs.pytest.org/en/stable/how-to/capture-warnings.html#pytest-mark-filterwarnings";

/// How `--markers` explains `skip`.
pub const SKIP_MARK: &'static str = "@pytest.mark.skip(reason=None): skip the given test function with an optional reason. Example: skip(reason=\"no way of currently testing this\") skips the test.";

/// How `--markers` explains `skipif`.
pub const SKIPIF_MARK: &'static str = "@pytest.mark.skipif(condition, ..., *, reason=...): skip the given test function if any of the conditions evaluate to True. Example: skipif(sys.platform == 'win32') skips the test if we are on the win32 platform. See https://docs.pytest.org/en/stable/reference/reference.html#pytest-mark-skipif";

/// How `--markers` explains `xfail`.
pub const XFAIL_MARK: &'static str = "@pytest.mark.xfail(condition, ..., *, reason=..., run=True, raises=None, strict=strict_xfail): mark the test function as an expected failure if any of the conditions evaluate to True. Optionally specify a reason for better reporting and run=False if you don't even want to execute the test function. If only specific exception(s) are expected, you can list them in raises, and if the test fails in other ways, it will be reported as a true failure. See https://docs.pytest.org/en/stable/reference/reference.html#pytest-mark-xfail";

/// How `--markers` explains `parametrize`.
pub const PARAMETRIZE_MARK: &'static str = "@pytest.mark.parametrize(argnames, argvalues): call a test function multiple times passing in different arguments in turn. argvalues generally needs to be a list of values if argnames specifies only one name or a list of tuples of values if argnames specifies multiple names. Example: @parametrize('arg1', [1,2]) would lead to two calls of the decorated test function, one with arg1=1 and another with arg1=2. see https://docs.pytest.org/en/stable/how-to/parametrize.html for more info and examples.";

/// How `--markers` explains `usefixtures`.
pub const USEFIXTURES_MARK: &'static str = "@pytest.mark.usefixtures(fixturename1, fixturename2, ...): mark tests as needing all of the specified fixtures. see https://docs.pytest.org/en/stable/explanation/fixtures.html#usefixtures";

/// How `--markers` explains `tryfirst`.
pub const TRYFIRST_MARK: &'static str = "@pytest.mark.tryfirst: mark a hook implementation function such that the plugin machinery will try to call it first/as early as possible. DEPRECATED, use @pytest.hookimpl(tryfirst=True) instead.";

/// How `--markers` explains `trylast`.
pub const TRYLAST_MARK: &'static str = "@pytest.mark.trylast: mark a hook implementation function such that the plugin machinery will try to call it last/as late as possible. DEPRECATED, use @pytest.hookimpl(trylast=True) instead.";

/// What the session header says.
pub struct HeaderInfo {
    pub quiet: bool,
    pub no_terminal: bool,
    /// `--no-header`.
    pub no_header: bool,
    /// The operating system.
    pub os: String,
    /// The version text of the interpreter.
    pub python_version: String,
    /// Header lines of native plugins.
    pub plugin_lines: Vec<String>,
    /// `TOX_ENV_DIR`.
    pub tox_env_dir: Option<String>,
    /// The `cache_dir` ini option.
    pub cache_dir: Option<String>,
    pub cache_disabled: bool,
    pub verbose: i32,
    pub rootdir: String,
    pub config_file: Option<String>,
    /// Other files that held configuration and lost.
    pub ignored_config_files: Vec<String>,
    /// The paths of the command line.
    pub has_paths: bool,
    /// The `testpaths` ini option.
    pub testpaths: Option<String>,
    /// Names and versions of installed plugins.
    pub plugins: Vec<String>,
    /// `--traceconfig`.
    pub traceconfig: bool,
    /// The version of the runner.
    pub own_version: String,
}

// ---------------------------------------------------------------------------
// Model
// ---------------------------------------------------------------------------

/// Python's name of an operating system.
pub open spec fn platform_of(os: Seq<char>) -> Seq<char> {
    if os == "macos"@ {
        "darwin"@
    } else if os == "windows"@ {
        "win32"@
    } else {
        os
    }
}

/// The first word of `s`, "" without one.
pub open spec fn first_word(s: Seq<char>) -> Seq<char> {
    if words_of(s).len() > 0 {
        words_of(s)[0]
    } else {
        seq![]
    }
}

/// Plain lines.
pub open spec fn plain_all(lines: Seq<Seq<char>>) -> Seq<LineView> {
    Seq::new(lines.len(), |i: int| plain(lines[i]))
}

/// A line, where there is one.
pub open spec fn maybe(b: bool, line: Seq<char>) -> Seq<LineView> {
    if b {
        seq![plain(line)]
    } else {
        seq![]
    }
}

/// The cache directory: the ini option, else the default.
pub open spec fn cache_dir_of(h: HeaderInfo) -> Seq<char> {
    match h.cache_dir {
        Some(dir) => trimmed(dir@),
        None => match h.tox_env_dir {
            Some(tox) => tox@ + "/.pytest_cache"@,
            None => ".pytest_cache"@,
        },
    }
}

/// What is said of configuration files that lost.
pub open spec fn ignored_warning(files: Seq<String>) -> Seq<char> {
    if files.len() == 0 {
        seq![]
    } else {
        " (WARNING: ignoring pytest config in "@ + joined(texts(files), ", "@) + "!)"@
    }
}

/// The line about the configuration file.
pub open spec fn config_lines(h: HeaderInfo) -> Seq<LineView> {
    match h.config_file {
        Some(name) => seq![
            plain("configfile: "@ + name@ + ignored_warning(h.ignored_config_files@)),
        ],
        None => seq![],
    }
}

/// The line about `testpaths`, where collection ran from it.
pub open spec fn testpaths_lines(h: HeaderInfo) -> Seq<LineView> {
    match h.testpaths {
        Some(paths) => maybe(
            !h.has_paths && trimmed(paths@).len() > 0,
            "testpaths: "@ + joined(words_of(paths@), ", "@),
        ),
        None => seq![],
    }
}

/// What `--traceconfig` adds.
pub open spec fn trace_lines(h: HeaderInfo) -> Seq<LineView> {
    if h.traceconfig {
        seq![
            plain("using: pytest-9.0.3 (pytest-rs-"@ + h.own_version@ + ", embedded)"@),
            plain("active plugins:"@),
            plain("    pytest-rs               : pytest-rs-"@ + h.own_version@),
        ]
    } else {
        seq![]
    }
}

/// The whole header.
pub open spec fn header_lines(h: HeaderInfo) -> Seq<LineView> {
    if h.quiet || h.no_terminal {
        seq![]
    } else {
        let banner = seq![
            LineView { text: banner_of("test session starts"@, '='), style: Style::Bold },
        ];
        if h.no_header {
            banner
        } else {
            banner.push(
                plain(
                    "platform "@ + platform_of(h.os@) + " -- Python "@ + first_word(
                        h.python_version@,
                    ) + ", pytest-9.0.3, pluggy-1.6.0"@,
                ),
            ) + plain_all(texts(h.plugin_lines@)) + maybe(
                !h.cache_disabled && (h.verbose > 0 || cache_dir_of(h) != ".pytest_cache"@),
                "cachedir: "@ + cache_dir_of(h),
            ) + seq![plain("rootdir: "@ + h.rootdir@)] + config_lines(h) + testpaths_lines(h)
                + maybe(
                h.plugins@.len() > 0,
                "plugins: "@ + joined(texts(h.plugins@), ", "@),
            ) + trace_lines(h)
        }
    }
}

/// The lines of blocks of text, in order.
pub open spec fn blocks_of(blocks: Seq<Seq<char>>) -> Seq<Seq<char>>
    decreases blocks.len(),
{
    if blocks.len() == 0 {
        seq![]
    } else {
        blocks_of(blocks.drop_last()) + split_by(blocks.last(), "\n"@)
    }
}

/// A collection error was reported for this nodeid.
pub open spec fn has_collect_error(errors: Seq<(String, String)>, nodeid: Seq<char>) -> bool {
    exists|i: int| 0 <= i < errors.len() && (#[trigger] errors[i]).0@ == nodeid
}

/// A failure of setup or teardown that is no collection error.
pub open spec fn is_phase_error(r: TestReport, errors: Seq<(String, String)>) -> bool {
    r.outcome == Outcome::Failed && r.phase != Phase::Call && !has_collect_error(errors, r.nodeid@)
}

/// The parts of a nodeid after the file, joined by dots; all of it without
/// such parts.
pub open spec fn domain_name(nodeid: Seq<char>) -> Seq<char> {
    let parts = split_by(nodeid, "::"@);
    if parts.len() <= 1 {
        nodeid
    } else {
        joined(parts.skip(1), "."@)
    }
}

/// The lines for the first `n` collection errors.
pub open spec fn collect_error_lines(errors: Seq<(String, String)>, n: int) -> Seq<LineView>
    decreases n,
{
    if n <= 0 {
        seq![]
    } else {
        collect_error_lines(errors, n - 1).push(
            plain(banner_of("ERROR collecting "@ + errors[n - 1].0@, '_')),
        ).push(plain(errors[n - 1].1@))
    }
}

/// The lines for one failure of setup or teardown.
pub open spec fn phase_error_lines(r: TestReport, show: Seq<char>) -> Seq<LineView> {
    let when = if r.phase == Phase::Teardown {
        "teardown"@
    } else {
        "setup"@
    };
    let head = seq![plain(banner_of("ERROR at "@ + when + " of "@ + domain_name(r.nodeid@), '_'))];
    if r.longrepr is Some {
        head.push(plain(rendered(r, show)))
    } else {
        head
    }
}

/// The lines for the failures of setup or teardown among the first `n`
/// reports.
pub open spec fn phase_errors_upto(
    reports: Seq<TestReport>,
    n: int,
    errors: Seq<(String, String)>,
    show: Seq<char>,
) -> Seq<LineView>
    decreases n,
{
    if n <= 0 {
        seq![]
    } else {
        let before = phase_errors_upto(reports, n - 1, errors, show);
        if is_phase_error(reports[n - 1], errors) {
            before + phase_error_lines(reports[n - 1], show)
        } else {
            before
        }
    }
}

/// The ERRORS section, after a blank line; nothing under `--tb=no` or without
/// errors.
pub open spec fn error_section(
    errors: Seq<(String, String)>,
    reports: Seq<TestReport>,
    tb_no: bool,
    show: Seq<char>,
) -> Seq<LineView> {
    let phase = phase_errors_upto(reports, reports.len() as int, errors, show);
    if tb_no || (errors.len() == 0 && phase.len() == 0) {
        seq![]
    } else {
        seq![plain(""@), plain(banner_of("ERRORS"@, '='))] + collect_error_lines(
            errors,
            errors.len() as int,
        ) + phase
    }
}

/// What `--collect-only` says of the tests it found.
pub open spec fn collected_status(selected: nat, deselected: nat) -> Seq<char> {
    let total = selected + deselected;
    if total == 0 {
        "no tests collected"@
    } else if deselected == 0 {
        decimal_of(total) + " test"@ + plural_of(total) + " collected"@
    } else if selected == 0 {
        "no tests collected ("@ + decimal_of(deselected) + " deselected)"@
    } else {
        decimal_of(selected) + "/"@ + decimal_of(total) + " tests collected ("@ + decimal_of(
            deselected,
        ) + " deselected)"@
    }
}

/// The closing text of `--collect-only`.
pub open spec fn collected_text(
    selected: nat,
    deselected: nat,
    errors: nat,
    elapsed: Seq<char>,
) -> Seq<char> {
    let status = collected_status(selected, deselected);
    let with_errors = if errors > 0 {
        status + ", "@ + decimal_of(errors) + " error"@ + plural_of(errors)
    } else {
        status
    };
    with_errors + " in "@ + elapsed + "s"@
}

/// The color of the closing line: errors dominate.
pub open spec fn collected_style(selected: nat, errors: nat) -> Style {
    if errors > 0 {
        Style::Red
    } else if selected == 0 {
        Style::Yellow
    } else {
        Style::Green
    }
}

/// The warnings summary.
pub open spec fn warning_lines(
    lines: Seq<Seq<char>>,
    worker_lines: Seq<Seq<char>>,
    in_process: nat,
    from_workers: nat,
    hidden: bool,
    last: bool,
) -> Seq<LineView> {
    let docs = plain(
        "-- Docs: https://docs.pytest.org/en/stable/how-to/capture-warnings.html"@,
    );
    if hidden {
        seq![]
    } else if last {
        if lines.len() == 0 {
            seq![]
        } else {
            (seq![plain(banner_of("warnings summary (final)"@, '='))] + plain_all(lines)).push(docs)
        }
    } else if in_process == 0 && from_workers == 0 {
        seq![]
    } else {
        (seq![plain(banner_of("warnings summary"@, '='))] + plain_all(lines) + plain_all(
            worker_lines,
        )).push(docs)
    }
}

/// The lines for the first `n` registered markers; blank ones are left out.
pub open spec fn registered_marker_lines(lines: Seq<Seq<char>>, n: int) -> Seq<LineView>
    decreases n,
{
    if n <= 0 {
        seq![]
    } else {
        let before = registered_marker_lines(lines, n - 1);
        if trimmed(lines[n - 1]).len() > 0 {
            before.push(plain("@pytest.mark."@ + trimmed(lines[n - 1]) + "\n"@))
        } else {
            before
        }
    }
}

// ---------------------------------------------------------------------------
// Executable functions
// ---------------------------------------------------------------------------

/// Appends plain lines.
fn emit_texts(out: &mut Vec<Line>, lines: &[String])
    ensures
        shown(final(out)@) == shown(old(out)@) + plain_all(texts(lines@)),
{
    let ghost start = shown(out@);
    let ghost all = plain_all(texts(lines@));
    let mut i: usize = 0;
    assert(start + all.take(0) =~= start);
    while i < lines.len()
        invariant
            i <= lines@.len(),
            all == plain_all(texts(lines@)),
            shown(out@) == start + all.take(i as int),
        decreases lines@.len() - i,
    {
        emit(out, lines[i].clone(), Style::Plain);
        assert(shown(out@) =~= start + all.take(i + 1));
        i += 1;
    }
    assert(all.take(i as int) =~= all);
}

/// Appends a plain line, where there is one.
fn emit_maybe(out: &mut Vec<Line>, b: bool, line: String)
    ensures
        shown(final(out)@) == shown(old(out)@) + maybe(b, line@),
{
    let ghost start = shown(out@);
    if b {
        emit(out, line, Style::Plain);
    }
    assert(shown(out@) =~= start + maybe(b, line@));
}

/// `a` followed by `b`.
fn cat(a: &str, b: &str) -> (r: String)
    ensures
        r@ == a@ + b@,
{
    let mut r: String = a.to_owned();
    r.append(b);
    r
}

/// Python's name of an operating system.
pub fn platform_name(os: &str) -> (r: String)
    ensures
        r@ == platform_of(os@),
{
    if same(os, "macos") {
        "darwin".to_owned()
    } else if same(os, "windows") {
        "win32".to_owned()
    } else {
        os.to_owned()
    }
}

/// The first word of `s`.
pub fn leading_word(s: &str) -> (r: String)
    ensures
        r@ == first_word(s@),
{
    let words = split_whitespace(s);
    assert(texts(words@).len() == words@.len());
    if words.len() > 0 {
        assert(texts(words@)[0] == words@[0]@);
        words[0].clone()
    } else {
        String::new()
    }
}

/// The cache directory.
fn find_cache_dir(h: &HeaderInfo) -> (r: String)
    ensures
        r@ == cache_dir_of(*h),
{
    match &h.cache_dir {
        Some(dir) => trim(dir.as_str()),
        None => match &h.tox_env_dir {
            Some(tox) => cat(tox.as_str(), "/.pytest_cache"),
            None => ".pytest_cache".to_owned(),
        },
    }
}

/// Appends the line about the configuration file.
fn emit_config(out: &mut Vec<Line>, h: &HeaderInfo)
    ensures
        shown(final(out)@) == shown(old(out)@) + config_lines(*h),
{
    let ghost start = shown(out@);
    match &h.config_file {
        Some(name) => {
            let mut line = cat("configfile: ", name.as_str());
            let mut warning: String = String::new();
            if h.ignored_config_files.len() > 0 {
                warning = cat(
                    " (WARNING: ignoring pytest config in ",
                    join(h.ignored_config_files.as_slice(), ", ").as_str(),
                );
                warning.append("!)");
            }
            line.append(warning.as_str());
            emit(out, line, Style::Plain);
        },
        None => {},
    }
    assert(shown(out@) =~= start + config_lines(*h));
}

/// Appends the line about `testpaths`.
fn emit_testpaths(out: &mut Vec<Line>, h: &HeaderInfo)
    ensures
        shown(final(out)@) == shown(old(out)@) + testpaths_lines(*h),
{
    let ghost start = shown(out@);
    match &h.testpaths {
        Some(paths) => {
            let words = split_whitespace(paths.as_str());
            let line = cat("testpaths: ", join(words.as_slice(), ", ").as_str());
            let bare = trim(paths.as_str());
            emit_maybe(out, !h.has_paths && !bare.as_str().is_empty(), line);
        },
        None => {},
    }
    assert(shown(out@) =~= start + testpaths_lines(*h));
}

/// Appends what `--traceconfig` adds.
fn emit_trace(out: &mut Vec<Line>, h: &HeaderInfo)
    ensures
        shown(final(out)@) == shown(old(out)@) + trace_lines(*h),
{
    let ghost start = shown(out@);
    if h.traceconfig {
        let mut using = cat("using: pytest-9.0.3 (pytest-rs-", h.own_version.as_str());
        using.append(", embedded)");
        emit(out, using, Style::Plain);
        emit(out, "active plugins:".to_owned(), Style::Plain);
        emit(
            out,
            cat("    pytest-rs               : pytest-rs-", h.own_version.as_str()),
            Style::Plain,
        );
    }
    assert(shown(out@) =~= start + trace_lines(*h));
}

/// The session header. `-q` and a disabled terminal suppress it; with
/// `--no-header` only the banner is left.
pub fn session_header(h: &HeaderInfo) -> (r: Vec<Line>)
    ensures
        shown(r@) == header_lines(*h),
{
    let mut out = no_lines();
    if h.quiet || h.no_terminal {
        return out;
    }
    emit(&mut out, center_banner("test session starts"), Style::Bold);
    assert(shown(out@) =~= seq![
        LineView { text: banner_of("test session starts"@, '='), style: Style::Bold },
    ]);
    if h.no_header {
        return out;
    }
    let mut line = cat("platform ", platform_name(h.os.as_str()).as_str());
    line.append(" -- Python ");
    line.append(leading_word(h.python_version.as_str()).as_str());
    line.append(", pytest-9.0.3, pluggy-1.6.0");
    emit(&mut out, line, Style::Plain);
    emit_texts(&mut out, h.plugin_lines.as_slice());
    let cache_dir = find_cache_dir(h);
    let show_cache = !h.cache_disabled && (h.verbose > 0 || !same(
        cache_dir.as_str(),
        ".pytest_cache",
    ));
    emit_maybe(&mut out, show_cache, cat("cachedir: ", cache_dir.as_str()));
    emit_maybe(&mut out, true, cat("rootdir: ", h.rootdir.as_str()));
    emit_config(&mut out, h);
    emit_testpaths(&mut out, h);
    let plugins = join(h.plugins.as_slice(), ", ");
    emit_maybe(&mut out, h.plugins.len() > 0, cat("plugins: ", plugins.as_str()));
    emit_trace(&mut out, h);
    out
}

/// The lines of blocks of text that hooks returned, in order.
pub fn block_lines(blocks: &[String]) -> (r: Vec<String>)
    ensures
        texts(r@) == blocks_of(texts(blocks@)),
{
    proof {
        reveal_strlit("\n");
    }
    let mut r: Vec<String> = Vec::new();
    let mut i: usize = 0;
    assert(texts(r@) =~= seq![]);
    while i < blocks.len()
        invariant
            i <= blocks@.len(),
            "\n"@.len() == 1,
            texts(r@) == blocks_of(texts(blocks@).take(i as int)),
        decreases blocks@.len() - i,
    {
        assert(texts(blocks@).take(i + 1).drop_last() =~= texts(blocks@).take(i as int));
        let ghost before = r@;
        let more = split(blocks[i].as_str(), "\n");
        append_texts(&mut r, more.as_slice());
        assert(texts(r@) =~= texts(before) + texts(more@));
        i += 1;
    }
    assert(texts(blocks@).take(i as int) =~= texts(blocks@));
    r
}

/// What the header and collection-finish hooks print: each result is a block
/// or a list of blocks. Nothing at `-q` or with a disabled terminal.
pub fn hook_lines(blocks: &[String], quiet: bool, no_terminal: bool) -> (r: Vec<String>)
    ensures
        quiet || no_terminal ==> r@.len() == 0,
        !(quiet || no_terminal) ==> texts(r@) == blocks_of(texts(blocks@)),
{
    if quiet || no_terminal {
        return Vec::new();
    }
    block_lines(blocks)
}

/// Whether a collection error was reported for this nodeid.
fn find_collect_error(errors: &[(String, String)], nodeid: &str) -> (r: bool)
    ensures
        r == has_collect_error(errors@, nodeid@),
{
    let mut i: usize = 0;
    while i < errors.len()
        invariant
            i <= errors@.len(),
            forall|j: int| 0 <= j < i ==> (#[trigger] errors@[j]).0@ != nodeid@,
        decreases errors@.len() - i,
    {
        if same(errors[i].0.as_str(), nodeid) {
            assert(errors@[i as int].0@ == nodeid@);
            return true;
        }
        i += 1;
    }
    false
}

/// The parts of a nodeid after the file, joined by dots.
fn find_domain(nodeid: &str) -> (r: String)
    ensures
        r@ == domain_name(nodeid@),
{
    proof {
        reveal_strlit("::");
    }
    let mut parts = split(nodeid, "::");
    let ghost all = texts(parts@);
    assert(all.len() == parts@.len());
    if parts.len() <= 1 {
        return nodeid.to_owned();
    }
    parts.remove(0);
    assert(texts(parts@) =~= all.skip(1));
    join(parts.as_slice(), ".")
}

/// Appends the lines for one failure of setup or teardown.
fn emit_phase_error(out: &mut Vec<Line>, r: &TestReport, show: &str)
    ensures
        shown(final(out)@) == shown(old(out)@) + phase_error_lines(*r, show@),
{
    let ghost start = shown(out@);
    let when: &str = if r.phase == Phase::Teardown {
        "teardown"
    } else {
        "setup"
    };
    let mut label = cat("ERROR at ", when);
    label.append(" of ");
    label.append(find_domain(r.nodeid.as_str()).as_str());
    emit(out, center_with(label.as_str(), '_'), Style::Plain);
    if r.longrepr.is_some() {
        emit(out, render_longrepr(r, show), Style::Plain);
    }
    assert(shown(out@) =~= start + phase_error_lines(*r, show@));
}

/// The ERRORS section: "ERROR collecting" for each collection error, then
/// "ERROR at setup of" and "ERROR at teardown of" for failing fixtures.
pub fn errors_section(
    errors: &[(String, String)],
    reports: &[TestReport],
    tb: &Option<String>,
    show_capture: &str,
) -> (r: Vec<Line>)
    ensures
        shown(r@) == error_section(
            errors@,
            reports@,
            *tb matches Some(style) && style@ == "no"@,
            show_capture@,
        ),
{
    let tb_no = match tb {
        Some(style) => same(style.as_str(), "no"),
        None => false,
    };
    let mut phase = no_lines();
    let mut i: usize = 0;
    while i < reports.len()
        invariant
            i <= reports@.len(),
            shown(phase@) == phase_errors_upto(reports@, i as int, errors@, show_capture@),
        decreases reports@.len() - i,
    {
        let r = &reports[i];
        if r.outcome == Outcome::Failed && r.phase != Phase::Call && !find_collect_error(
            errors,
            r.nodeid.as_str(),
        ) {
            emit_phase_error(&mut phase, r, show_capture);
        }
        i += 1;
    }
    let mut out = no_lines();
    assert(shown(phase@).len() == phase@.len());
    if tb_no || (errors.len() == 0 && phase.len() == 0) {
        return out;
    }
    emit(&mut out, "".to_owned(), Style::Plain);
    emit(&mut out, center_banner("ERRORS"), Style::Plain);
    let ghost head = shown(out@);
    assert(head =~= seq![plain(""@), plain(banner_of("ERRORS"@, '='))]);
    let mut k: usize = 0;
    assert(head + collect_error_lines(errors@, 0) =~= head);
    while k < errors.len()
        invariant
            k <= errors@.len(),
            shown(out@) == head + collect_error_lines(errors@, k as int),
        decreases errors@.len() - k,
    {
        let label = cat("ERROR collecting ", errors[k].0.as_str());
        emit(&mut out, center_with(label.as_str(), '_'), Style::Plain);
        emit(&mut out, errors[k].1.clone(), Style::Plain);
        assert(shown(out@) =~= head + collect_error_lines(errors@, k + 1));
        k += 1;
    }
    crate::terminal::line::emit_all(&mut out, phase);
    out
}

/// The closing line of `--collect-only`, after a blank line: a banner, or the
/// bare text at `-q`. `elapsed` is the time in seconds with two decimals.
pub fn collect_only_summary(
    selected: usize,
    deselected: usize,
    errors: usize,
    elapsed: &str,
    quiet: bool,
) -> (r: Vec<Line>)
    requires
        selected + deselected <= usize::MAX,
    ensures
        ({
            let text = collected_text(
                selected as nat,
                deselected as nat,
                errors as nat,
                elapsed@,
            );
            shown(r@) == seq![
                plain(""@),
                LineView {
                    text: if quiet {
                        text
                    } else {
                        banner_of(text, '=')
                    },
                    style: collected_style(selected as nat, errors as nat),
                },
            ]
        }),
{
    let total: usize = selected + deselected;
    let mut text: String = if total == 0 {
        "no tests collected".to_owned()
    } else if deselected == 0 {
        let mut t = cat(decimal(total).as_str(), " test");
        t.append(plural(total));
        t.append(" collected");
        t
    } else if selected == 0 {
        let mut t = cat("no tests collected (", decimal(deselected).as_str());
        t.append(" deselected)");
        t
    } else {
        let mut t = cat(decimal(selected).as_str(), "/");
        t.append(decimal(total).as_str());
        t.append(" tests collected (");
        t.append(decimal(deselected).as_str());
        t.append(" deselected)");
        t
    };
    if errors > 0 {
        text.append(", ");
        text.append(decimal(errors).as_str());
        text.append(" error");
        text.append(plural(errors));
    }
    text.append(" in ");
    text.append(elapsed);
    text.append("s");
    let style = if errors > 0 {
        Style::Red
    } else if selected == 0 {
        Style::Yellow
    } else {
        Style::Green
    };
    let mut out = no_lines();
    emit(&mut out, "".to_owned(), Style::Plain);
    if quiet {
        emit(&mut out, text, style);
    } else {
        emit(&mut out, center_banner(text.as_str()), style);
    }
    assert(shown(out@).len() == 2);
    out
}

/// The warnings summary. The last pass shows warnings that appeared after the
/// first one, and only if there are any; the first also counts the workers'.
pub fn warnings_summary(
    lines: &[String],
    worker_lines: &[String],
    in_process: usize,
    from_workers: usize,
    hidden: bool,
    last: bool,
) -> (r: Vec<Line>)
    ensures
        shown(r@) == warning_lines(
            texts(lines@),
            texts(worker_lines@),
            in_process as nat,
            from_workers as nat,
            hidden,
            last,
        ),
{
    let mut out = no_lines();
    if hidden || (last && lines.len() == 0) || (!last && in_process == 0 && from_workers == 0) {
        return out;
    }
    let title: &str = if last {
        "warnings summary (final)"
    } else {
        "warnings summary"
    };
    emit(&mut out, center_banner(title), Style::Plain);
    assert(shown(out@) =~= seq![plain(banner_of(title@, '='))]);
    emit_texts(&mut out, lines);
    if !last {
        emit_texts(&mut out, worker_lines);
    }
    emit(
        &mut out,
        "-- Docs: https://docs.pytest.org/en/stable/how-to/capture-warnings.html".to_owned(),
        Style::Plain,
    );
    out
}

/// The markers that are built in, as `--markers` lists them.
pub open spec fn builtin_marker_texts() -> Seq<Seq<char>> {
    seq![
        FILTERWARNINGS_MARK@,
        SKIP_MARK@,
        SKIPIF_MARK@,
        XFAIL_MARK@,
        PARAMETRIZE_MARK@,
        USEFIXTURES_MARK@,
        TRYFIRST_MARK@,
        TRYLAST_MARK@,
    ]
}

/// What `--markers` shows: the registered markers, then those that are built
/// in, each followed by an empty line.
pub open spec fn marker_listing_lines(lines: Seq<Seq<char>>) -> Seq<LineView> {
    registered_marker_lines(lines, lines.len() as int) + Seq::new(
        8,
        |i: int| plain(builtin_marker_texts()[i] + "\n"@),
    )
}

/// `--markers`: the markers that the ini file and plugins registered.
pub fn registered_markers(lines: &[String]) -> (r: Vec<Line>)
    ensures
        shown(r@) == registered_marker_lines(texts(lines@), lines@.len() as int),
{
    let mut out = no_lines();
    let mut i: usize = 0;
    while i < lines.len()
        invariant
            i <= lines@.len(),
            shown(out@) == registered_marker_lines(texts(lines@), i as int),
        decreases lines@.len() - i,
    {
        let line = trim(lines[i].as_str());
        if !line.as_str().is_empty() {
            let mut text = cat("@pytest.mark.", line.as_str());
            text.append("\n");
            emit(&mut out, text, Style::Plain);
        }
        i += 1;
    }
    out
}

/// Appends a marker and an empty line.
fn emit_marker(out: &mut Vec<Line>, text: &str)
    ensures
        shown(final(out)@) == shown(old(out)@).push(plain(text@ + "\n"@)),
{
    let mut line: String = text.to_owned();
    line.append("\n");
    emit(out, line, Style::Plain);
}

/// `--markers`: the registered markers, then those that are built in.
pub fn marker_listing(lines: &[String]) -> (r: Vec<Line>)
    ensures
        shown(r@) == marker_listing_lines(texts(lines@)),
{
    let mut out = registered_markers(lines);
    let ghost first = shown(out@);
    emit_marker(&mut out, FILTERWARNINGS_MARK);
    emit_marker(&mut out, SKIP_MARK);
    emit_marker(&mut out, SKIPIF_MARK);
    emit_marker(&mut out, XFAIL_MARK);
    emit_marker(&mut out, PARAMETRIZE_MARK);
    emit_marker(&mut out, USEFIXTURES_MARK);
    emit_marker(&mut out, TRYFIRST_MARK);
    emit_marker(&mut out, TRYLAST_MARK);
    assert(texts(lines@).len() == lines@.len());
    assert(shown(out@) =~= first + Seq::new(
        8,
        |i: int| plain(builtin_marker_texts()[i] + "\n"@),
    ));
    out
}

/// The header of a session: nothing where it is quiet or has no terminal; a banner;
/// then, unless it is switched off, the versions, what the plugins have to say, the
/// root directory, and, as far as there are any, the configuration file, the test
/// paths and the plugins.
pub proof fn header_tells_the_setting(h: HeaderInfo)
    ensures
        h.quiet || h.no_terminal ==> header_lines(h).len() == 0,
        !h.quiet && !h.no_terminal ==> header_lines(h).len() > 0 && header_lines(h)[0] == (
        LineView { text: banner_of("test session starts"@, '='), style: Style::Bold }),
        !h.quiet && !h.no_terminal && h.no_header ==> header_lines(h).len() == 1,
        !h.quiet && !h.no_terminal && !h.no_header ==> {
            let lines = header_lines(h);
            let n = h.plugin_lines@.len() as int;
            &&& lines[1] == plain(
                "platform "@ + platform_of(h.os@) + " -- Python "@ + first_word(h.python_version@)
                    + ", pytest-9.0.3, pluggy-1.6.0"@,
            )
            &&& forall|i: int| 2 <= i < n + 2 ==> #[trigger] lines[i] == plain(
                h.plugin_lines@[i - 2]@,
            )
            &&& lines.contains(plain("rootdir: "@ + h.rootdir@))
            &&& h.config_file is Some && h.ignored_config_files@.len() == 0 ==> lines.contains(
                plain("configfile: "@ + h.config_file->0@),
            )
            &&& h.testpaths is Some && !h.has_paths && trimmed(h.testpaths->0@).len() > 0
                ==> lines.contains(
                plain("testpaths: "@ + joined(words_of(h.testpaths->0@), ", "@)),
            )
            &&& h.plugins@.len() > 0 ==> lines.contains(
                plain("plugins: "@ + joined(texts(h.plugins@), ", "@)),
            )
        },
{
    if !h.quiet && !h.no_terminal && !h.no_header {
        let l1 = seq![
            LineView { text: banner_of("test session starts"@, '='), style: Style::Bold },
        ].push(
            plain(
                "platform "@ + platform_of(h.os@) + " -- Python "@ + first_word(h.python_version@)
                    + ", pytest-9.0.3, pluggy-1.6.0"@,
            ),
        );
        let l2 = l1 + plain_all(texts(h.plugin_lines@));
        let l3 = l2 + maybe(
            !h.cache_disabled && (h.verbose > 0 || cache_dir_of(h) != ".pytest_cache"@),
            "cachedir: "@ + cache_dir_of(h),
        );
        let root = plain("rootdir: "@ + h.rootdir@);
        let l4 = l3 + seq![root];
        let l5 = l4 + config_lines(h);
        let l6 = l5 + testpaths_lines(h);
        let named = "plugins: "@ + joined(texts(h.plugins@), ", "@);
        let l7 = l6 + maybe(h.plugins@.len() > 0, named);
        let l8 = l7 + trace_lines(h);
        assert(header_lines(h) == l8);
        stays(l1, plain_all(texts(h.plugin_lines@)));
        assert(l4[l3.len() as int] == root);
        assert(l8[l3.len() as int] == root);
        if h.config_file is Some && h.ignored_config_files@.len() == 0 {
            let config = plain("configfile: "@ + h.config_file->0@);
            assert("configfile: "@ + h.config_file->0@ + ignored_warning(h.ignored_config_files@)
                =~= "configfile: "@ + h.config_file->0@);
            assert(l5[l4.len() as int] == config);
            assert(l8[l4.len() as int] == config);
        }
        if h.testpaths is Some && !h.has_paths && trimmed(h.testpaths->0@).len() > 0 {
            let paths = plain("testpaths: "@ + joined(words_of(h.testpaths->0@), ", "@));
            assert(l6[l5.len() as int] == paths);
            assert(l8[l5.len() as int] == paths);
        }
        if h.plugins@.len() > 0 {
            assert(l7[l6.len() as int] == plain(named));
            assert(l8[l6.len() as int] == plain(named));
        }
    }
}

proof fn stays(a: Seq<LineView>, b: Seq<LineView>)
    ensures
        forall|i: int| 0 <= i < b.len() ==> #[trigger] b[i] == (a + b)[a.len() + i],
{
}

/// The cache directory is told where it is not the usual one, or at any verbosity;
/// the setting comes before the directory of tox.
pub proof fn cache_directory_is_told(h: HeaderInfo)
    requires
        !h.quiet && !h.no_terminal && !h.no_header,
    ensures
        h.cache_dir is Some ==> cache_dir_of(h) == trimmed(h.cache_dir->0@),
        h.cache_dir is None && h.tox_env_dir is Some ==> cache_dir_of(h) == h.tox_env_dir->0@
            + "/.pytest_cache"@,
        h.cache_dir is None && h.tox_env_dir is None ==> cache_dir_of(h) == ".pytest_cache"@,
        !h.cache_disabled && (h.verbose > 0 || cache_dir_of(h) != ".pytest_cache"@) ==> header_lines(
            h,
        )[2 + h.plugin_lines@.len() as int] == plain("cachedir: "@ + cache_dir_of(h)),
        h.cache_disabled || h.verbose <= 0 && cache_dir_of(h) == ".pytest_cache"@ ==> header_lines(
            h,
        )[2 + h.plugin_lines@.len() as int] == plain("rootdir: "@ + h.rootdir@),
{
}

/// Platforms go by the names that Python gives them.
pub proof fn platforms_have_names(os: Seq<char>)
    ensures
        platform_of("macos"@) == "darwin"@,
        platform_of("windows"@) == "win32"@,
        os != "macos"@ && os != "windows"@ ==> platform_of(os) == os,
{
    reveal_strlit("macos");
    reveal_strlit("windows");
    assert("macos"@.len() == 5 && "windows"@.len() == 7);
}

/// Each error of the collection, and each failure of a setup or a teardown, has its
/// banner in the section of errors, with its text below; without any, or with
/// tracebacks switched off, there is no section.
pub proof fn errors_are_shown(
    errors: Seq<(String, String)>,
    reports: Seq<TestReport>,
    show: Seq<char>,
    i: int,
    j: int,
)
    ensures
        error_section(errors, reports, true, show).len() == 0,
        errors.len() == 0 && (forall|k: int|
            0 <= k < reports.len() ==> (#[trigger] reports[k]).outcome != Outcome::Failed
                || reports[k].phase == Phase::Call) ==> error_section(
            errors,
            reports,
            false,
            show,
        ).len() == 0,
        0 <= i < errors.len() ==> {
            let lines = error_section(errors, reports, false, show);
            &&& lines[1] == plain(banner_of("ERRORS"@, '='))
            &&& lines[2 + 2 * i] == plain(banner_of("ERROR collecting "@ + errors[i].0@, '_'))
            &&& lines[3 + 2 * i] == plain(errors[i].1@)
        },
        0 <= j < reports.len() && reports[j].outcome == Outcome::Failed && reports[j].phase
            != Phase::Call && (forall|k: int|
            0 <= k < errors.len() ==> (#[trigger] errors[k]).0@ != reports[j].nodeid@) ==> {
            let lines = error_section(errors, reports, false, show);
            let when = if reports[j].phase == Phase::Teardown {
                "teardown"@
            } else {
                "setup"@
            };
            &&& lines[1] == plain(banner_of("ERRORS"@, '='))
            &&& lines.contains(
                plain(banner_of("ERROR at "@ + when + " of "@ + domain_name(reports[j].nodeid@), '_')),
            )
            &&& reports[j].longrepr is Some ==> lines.contains(plain(rendered(reports[j], show)))
        },
{
    let n = reports.len() as int;
    let phase = phase_errors_upto(reports, n, errors, show);
    let of_errors = collect_error_lines(errors, errors.len() as int);
    let top = seq![plain(""@), plain(banner_of("ERRORS"@, '='))];
    collect_errors_follow(errors, errors.len() as int);
    if errors.len() == 0 && (forall|k: int|
        0 <= k < reports.len() ==> (#[trigger] reports[k]).outcome != Outcome::Failed
            || reports[k].phase == Phase::Call) {
        no_phase_errors(reports, n, errors, show);
    }
    if 0 <= i < errors.len() {
        let lines = error_section(errors, reports, false, show);
        assert(lines == top + of_errors + phase);
        assert(lines[2 + 2 * i] == of_errors[2 * i]);
        assert(lines[3 + 2 * i] == of_errors[2 * i + 1]);
    }
    if 0 <= j < reports.len() && reports[j].outcome == Outcome::Failed && reports[j].phase
        != Phase::Call && (forall|k: int|
        0 <= k < errors.len() ==> (#[trigger] errors[k]).0@ != reports[j].nodeid@) {
        let r = reports[j];
        let mine = phase_error_lines(r, show);
        assert(is_phase_error(r, errors));
        let head = mine[0];
        phase_error_is_there(reports, n, errors, show, j, head);
        contains_sum(top + of_errors, phase, head);
        if r.longrepr is Some {
            assert(mine[1] == plain(rendered(r, show)));
            phase_error_is_there(reports, n, errors, show, j, mine[1]);
            contains_sum(top + of_errors, phase, mine[1]);
        }
    }
}

proof fn collect_errors_follow(errors: Seq<(String, String)>, n: int)
    requires
        0 <= n <= errors.len(),
    ensures
        collect_error_lines(errors, n).len() == 2 * n,
        forall|i: int|
            0 <= i < n ==> collect_error_lines(errors, n)[2 * i] == plain(
                banner_of("ERROR collecting "@ + (#[trigger] errors[i]).0@, '_'),
            ) && collect_error_lines(errors, n)[2 * i + 1] == plain(errors[i].1@),
    decreases n,
{
    if n > 0 {
        collect_errors_follow(errors, n - 1);
    }
}

proof fn no_phase_errors(
    reports: Seq<TestReport>,
    n: int,
    errors: Seq<(String, String)>,
    show: Seq<char>,
)
    requires
        0 <= n <= reports.len(),
        forall|k: int|
            0 <= k < reports.len() ==> (#[trigger] reports[k]).outcome != Outcome::Failed
                || reports[k].phase == Phase::Call,
    ensures
        phase_errors_upto(reports, n, errors, show).len() == 0,
    decreases n,
{
    if n > 0 {
        no_phase_errors(reports, n - 1, errors, show);
        assert(!is_phase_error(reports[n - 1], errors));
    }
}

proof fn phase_error_is_there(
    reports: Seq<TestReport>,
    n: int,
    errors: Seq<(String, String)>,
    show: Seq<char>,
    j: int,
    x: LineView,
)
    requires
        0 <= j < n <= reports.len(),
        is_phase_error(reports[j], errors),
        phase_error_lines(reports[j], show).contains(x),
    ensures
        phase_errors_upto(reports, n, errors, show).contains(x),
    decreases n,
{
    let before = phase_errors_upto(reports, n - 1, errors, show);
    contains_sum(before, phase_error_lines(reports[n - 1], show), x);
    if j < n - 1 {
        phase_error_is_there(reports, n - 1, errors, show, j, x);
    }
}

/// A test goes by its name, with its classes before it and dots between them.
pub proof fn domains_are_made_of_names(file: Seq<char>, cls: Seq<char>, name: Seq<char>)
    requires
        !file.contains(':'),
        !cls.contains(':'),
        !name.contains(':'),
    ensures
        domain_name(file) == file,
        domain_name(file + "::"@ + name) == name,
        domain_name(file + "::"@ + (cls + "::"@ + name)) == cls + "."@ + name,
{
    reveal_strlit("::");
    let none = Seq::<Seq<char>>::empty();
    not_parted(file, "::"@);
    nodeids_come_apart(file, cls, name);
    assert(seq![file, name].skip(1) =~= none.push(name));
    joined_push(none, name, "."@);
    assert(seq![file, cls, name].skip(1) =~= none.push(cls).push(name));
    joined_push(none, cls, "."@);
    joined_push(none.push(cls), name, "."@);
}

/// What a session that only lists says at its end: how many tests there are, how
/// many of them were deselected, how many errors came up and how long it took. It
/// is red with errors, yellow without a test, else green.
pub proof fn listing_is_summed_up(selected: nat, deselected: nat, errors: nat, elapsed: Seq<char>)
    ensures
        collected_status(0, 0) == "no tests collected"@,
        deselected == 0 && selected == 1 ==> collected_status(selected, deselected) == decimal_of(1)
            + " test"@ + ""@ + " collected"@,
        deselected == 0 && selected > 1 ==> collected_status(selected, deselected) == decimal_of(
            selected,
        ) + " test"@ + "s"@ + " collected"@,
        deselected > 0 && selected == 0 ==> collected_status(selected, deselected)
            == "no tests collected ("@ + decimal_of(deselected) + " deselected)"@,
        deselected > 0 && selected > 0 ==> collected_status(selected, deselected) == decimal_of(
            selected,
        ) + "/"@ + decimal_of(selected + deselected) + " tests collected ("@ + decimal_of(
            deselected,
        ) + " deselected)"@,
        errors == 0 ==> collected_text(selected, deselected, errors, elapsed) == collected_status(
            selected,
            deselected,
        ) + " in "@ + elapsed + "s"@,
        errors > 0 ==> collected_text(selected, deselected, errors, elapsed) == collected_status(
            selected,
            deselected,
        ) + ", "@ + decimal_of(errors) + " error"@ + plural_of(errors) + " in "@ + elapsed + "s"@,
        errors > 0 ==> collected_style(selected, errors) == Style::Red,
        errors == 0 && selected == 0 ==> collected_style(selected, errors) == Style::Yellow,
        errors == 0 && selected > 0 ==> collected_style(selected, errors) == Style::Green,
{
}

/// The summary of warnings: nothing where it is hidden or there is none; else a
/// banner, the warnings of this process, those of the workers, and where to read on.
pub proof fn warnings_are_summed_up(
    lines: Seq<Seq<char>>,
    workers: Seq<Seq<char>>,
    in_process: nat,
    from_workers: nat,
    last: bool,
    i: int,
    j: int,
)
    requires
        0 <= i < lines.len(),
        0 <= j < workers.len(),
    ensures
        warning_lines(lines, workers, in_process, from_workers, true, last).len() == 0,
        warning_lines(lines, workers, 0, 0, false, false).len() == 0,
        in_process + from_workers > 0 ==> {
            let all = warning_lines(lines, workers, in_process, from_workers, false, false);
            &&& all.len() == lines.len() + workers.len() + 2
            &&& all[0] == plain(banner_of("warnings summary"@, '='))
            &&& all[1 + i] == plain(lines[i])
            &&& all[1 + lines.len() + j] == plain(workers[j])
            &&& all.last() == plain(
                "-- Docs: https://docs.pytest.org/en/stable/how-to/capture-warnings.html"@,
            )
        },
        ({
            let all = warning_lines(lines, workers, in_process, from_workers, false, true);
            &&& all.len() == lines.len() + 2
            &&& all[0] == plain(banner_of("warnings summary (final)"@, '='))
            &&& all[1 + i] == plain(lines[i])
            &&& all.last() == plain(
                "-- Docs: https://docs.pytest.org/en/stable/how-to/capture-warnings.html"@,
            )
        }),
{
}

/// The markers that are registered are listed one by one, empty lines aside, and
/// after them the eight that are built in.
pub proof fn markers_are_listed(lines: Seq<Seq<char>>, n: int)
    requires
        0 < n <= lines.len(),
    ensures
        registered_marker_lines(lines, 0).len() == 0,
        trimmed(lines[n - 1]).len() > 0 ==> registered_marker_lines(lines, n)
            == registered_marker_lines(lines, n - 1).push(
            plain("@pytest.mark."@ + trimmed(lines[n - 1]) + "\n"@),
        ),
        trimmed(lines[n - 1]).len() == 0 ==> registered_marker_lines(lines, n)
            == registered_marker_lines(lines, n - 1),
        marker_listing_lines(lines).len() == registered_marker_lines(
            lines,
            lines.len() as int,
        ).len() + 8,
        forall|i: int|
            0 <= i < registered_marker_lines(lines, lines.len() as int).len()
                ==> #[trigger] marker_listing_lines(lines)[i] == registered_marker_lines(
                lines,
                lines.len() as int,
            )[i],
{
}

/// Text of hooks is shown line by line, one block after the other.
pub proof fn blocks_follow_each_other(blocks: Seq<Seq<char>>, last: Seq<char>)
    ensures
        blocks_of(Seq::empty()).len() == 0,
        blocks_of(blocks.push(last)) == blocks_of(blocks) + split_by(last, "\n"@),
{
    assert(blocks.push(last).drop_last() =~= blocks);
}

/// `--trace-config` ends the header with the version and the plugins; configuration
/// files that are not used are warned of behind the one that is.
pub proof fn header_traces_the_configuration(h: HeaderInfo, name: Seq<char>)
    requires
        !h.quiet && !h.no_terminal && !h.no_header,
    ensures
        h.traceconfig ==> header_lines(h).last() == plain(
            "    pytest-rs               : pytest-rs-"@ + h.own_version@,
        ),
        !h.traceconfig ==> trace_lines(h).len() == 0,
        h.traceconfig ==> trace_lines(h)[0] == plain(
            "using: pytest-9.0.3 (pytest-rs-"@ + h.own_version@ + ", embedded)"@,
        ),
        h.config_file is None ==> config_lines(h).len() == 0,
        h.config_file is Some && h.ignored_config_files@.len() > 0 ==> config_lines(h) == seq![
            plain(
                "configfile: "@ + h.config_file->0@ + (" (WARNING: ignoring pytest config in "@
                    + joined(texts(h.ignored_config_files@), ", "@) + "!)"@),
            ),
        ],
        h.has_paths || h.testpaths is None ==> testpaths_lines(h).len() == 0,
{
}

} // verus!
