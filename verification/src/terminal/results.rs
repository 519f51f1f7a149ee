//! The FAILURES, PASSES, XFAILURES and XPASSES sections.

use vstd::prelude::*;

use crate::banner::{banner_of, center_banner, center_named, ruled, section_rule, spaced};
use crate::lists::{contains_split, contains_sum};
use crate::report::{text_or_empty, Outcome, Phase, Section, TestReport};
use crate::terminal::line::{emit, no_lines, plain, shown, Line, LineView, Style};
use crate::text::{
    chars_of, contains, decimal, decimal_of, first_at_char, halves, head, head_of, join, joined,
    joined_push, not_parted, occurs, parted_at_first,
    right_stripped, same, split, split_by, split_once, starts_with, strip_end, strip_prefix,
};

verus! {

/// The options that shape the report.
pub struct ReportOptions {
    /// `--tb`.
    pub tb: Option<String>,
    /// `--show-capture`.
    pub show_capture: Option<String>,
    /// `-r`.
    pub report_chars: Option<String>,
    /// `--xfail-tb`.
    pub xfail_tb: bool,
}

/// Where the reports of a distributed run came from.
pub struct WorkerInfo {
    /// The worker of each nodeid.
    pub workers: Vec<(String, usize)>,
    /// What is said of every worker's platform.
    pub platinfo: Option<String>,
}

/// The sections of the report on single tests.
#[derive(Debug, Clone, Copy, PartialEq, Eq, Structural)]
pub enum Part {
    Failures,
    Passes,
    XFailures,
    XPasses,
}

/// Which sections of captured output are shown.
#[derive(Debug, Clone, Copy, PartialEq, Eq, Structural)]
pub enum Filter {
    All,
    /// "Captured ..." sections as `--show-capture` says, and all others.
    Capture,
    /// Sections of the teardown, as `--show-capture` says.
    Teardown,
}

// ---------------------------------------------------------------------------
// Model
// ---------------------------------------------------------------------------

/// Whether a section is shown.
pub open spec fn keeps(filter: Filter, show: Seq<char>, title: Seq<char>) -> bool {
    match filter {
        Filter::All => true,
        Filter::Capture => "Captured "@.is_prefix_of(title) ==> {
            &&& show != "no"@
            &&& show == "all"@ || show.is_prefix_of(title.skip("Captured "@.len() as int))
        },
        Filter::Teardown => {
            &&& occurs(title, "teardown"@)
            &&& show == "all"@ || occurs(title, show)
        },
    }
}

/// The sections of a report as lines: a rule with the title, then the text.
pub open spec fn section_lines(
    sections: Seq<Section>,
    n: int,
    filter: Filter,
    show: Seq<char>,
) -> Seq<LineView>
    decreases n,
{
    if n <= 0 {
        seq![]
    } else {
        let before = section_lines(sections, n - 1, filter, show);
        let s = sections[n - 1];
        if keeps(filter, show, s.title@) {
            before.push(plain(ruled(spaced(s.title@)))).push(
                plain(right_stripped(s.text@, '\n')),
            )
        } else {
            before
        }
    }
}

/// The sections that follow a traceback.
pub open spec fn trailing_sections(sections: Seq<Section>, n: int, show: Seq<char>) -> Seq<char>
    decreases n,
{
    if n <= 0 {
        seq![]
    } else {
        let before = trailing_sections(sections, n - 1, show);
        let s = sections[n - 1];
        if keeps(Filter::Capture, show, s.title@) {
            before + ("\n"@ + ruled(spaced(s.title@)) + "\n"@ + right_stripped(s.text@, '\n'))
        } else {
            before
        }
    }
}

/// A failing report's text: the traceback and the captured output.
pub open spec fn rendered(report: TestReport, show: Seq<char>) -> Seq<char> {
    text_or_empty(report.longrepr) + trailing_sections(
        report.sections@,
        report.sections@.len() as int,
        show,
    )
}

/// The heading of a test: the class and the method joined by dots; doctests,
/// which have a dot in their name, say so. A parameter id is not part of the
/// name.
pub open spec fn title_of(nodeid: Seq<char>) -> Seq<char> {
    match halves(nodeid, "::"@) {
        None => "[doctest] "@ + nodeid,
        Some((_, after)) => if occurs(head_of(after, "["@), "."@) && !occurs(after, "::"@) {
            "[doctest] "@ + after
        } else {
            joined(split_by(after, "::"@), "."@)
        },
    }
}

/// The heading of a failure: the item's own, else the one of its nodeid, with
/// the description of the subtest.
pub open spec fn heading(report: TestReport) -> Seq<char> {
    let name = match report.head_line {
        Some(line) => line@,
        None => title_of(report.nodeid@),
    };
    match report.subtest_desc {
        Some(desc) => name + " "@ + desc@,
        None => name,
    }
}

/// `--show-capture`, by default "all".
pub open spec fn capture_choice(options: ReportOptions) -> Seq<char> {
    match options.show_capture {
        Some(s) => s@,
        None => "all"@,
    }
}

/// The captured output of the teardown of a test.
pub open spec fn teardown_lines(
    reports: Seq<TestReport>,
    n: int,
    nodeid: Seq<char>,
    show: Seq<char>,
) -> Seq<LineView>
    decreases n,
{
    if n <= 0 || show == "no"@ {
        seq![]
    } else {
        let before = teardown_lines(reports, n - 1, nodeid, show);
        let r = reports[n - 1];
        if r.phase == Phase::Teardown && r.nodeid@ == nodeid {
            before + section_lines(r.sections@, r.sections@.len() as int, Filter::Teardown, show)
        } else {
            before
        }
    }
}

/// The worker that ran a test.
pub open spec fn worker_of(workers: Seq<(String, usize)>, nodeid: Seq<char>) -> Option<usize>
    decreases workers.len(),
{
    if workers.len() == 0 {
        None
    } else if workers[0].0@ == nodeid {
        Some(workers[0].1)
    } else {
        worker_of(workers.skip(1), nodeid)
    }
}

/// The line that names the worker of a failure.
pub open spec fn worker_lines(info: WorkerInfo, nodeid: Seq<char>) -> Seq<LineView> {
    match (worker_of(info.workers@, nodeid), info.platinfo) {
        (Some(w), Some(suffix)) => seq![
            plain("[gw"@ + decimal_of(w as nat) + "] "@ + suffix@),
        ],
        _ => seq![],
    }
}

/// `--tb` has this value.
pub open spec fn tb_is(options: ReportOptions, style: Seq<char>) -> bool {
    options.tb matches Some(tb) && tb@ == style
}

/// Whether a report belongs in a section.
pub open spec fn belongs(part: Part, r: TestReport) -> bool {
    r.phase == Phase::Call && match part {
        Part::Failures => r.outcome == Outcome::Failed,
        Part::Passes => r.outcome == Outcome::Passed && r.subtest_desc is None,
        Part::XFailures => r.outcome == Outcome::XFailed && r.xfail_longrepr is Some,
        Part::XPasses => r.outcome == Outcome::XPassed,
    }
}

/// The name of a section.
pub open spec fn part_title(part: Part) -> Seq<char> {
    match part {
        Part::Failures => "FAILURES"@,
        Part::Passes => "PASSES"@,
        Part::XFailures => "XFAILURES"@,
        Part::XPasses => "XPASSES"@,
    }
}

/// Whether the options suppress a section.
pub open spec fn part_hidden(part: Part, options: ReportOptions) -> bool {
    match part {
        Part::Failures => tb_is(options, "no"@),
        Part::Passes => !flags_of(options).contains('P'),
        Part::XFailures => !options.xfail_tb || tb_is(options, "no"@),
        Part::XPasses => !flags_of(options).contains('X') || tb_is(options, "no"@),
    }
}

/// What a section shows of one report.
pub open spec fn part_block(
    part: Part,
    reports: Seq<TestReport>,
    r: TestReport,
    options: ReportOptions,
    info: WorkerInfo,
) -> Seq<LineView> {
    let show = capture_choice(options);
    let sections = r.sections@;
    let tear = teardown_lines(reports, reports.len() as int, r.nodeid@, show);
    match part {
        Part::Failures => {
            let head = seq![
                LineView { text: banner_of(heading(r), '_'), style: Style::RedBold },
            ] + worker_lines(info, r.nodeid@);
            if r.longrepr is Some {
                head.push(plain(rendered(r, show))) + tear
            } else {
                head + tear
            }
        },
        Part::Passes => seq![plain(banner_of(title_of(r.nodeid@), '_'))] + section_lines(
            sections,
            sections.len() as int,
            Filter::All,
            show,
        ) + tear,
        Part::XFailures => {
            let tb = plain(text_or_empty(r.xfail_longrepr));
            if tb_is(options, "line"@) {
                seq![tb]
            } else {
                seq![
                    LineView { text: banner_of(title_of(r.nodeid@), '_'), style: Style::RedBold },
                ].push(tb) + section_lines(sections, sections.len() as int, Filter::Capture, show)
                    + tear
            }
        },
        Part::XPasses => if sections.len() == 0 {
            seq![]
        } else {
            seq![
                LineView { text: banner_of(title_of(r.nodeid@), '_'), style: Style::GreenBold },
            ] + section_lines(sections, sections.len() as int, Filter::All, show) + tear
        },
    }
}

/// What a section shows of the first `n` reports.
pub open spec fn part_blocks(
    part: Part,
    reports: Seq<TestReport>,
    n: int,
    options: ReportOptions,
    info: WorkerInfo,
) -> Seq<LineView>
    decreases n,
{
    if n <= 0 {
        seq![]
    } else {
        let before = part_blocks(part, reports, n - 1, options, info);
        if belongs(part, reports[n - 1]) {
            before + part_block(part, reports, reports[n - 1], options, info)
        } else {
            before
        }
    }
}

/// One of the first `n` reports belongs in the section.
pub open spec fn any_belongs(part: Part, reports: Seq<TestReport>, n: int) -> bool {
    exists|i: int| 0 <= i < n && belongs(part, #[trigger] reports[i])
}

/// A section: its banner and its blocks, or nothing when it is suppressed or
/// has nothing to show.
pub open spec fn part_lines(
    part: Part,
    reports: Seq<TestReport>,
    options: ReportOptions,
    info: WorkerInfo,
) -> Seq<LineView> {
    if part_hidden(part, options) || !any_belongs(part, reports, reports.len() as int) {
        seq![]
    } else {
        seq![plain(banner_of(part_title(part), '='))] + part_blocks(
            part,
            reports,
            reports.len() as int,
            options,
            info,
        )
    }
}

/// `chars` with `c` at the end, unless it is there already.
pub open spec fn with_char(chars: Seq<char>, c: char) -> Seq<char> {
    if chars.contains(c) {
        chars
    } else {
        chars.push(c)
    }
}

/// The report characters after one more `-r` character.
pub open spec fn flag_step(chars: Seq<char>, c: char) -> Seq<char> {
    if c == 'a' {
        "sxXEf"@
    } else if c == 'A' {
        "PpsxXEf"@
    } else if c == 'N' {
        seq![]
    } else if c == 'F' {
        with_char(chars, 'f')
    } else if c == 'S' {
        with_char(chars, 's')
    } else {
        with_char(chars, c)
    }
}

/// The report characters that an `-r` argument stands for.
pub open spec fn expanded_flags(given: Seq<char>) -> Seq<char>
    decreases given.len(),
{
    if given.len() == 0 {
        seq![]
    } else {
        flag_step(expanded_flags(given.drop_last()), given.last())
    }
}

/// The report characters of a session; failures and errors by default.
pub open spec fn flags_of(options: ReportOptions) -> Seq<char> {
    match options.report_chars {
        Some(given) => expanded_flags(given@),
        None => expanded_flags("fE"@),
    }
}

// ---------------------------------------------------------------------------
// Executable functions
// ---------------------------------------------------------------------------

/// Whether a section is shown.
fn keep_section(filter: Filter, show: &str, title: &str) -> (r: bool)
    ensures
        r == keeps(filter, show@, title@),
{
    match filter {
        Filter::All => true,
        Filter::Capture => match strip_prefix(title, "Captured ") {
            Some(stream) => !same(show, "no") && (same(show, "all") || starts_with(
                stream.as_str(),
                show,
            )),
            None => true,
        },
        Filter::Teardown => contains(title, "teardown") && (same(show, "all") || contains(
            title,
            show,
        )),
    }
}

/// Appends the sections that are shown.
fn emit_sections(out: &mut Vec<Line>, sections: &Vec<Section>, filter: Filter, show: &str)
    ensures
        shown(final(out)@) == shown(old(out)@) + section_lines(
            sections@,
            sections@.len() as int,
            filter,
            show@,
        ),
{
    let ghost start = shown(out@);
    let mut i: usize = 0;
    assert(start + section_lines(sections@, 0, filter, show@) =~= start);
    while i < sections.len()
        invariant
            i <= sections@.len(),
            shown(out@) == start + section_lines(sections@, i as int, filter, show@),
        decreases sections@.len() - i,
    {
        let s = &sections[i];
        if keep_section(filter, show, s.title.as_str()) {
            emit(out, section_rule(s.title.as_str()), Style::Plain);
            emit(out, strip_end(s.text.as_str(), '\n'), Style::Plain);
        }
        assert(shown(out@) =~= start + section_lines(sections@, i + 1, filter, show@));
        i += 1;
    }
}

/// A failing report's terminal text: the traceback followed by its captured
/// output. `--show-capture` filters the "Captured ..." sections; others are
/// always shown.
pub fn render_longrepr(report: &TestReport, show_capture: &str) -> (r: String)
    ensures
        r@ == rendered(*report, show_capture@),
{
    let mut text: String = match &report.longrepr {
        Some(s) => s.clone(),
        None => String::new(),
    };
    let ghost start = text@;
    let mut i: usize = 0;
    assert(start + trailing_sections(report.sections@, 0, show_capture@) =~= start);
    while i < report.sections.len()
        invariant
            i <= report.sections@.len(),
            text@ == start + trailing_sections(report.sections@, i as int, show_capture@),
        decreases report.sections@.len() - i,
    {
        let s = &report.sections[i];
        if keep_section(Filter::Capture, show_capture, s.title.as_str()) {
            let mut block: String = "\n".to_owned();
            block.append(section_rule(s.title.as_str()).as_str());
            block.append("\n");
            block.append(strip_end(s.text.as_str(), '\n').as_str());
            text.append(block.as_str());
        }
        assert(text@ =~= start + trailing_sections(report.sections@, i + 1, show_capture@));
        i += 1;
    }
    text
}

/// The display title for a failure section heading.
pub fn failure_title(nodeid: &str) -> (r: String)
    ensures
        r@ == title_of(nodeid@),
{
    let mut r: String = "[doctest] ".to_owned();
    match split_once(nodeid, "::") {
        None => {
            r.append(nodeid);
            r
        },
        Some((_, after)) => if contains(head(after.as_str(), "[").as_str(), ".") && !contains(
            after.as_str(),
            "::",
        ) {
            r.append(after.as_str());
            r
        } else {
            proof {
                reveal_strlit("::");
            }
            join(split(after.as_str(), "::").as_slice(), ".")
        },
    }
}

/// The heading of a failure.
fn failure_heading(report: &TestReport) -> (r: String)
    ensures
        r@ == heading(*report),
{
    let mut name: String = match &report.head_line {
        Some(line) => line.clone(),
        None => failure_title(report.nodeid.as_str()),
    };
    match &report.subtest_desc {
        Some(desc) => {
            name.append(" ");
            name.append(desc.as_str());
        },
        None => {},
    }
    name
}

/// `--show-capture`, by default "all".
fn show_capture_of(options: &ReportOptions) -> (r: String)
    ensures
        r@ == capture_choice(*options),
{
    match &options.show_capture {
        Some(s) => s.clone(),
        None => "all".to_owned(),
    }
}

/// The captured output of the teardown of a test, which the report on its
/// teardown holds.
pub fn teardown_sections(reports: &[TestReport], nodeid: &str, show_capture: &str) -> (r: Vec<Line>)
    ensures
        shown(r@) == teardown_lines(reports@, reports@.len() as int, nodeid@, show_capture@),
{
    let mut out = no_lines();
    if same(show_capture, "no") {
        return out;
    }
    let mut i: usize = 0;
    while i < reports.len()
        invariant
            i <= reports@.len(),
            show_capture@ != "no"@,
            shown(out@) == teardown_lines(reports@, i as int, nodeid@, show_capture@),
        decreases reports@.len() - i,
    {
        let r = &reports[i];
        if r.phase == Phase::Teardown && same(r.nodeid.as_str(), nodeid) {
            emit_sections(&mut out, &r.sections, Filter::Teardown, show_capture);
        }
        i += 1;
    }
    out
}

/// Appends the captured output of the teardown of a test.
fn emit_teardown(out: &mut Vec<Line>, reports: &[TestReport], nodeid: &str, show: &str)
    ensures
        shown(final(out)@) == shown(old(out)@) + teardown_lines(
            reports@,
            reports@.len() as int,
            nodeid@,
            show@,
        ),
{
    let more = teardown_sections(reports, nodeid, show);
    crate::terminal::line::emit_all(out, more);
}

/// The worker that ran a test.
fn find_worker(workers: &Vec<(String, usize)>, nodeid: &str) -> (r: Option<usize>)
    ensures
        r == worker_of(workers@, nodeid@),
{
    let mut i: usize = 0;
    assert(workers@.skip(0) =~= workers@);
    while i < workers.len()
        invariant
            i <= workers@.len(),
            worker_of(workers@, nodeid@) == worker_of(workers@.skip(i as int), nodeid@),
        decreases workers@.len() - i,
    {
        assert(workers@.skip(i as int).skip(1) =~= workers@.skip(i + 1));
        if same(workers[i].0.as_str(), nodeid) {
            return Some(workers[i].1);
        }
        i += 1;
    }
    None
}

/// Appends the line that names the worker of a failure.
fn emit_worker(out: &mut Vec<Line>, info: &WorkerInfo, nodeid: &str)
    ensures
        shown(final(out)@) == shown(old(out)@) + worker_lines(*info, nodeid@),
{
    let ghost start = shown(out@);
    match (find_worker(&info.workers, nodeid), &info.platinfo) {
        (Some(w), Some(suffix)) => {
            let mut text: String = "[gw".to_owned();
            text.append(decimal(w).as_str());
            text.append("] ");
            text.append(suffix.as_str());
            emit(out, text, Style::Plain);
        },
        _ => {},
    }
    assert(shown(out@) =~= start + worker_lines(*info, nodeid@));
}

/// Whether `--tb` has this value.
fn tb_equals(options: &ReportOptions, style: &str) -> (r: bool)
    ensures
        r == tb_is(*options, style@),
{
    match &options.tb {
        Some(tb) => same(tb.as_str(), style),
        None => false,
    }
}

/// Whether a report belongs in a section.
fn is_in_part(part: Part, r: &TestReport) -> (b: bool)
    ensures
        b == belongs(part, *r),
{
    r.phase == Phase::Call && match part {
        Part::Failures => r.outcome == Outcome::Failed,
        Part::Passes => r.outcome == Outcome::Passed && r.subtest_desc.is_none(),
        Part::XFailures => r.outcome == Outcome::XFailed && r.xfail_longrepr.is_some(),
        Part::XPasses => r.outcome == Outcome::XPassed,
    }
}

/// Whether `chars` holds `c`.
fn has_char(chars: &Vec<char>, c: char) -> (r: bool)
    ensures
        r == chars@.contains(c),
{
    let mut i: usize = 0;
    while i < chars.len()
        invariant
            i <= chars@.len(),
            forall|j: int| 0 <= j < i ==> chars@[j] != c,
        decreases chars@.len() - i,
    {
        if chars[i] == c {
            return true;
        }
        i += 1;
    }
    false
}

/// The `-r` characters with aliases expanded, in the order they were given
/// (`a` is `sxXEf`, `A` is `PpsxXEf`, `N` starts over, `F` and `S` are old
/// aliases); `fE` by default.
pub fn report_chars(options: &ReportOptions) -> (r: Vec<char>)
    ensures
        r@ == flags_of(*options),
{
    let given = match &options.report_chars {
        Some(s) => chars_of(s.as_str()),
        None => chars_of("fE"),
    };
    let mut chars: Vec<char> = Vec::new();
    let mut i: usize = 0;
    while i < given.len()
        invariant
            i <= given@.len(),
            chars@ == expanded_flags(given@.take(i as int)),
        decreases given@.len() - i,
    {
        assert(given@.take(i + 1).drop_last() =~= given@.take(i as int));
        let c: char = given[i];
        if c == 'a' {
            chars = chars_of("sxXEf");
        } else if c == 'A' {
            chars = chars_of("PpsxXEf");
        } else if c == 'N' {
            chars.clear();
        } else {
            let lower: char = if c == 'F' {
                'f'
            } else if c == 'S' {
                's'
            } else {
                c
            };
            if !has_char(&chars, lower) {
                chars.push(lower);
            }
        }
        i += 1;
    }
    assert(given@.take(i as int) =~= given@);
    chars
}

/// Whether the options suppress a section.
fn is_hidden(part: Part, options: &ReportOptions) -> (r: bool)
    ensures
        r == part_hidden(part, *options),
{
    match part {
        Part::Failures => tb_equals(options, "no"),
        Part::Passes => !has_char(&report_chars(options), 'P'),
        Part::XFailures => !options.xfail_tb || tb_equals(options, "no"),
        Part::XPasses => !has_char(&report_chars(options), 'X') || tb_equals(options, "no"),
    }
}

/// Appends what a section shows of one report.
fn emit_block(
    out: &mut Vec<Line>,
    part: Part,
    reports: &[TestReport],
    r: &TestReport,
    options: &ReportOptions,
    info: &WorkerInfo,
)
    ensures
        shown(final(out)@) == shown(old(out)@) + part_block(part, reports@, *r, *options, *info),
{
    let ghost start = shown(out@);
    let show = show_capture_of(options);
    match part {
        Part::Failures => {
            let name = failure_heading(r);
            emit(out, center_named(name.as_str()), Style::RedBold);
            emit_worker(out, info, r.nodeid.as_str());
            if r.longrepr.is_some() {
                emit(out, render_longrepr(r, show.as_str()), Style::Plain);
            }
            emit_teardown(out, reports, r.nodeid.as_str(), show.as_str());
        },
        Part::Passes => {
            let name = failure_title(r.nodeid.as_str());
            emit(out, center_named(name.as_str()), Style::Plain);
            emit_sections(out, &r.sections, Filter::All, show.as_str());
            emit_teardown(out, reports, r.nodeid.as_str(), show.as_str());
        },
        Part::XFailures => {
            let tb: String = match &r.xfail_longrepr {
                Some(s) => s.clone(),
                None => String::new(),
            };
            if tb_equals(options, "line") {
                emit(out, tb, Style::Plain);
            } else {
                let name = failure_title(r.nodeid.as_str());
                emit(out, center_named(name.as_str()), Style::RedBold);
                emit(out, tb, Style::Plain);
                emit_sections(out, &r.sections, Filter::Capture, show.as_str());
                emit_teardown(out, reports, r.nodeid.as_str(), show.as_str());
            }
        },
        Part::XPasses => {
            if r.sections.len() > 0 {
                let name = failure_title(r.nodeid.as_str());
                emit(out, center_named(name.as_str()), Style::GreenBold);
                emit_sections(out, &r.sections, Filter::All, show.as_str());
                emit_teardown(out, reports, r.nodeid.as_str(), show.as_str());
            }
        },
    }
    assert(shown(out@) =~= start + part_block(part, reports@, *r, *options, *info));
}

/// One section of the report on single tests.
pub fn part_section(
    part: Part,
    reports: &[TestReport],
    options: &ReportOptions,
    info: &WorkerInfo,
) -> (r: Vec<Line>)
    ensures
        shown(r@) == part_lines(part, reports@, *options, *info),
{
    let mut out = no_lines();
    if is_hidden(part, options) {
        return out;
    }
    let mut i: usize = 0;
    let mut any = false;
    while i < reports.len()
        invariant
            i <= reports@.len(),
            any == any_belongs(part, reports@, i as int),
            !any ==> shown(out@).len() == 0 && part_blocks(
                part,
                reports@,
                i as int,
                *options,
                *info,
            ).len() == 0,
            any ==> shown(out@) == seq![plain(banner_of(part_title(part), '='))] + part_blocks(
                part,
                reports@,
                i as int,
                *options,
                *info,
            ),
        decreases reports@.len() - i,
    {
        let ghost so_far = part_blocks(part, reports@, i as int, *options, *info);
        if is_in_part(part, &reports[i]) {
            assert(belongs(part, reports@[i as int]));
            if !any {
                let title: &str = match part {
                    Part::Failures => "FAILURES",
                    Part::Passes => "PASSES",
                    Part::XFailures => "XFAILURES",
                    Part::XPasses => "XPASSES",
                };
                emit(&mut out, center_banner(title), Style::Plain);
                assert(shown(out@) =~= seq![plain(banner_of(part_title(part), '='))] + so_far);
                any = true;
            }
            emit_block(&mut out, part, reports, &reports[i], options, info);
            assert(shown(out@) =~= seq![plain(banner_of(part_title(part), '='))] + part_blocks(
                part,
                reports@,
                i + 1,
                *options,
                *info,
            ));
        } else {
            assert(any_belongs(part, reports@, i + 1) ==> any_belongs(part, reports@, i as int));
        }
        i += 1;
    }
    assert(!any ==> shown(out@) =~= seq![]);
    out
}

/// The FAILURES section; `--tb=no` suppresses it.
pub fn failures_section(
    reports: &[TestReport],
    options: &ReportOptions,
    info: &WorkerInfo,
) -> (r: Vec<Line>)
    ensures
        shown(r@) == part_lines(Part::Failures, reports@, *options, *info),
{
    part_section(Part::Failures, reports, options, info)
}

/// `-rP` / `-rA`: the PASSES section, passed tests' captured output.
pub fn passes_section(
    reports: &[TestReport],
    options: &ReportOptions,
    info: &WorkerInfo,
) -> (r: Vec<Line>)
    ensures
        shown(r@) == part_lines(Part::Passes, reports@, *options, *info),
{
    part_section(Part::Passes, reports, options, info)
}

/// `--xfail-tb`: the XFAILURES section, the tracebacks of xfailed tests.
pub fn xfailures_section(
    reports: &[TestReport],
    options: &ReportOptions,
    info: &WorkerInfo,
) -> (r: Vec<Line>)
    ensures
        shown(r@) == part_lines(Part::XFailures, reports@, *options, *info),
{
    part_section(Part::XFailures, reports, options, info)
}

/// `-rX`: the XPASSES section, xpassed tests' captured output.
pub fn xpasses_section(
    reports: &[TestReport],
    options: &ReportOptions,
    info: &WorkerInfo,
) -> (r: Vec<Line>)
    ensures
        shown(r@) == part_lines(Part::XPasses, reports@, *options, *info),
{
    part_section(Part::XPasses, reports, options, info)
}

/// The line that announces the XML file, unless the terminal is quiet.
pub fn junit_line(path: &str, no_terminal: bool, quiet: bool) -> (r: Vec<Line>)
    ensures
        shown(r@) == (if no_terminal || quiet {
            Seq::<LineView>::empty()
        } else {
            seq![plain(banner_of("generated xml file: "@ + path@, '-'))]
        }),
{
    let mut out = no_lines();
    if !no_terminal && !quiet {
        let mut label: String = "generated xml file: ".to_owned();
        label.append(path);
        emit(&mut out, crate::banner::center_with(label.as_str(), '-'), Style::Plain);
        assert(shown(out@) =~= seq![plain(banner_of("generated xml file: "@ + path@, '-'))]);
    }
    out
}

// ---------------------------------------------------------------------------
// Laws
// ---------------------------------------------------------------------------

/// No report character comes twice, whatever was given with `-r`.
pub proof fn flags_are_distinct(given: Seq<char>)
    ensures
        expanded_flags(given).no_duplicates(),
    decreases given.len(),
{
    if given.len() > 0 {
        flags_are_distinct(given.drop_last());
        reveal_strlit("sxXEf");
        reveal_strlit("PpsxXEf");
    }
}

/// `--tb=no` leaves no tracebacks: the FAILURES, XFAILURES and XPASSES
/// sections are all suppressed.
pub proof fn tb_no_suppresses(
    reports: Seq<TestReport>,
    options: ReportOptions,
    info: WorkerInfo,
)
    requires
        tb_is(options, "no"@),
    ensures
        part_lines(Part::Failures, reports, options, info).len() == 0,
        part_lines(Part::XFailures, reports, options, info).len() == 0,
        part_lines(Part::XPasses, reports, options, info).len() == 0,
{
}

proof fn block_is_there(
    part: Part,
    reports: Seq<TestReport>,
    n: int,
    options: ReportOptions,
    info: WorkerInfo,
    i: int,
    x: LineView,
)
    requires
        0 <= i < n <= reports.len(),
        belongs(part, reports[i]),
        part_block(part, reports, reports[i], options, info).contains(x),
    ensures
        part_blocks(part, reports, n, options, info).contains(x),
    decreases n,
{
    let before = part_blocks(part, reports, n - 1, options, info);
    let last = part_block(part, reports, reports[n - 1], options, info);
    contains_sum(before, last, x);
    if i < n - 1 {
        block_is_there(part, reports, n - 1, options, info, i, x);
    }
}

/// Each test that failed has its traceback, below a banner with its heading, in a
/// section of failures, unless tracebacks are switched off; the section stands
/// below its title.
pub proof fn failures_are_shown(
    reports: Seq<TestReport>,
    options: ReportOptions,
    info: WorkerInfo,
    i: int,
)
    requires
        0 <= i < reports.len(),
        reports[i].phase == Phase::Call,
        reports[i].outcome == Outcome::Failed,
        options.tb is None || options.tb->0@ != "no"@,
    ensures
        ({
            let lines = part_lines(Part::Failures, reports, options, info);
            let show = if options.show_capture is Some {
                options.show_capture->0@
            } else {
                "all"@
            };
            &&& lines.len() > 0 && lines[0] == plain(banner_of("FAILURES"@, '='))
            &&& lines.contains(
                (LineView { text: banner_of(heading(reports[i]), '_'), style: Style::RedBold }),
            )
            &&& reports[i].longrepr is Some ==> lines.contains(plain(rendered(reports[i], show)))
        }),
{
    let r = reports[i];
    let n = reports.len() as int;
    let show = capture_choice(options);
    let top = LineView { text: banner_of(heading(r), '_'), style: Style::RedBold };
    let tb = plain(rendered(r, show));
    let tear = teardown_lines(reports, n, r.nodeid@, show);
    let head = seq![top] + worker_lines(info, r.nodeid@);
    let title = seq![plain(banner_of("FAILURES"@, '='))];
    let blocks = part_blocks(Part::Failures, reports, n, options, info);
    let block = part_block(Part::Failures, reports, r, options, info);
    assert(belongs(Part::Failures, r));
    assert(block[0] == top);
    block_is_there(Part::Failures, reports, n, options, info, i, top);
    contains_sum(title, blocks, top);
    if r.longrepr is Some {
        assert(block[head.len() as int] == tb);
        block_is_there(Part::Failures, reports, n, options, info, i, tb);
        contains_sum(title, blocks, tb);
    }
}

/// Each test that passed has its output, below a banner with its title, in a
/// section of passes, where that is asked for by `P`; a subtest has none.
pub proof fn passes_are_shown(
    reports: Seq<TestReport>,
    options: ReportOptions,
    info: WorkerInfo,
    i: int,
)
    requires
        0 <= i < reports.len(),
        reports[i].phase == Phase::Call,
        reports[i].outcome == Outcome::Passed,
        reports[i].subtest_desc is None,
        flags_of(options).contains('P'),
    ensures
        ({
            let lines = part_lines(Part::Passes, reports, options, info);
            &&& lines.len() > 0 && lines[0] == plain(banner_of("PASSES"@, '='))
            &&& lines.contains(plain(banner_of(title_of(reports[i].nodeid@), '_')))
        }),
{
    let r = reports[i];
    let n = reports.len() as int;
    let top = plain(banner_of(title_of(r.nodeid@), '_'));
    let blocks = part_blocks(Part::Passes, reports, n, options, info);
    let block = part_block(Part::Passes, reports, r, options, info);
    assert(belongs(Part::Passes, r));
    assert(block[0] == top);
    block_is_there(Part::Passes, reports, n, options, info, i, top);
    contains_sum(seq![plain(banner_of("PASSES"@, '='))], blocks, top);
}

/// Each expected failure has its traceback in a section of its own, where that is
/// asked for and tracebacks are not switched off; a banner stands above it, but not
/// where each takes one line.
pub proof fn expected_failures_are_shown(
    reports: Seq<TestReport>,
    options: ReportOptions,
    info: WorkerInfo,
    i: int,
)
    requires
        0 <= i < reports.len(),
        reports[i].phase == Phase::Call,
        reports[i].outcome == Outcome::XFailed,
        reports[i].xfail_longrepr is Some,
        options.xfail_tb,
        options.tb is None || options.tb->0@ != "no"@,
    ensures
        ({
            let lines = part_lines(Part::XFailures, reports, options, info);
            &&& lines.len() > 0 && lines[0] == plain(banner_of("XFAILURES"@, '='))
            &&& lines.contains(plain(reports[i].xfail_longrepr->0@))
            &&& options.tb is None || options.tb->0@ != "line"@ ==> lines.contains(
                (LineView {
                    text: banner_of(title_of(reports[i].nodeid@), '_'),
                    style: Style::RedBold,
                }),
            )
        }),
{
    let r = reports[i];
    let n = reports.len() as int;
    let tb = plain(r.xfail_longrepr->0@);
    let top = LineView { text: banner_of(title_of(r.nodeid@), '_'), style: Style::RedBold };
    let title = seq![plain(banner_of("XFAILURES"@, '='))];
    let blocks = part_blocks(Part::XFailures, reports, n, options, info);
    let block = part_block(Part::XFailures, reports, r, options, info);
    assert(belongs(Part::XFailures, r));
    if tb_is(options, "line"@) {
        assert(block[0] == tb);
    } else {
        assert(block[0] == top);
        assert(block[1] == tb);
        block_is_there(Part::XFailures, reports, n, options, info, i, top);
        contains_sum(title, blocks, top);
    }
    block_is_there(Part::XFailures, reports, n, options, info, i, tb);
    contains_sum(title, blocks, tb);
}

/// Each unexpected pass that printed something has its output in a section of its
/// own, where that is asked for by `X` and tracebacks are not switched off.
pub proof fn unexpected_passes_are_shown(
    reports: Seq<TestReport>,
    options: ReportOptions,
    info: WorkerInfo,
    i: int,
)
    requires
        0 <= i < reports.len(),
        reports[i].phase == Phase::Call,
        reports[i].outcome == Outcome::XPassed,
        reports[i].sections@.len() > 0,
        flags_of(options).contains('X'),
        options.tb is None || options.tb->0@ != "no"@,
    ensures
        ({
            let lines = part_lines(Part::XPasses, reports, options, info);
            &&& lines.len() > 0 && lines[0] == plain(banner_of("XPASSES"@, '='))
            &&& lines.contains(
                (LineView {
                    text: banner_of(title_of(reports[i].nodeid@), '_'),
                    style: Style::GreenBold,
                }),
            )
        }),
{
    let r = reports[i];
    let n = reports.len() as int;
    let top = LineView { text: banner_of(title_of(r.nodeid@), '_'), style: Style::GreenBold };
    let blocks = part_blocks(Part::XPasses, reports, n, options, info);
    let block = part_block(Part::XPasses, reports, r, options, info);
    assert(belongs(Part::XPasses, r));
    assert(block[0] == top);
    block_is_there(Part::XPasses, reports, n, options, info, i, top);
    contains_sum(seq![plain(banner_of("XPASSES"@, '='))], blocks, top);
}

/// A section without a test of its outcome is not there, and neither is one that
/// was not asked for.
pub proof fn sections_need_a_reason(
    reports: Seq<TestReport>,
    options: ReportOptions,
    info: WorkerInfo,
)
    ensures
        (forall|i: int|
            0 <= i < reports.len() ==> (#[trigger] reports[i]).phase != Phase::Call
                || reports[i].outcome != Outcome::Failed) ==> part_lines(
            Part::Failures,
            reports,
            options,
            info,
        ).len() == 0,
        (forall|i: int|
            0 <= i < reports.len() ==> (#[trigger] reports[i]).phase != Phase::Call
                || reports[i].outcome != Outcome::Passed) || !flags_of(options).contains('P')
            ==> part_lines(Part::Passes, reports, options, info).len() == 0,
        (forall|i: int|
            0 <= i < reports.len() ==> (#[trigger] reports[i]).phase != Phase::Call
                || reports[i].outcome != Outcome::XFailed) || !options.xfail_tb ==> part_lines(
            Part::XFailures,
            reports,
            options,
            info,
        ).len() == 0,
        (forall|i: int|
            0 <= i < reports.len() ==> (#[trigger] reports[i]).phase != Phase::Call
                || reports[i].outcome != Outcome::XPassed) || !flags_of(options).contains('X')
            ==> part_lines(Part::XPasses, reports, options, info).len() == 0,
{
}

/// Which captured output is shown: with `no` none, with `all` all, with a stream
/// what was captured of it; sections of other kinds are always shown.
pub proof fn captured_output_is_chosen(show: Seq<char>, stream: Seq<char>, title: Seq<char>)
    ensures
        !"Captured "@.is_prefix_of(title) ==> keeps(Filter::Capture, show, title),
        !keeps(Filter::Capture, "no"@, "Captured "@ + stream),
        keeps(Filter::Capture, "all"@, "Captured "@ + stream),
        show != "no"@ && show != "all"@ ==> (keeps(Filter::Capture, show, "Captured "@ + stream)
            <==> show.is_prefix_of(stream)),
        keeps(Filter::All, show, title),
        keeps(Filter::Teardown, "all"@, title) <==> occurs(title, "teardown"@),
        show != "all"@ ==> (keeps(Filter::Teardown, show, title) <==> occurs(title, "teardown"@)
            && occurs(title, show)),
{
    reveal_strlit("no");
    reveal_strlit("all");
    assert("no"@.len() == 2 && "all"@.len() == 3);
    let captured = "Captured "@ + stream;
    let n = "Captured "@.len() as int;
    assert("Captured "@ =~= captured.subrange(0, n));
    assert(captured.skip(n) =~= stream);
}

/// A section that is shown has its title in a rule and its text below it, without
/// line feeds at the end; sections follow each other.
pub proof fn sections_follow_each_other(
    sections: Seq<Section>,
    n: int,
    filter: Filter,
    show: Seq<char>,
)
    requires
        0 < n <= sections.len(),
    ensures
        section_lines(sections, 0, filter, show).len() == 0,
        ({
            let last = sections[n - 1];
            let before = section_lines(sections, n - 1, filter, show);
            let all = section_lines(sections, n, filter, show);
            &&& keeps(filter, show, last.title@) ==> all == before + seq![
                plain(ruled(spaced(last.title@))),
                plain(right_stripped(last.text@, '\n')),
            ]
            &&& !keeps(filter, show, last.title@) ==> all == before
        }),
        ({
            let last = sections[n - 1];
            let before = trailing_sections(sections, n - 1, show);
            let all = trailing_sections(sections, n, show);
            &&& keeps(Filter::Capture, show, last.title@) ==> all == before + ("\n"@ + ruled(
                spaced(last.title@),
            ) + "\n"@ + right_stripped(last.text@, '\n'))
            &&& !keeps(Filter::Capture, show, last.title@) ==> all == before
        }),
{
    let last = sections[n - 1];
    let before = section_lines(sections, n - 1, filter, show);
    if keeps(filter, show, last.title@) {
        assert(section_lines(sections, n, filter, show) =~= before + seq![
            plain(ruled(spaced(last.title@))),
            plain(right_stripped(last.text@, '\n')),
        ]);
    }
}

/// The title of a test: its name, with the classes that it lies in before it and
/// dots between them; what lies in no class and has a dot in its name, or in no
/// file, is a doctest.
pub proof fn titles_are_made_of_names(
    file: Seq<char>,
    cls: Seq<char>,
    name: Seq<char>,
    doc: Seq<char>,
)
    requires
        !file.contains(':'),
        !cls.contains(':'),
        !name.contains(':') && !name.contains('.') && !name.contains('['),
        !doc.contains(':') && !doc.contains('['),
    ensures
        title_of(file + "::"@ + name) == name,
        title_of(file + "::"@ + (cls + "::"@ + name)) == cls + "."@ + name,
        title_of(file) == "[doctest] "@ + file,
        doc.contains('.') ==> title_of(file + "::"@ + doc) == "[doctest] "@ + doc,
{
    reveal_strlit("::");
    reveal_strlit(".");
    reveal_strlit("[");
    let sep = "::"@;
    not_parted(file, sep);
    parted_at_first(file, sep, name);
    parted_at_first(file, sep, cls + sep + name);
    parted_at_first(file, sep, doc);
    parted_at_first(cls, sep, name);
    not_parted(name, sep);
    not_parted(name, "["@);
    not_parted(name, "."@);
    not_parted(doc, sep);
    not_parted(doc, "["@);
    first_at_char(doc, '.');
    assert("."@ =~= seq!['.']);
    assert(occurs(cls + sep + name, sep));
    let none = Seq::<Seq<char>>::empty();
    joined_push(none, name, "."@);
    assert(none.push(name) =~= seq![name]);
    joined_push(none, cls, "."@);
    assert(none.push(cls) =~= seq![cls]);
    joined_push(seq![cls], name, "."@);
    assert(seq![cls].push(name) =~= seq![cls] + seq![name]);
}

/// The heading of a failure: the line that is given, else the title; a subtest is
/// described behind it.
pub proof fn headings_name_the_test(report: TestReport)
    ensures
        report.head_line is Some && report.subtest_desc is None ==> heading(report)
            == report.head_line->0@,
        report.head_line is None && report.subtest_desc is None ==> heading(report) == title_of(
            report.nodeid@,
        ),
        report.head_line is Some && report.subtest_desc is Some ==> heading(report)
            == report.head_line->0@ + " "@ + report.subtest_desc->0@,
        report.head_line is None && report.subtest_desc is Some ==> heading(report) == title_of(
            report.nodeid@,
        ) + " "@ + report.subtest_desc->0@,
{
}

/// The characters of `-r`, one after the other: `a` stands for all but passes, `A`
/// for all, `N` for none; `F` and `S` mean what `f` and `s` do; any other adds
/// itself. Without `-r` failures and errors are meant.
pub proof fn report_characters_add_up(given: Seq<char>, c: char, x: char)
    ensures
        expanded_flags(Seq::empty()).len() == 0,
        expanded_flags(given.push('a')) == "sxXEf"@,
        expanded_flags(given.push('A')) == "PpsxXEf"@,
        expanded_flags(given.push('N')).len() == 0,
        expanded_flags(given.push('F')).contains(x) <==> expanded_flags(given).contains(x) || x
            == 'f',
        expanded_flags(given.push('S')).contains(x) <==> expanded_flags(given).contains(x) || x
            == 's',
        c != 'a' && c != 'A' && c != 'N' && c != 'F' && c != 'S' ==> (expanded_flags(
            given.push(c),
        ).contains(x) <==> expanded_flags(given).contains(x) || x == c),
        expanded_flags("fE"@) == "fE"@,
{
    assert(given.push(c).drop_last() =~= given);
    assert(given.push('a').drop_last() =~= given);
    assert(given.push('A').drop_last() =~= given);
    assert(given.push('N').drop_last() =~= given);
    assert(given.push('F').drop_last() =~= given);
    assert(given.push('S').drop_last() =~= given);
    let before = expanded_flags(given);
    added_char(before, 'f', x);
    added_char(before, 's', x);
    added_char(before, c, x);
    reveal_strlit("fE");
    let f = seq!['f'];
    assert("fE"@ =~= f.push('E'));
    assert("fE"@.drop_last() =~= f);
    assert(f.drop_last() =~= seq![]);
    assert(expanded_flags(f.drop_last()) =~= seq![]);
    assert(!Seq::<char>::empty().contains('f'));
    assert(expanded_flags(f) =~= f);
    assert(!f.contains('E'));
    assert(expanded_flags("fE"@) =~= "fE"@);
}

proof fn added_char(chars: Seq<char>, c: char, x: char)
    ensures
        with_char(chars, c).contains(x) <==> chars.contains(x) || x == c,
{
    if !chars.contains(c) {
        contains_split(chars.push(c), x);
        assert(chars.push(c).drop_last() =~= chars);
    }
}

/// The worker that ran a test is named where it is known, with the platform.
pub proof fn workers_are_named(info: WorkerInfo, i: int)
    requires
        0 <= i < info.workers@.len(),
        forall|j: int| 0 <= j < i ==> (#[trigger] info.workers@[j]).0@ != info.workers@[i].0@,
    ensures
        worker_of(info.workers@, info.workers@[i].0@) == Some(info.workers@[i].1),
        info.platinfo is Some ==> worker_lines(info, info.workers@[i].0@) == seq![
            plain(
                "[gw"@ + decimal_of(info.workers@[i].1 as nat) + "] "@ + info.platinfo->0@,
            ),
        ],
        info.platinfo is None ==> worker_lines(info, info.workers@[i].0@).len() == 0,
{
    first_worker(info.workers@, i);
}

proof fn first_worker(workers: Seq<(String, usize)>, i: int)
    requires
        0 <= i < workers.len(),
        forall|j: int| 0 <= j < i ==> (#[trigger] workers[j]).0@ != workers[i].0@,
    ensures
        worker_of(workers, workers[i].0@) == Some(workers[i].1),
    decreases workers.len(),
{
    if i > 0 {
        let rest = workers.skip(1);
        assert(workers[0].0@ != workers[i].0@);
        assert(rest[i - 1] == workers[i]);
        assert forall|j: int| 0 <= j < i - 1 implies (#[trigger] rest[j]).0@ != rest[i - 1].0@ by {
            assert(rest[j] == workers[j + 1]);
        }
        first_worker(rest, i - 1);
    }
}

/// What a teardown printed is shown with its test, and with no other.
pub proof fn teardown_output_stays_with_its_test(
    reports: Seq<TestReport>,
    n: int,
    nodeid: Seq<char>,
    show: Seq<char>,
)
    requires
        0 < n <= reports.len(),
    ensures
        teardown_lines(reports, n, nodeid, "no"@).len() == 0,
        show != "no"@ && reports[n - 1].phase == Phase::Teardown && reports[n - 1].nodeid@ == nodeid
            ==> teardown_lines(reports, n, nodeid, show) == teardown_lines(
            reports,
            n - 1,
            nodeid,
            show,
        ) + section_lines(
            reports[n - 1].sections@,
            reports[n - 1].sections@.len() as int,
            Filter::Teardown,
            show,
        ),
        reports[n - 1].phase != Phase::Teardown || reports[n - 1].nodeid@ != nodeid
            ==> teardown_lines(reports, n, nodeid, show) == teardown_lines(
            reports,
            n - 1,
            nodeid,
            show,
        ),
{
}

} // verus!
