//! The end of a session: the exit code, and the order of what is printed.

use vstd::prelude::*;

use crate::banner::{banner_of, center_with};
use crate::lists::{placed_within, rising, rising_sum};
use crate::report::{
    Outcome, TestReport, INTERNAL_ERROR, INTERRUPTED, NO_TESTS_COLLECTED, OK, TESTS_FAILED,
};
use crate::terminal::line::{emit, no_lines, plain, shown, Line, LineView, Style};
use crate::text::{opt_text, decimal, decimal_of};

verus! {

/// Something that changes the exit code while a session ends.
#[derive(Debug, Clone, Copy, PartialEq, Eq, Structural)]
pub enum CodeEvent {
    /// A session-finish hook called `pytest.exit`, perhaps with a code.
    HookExit(Option<i32>),
    /// A session-finish hook raised KeyboardInterrupt.
    HookInterrupt,
    /// A session-finish hook raised another exception.
    HookError,
    /// The session set an exit code of its own.
    Forced(i32),
    /// A reason to stop was set.
    ShouldStop,
    /// Exceptions that could not be raised were left over, as errors.
    Unraisable,
    /// Exceptions of threads were left over.
    Threads,
}

/// The facts that decide what is printed at the end.
#[derive(Debug, Clone, Copy, PartialEq, Eq, Structural)]
pub struct FinishFacts {
    pub no_terminal: bool,
    pub has_reports: bool,
    /// A plugin replaced the terminal reporter.
    pub custom_reporter: bool,
    pub is_worker: bool,
    /// `--no-summary`.
    pub no_summary: bool,
    /// A banner for an aborted session was set.
    pub aborted: bool,
    /// A KeyboardInterrupt is shown at the end.
    pub interrupted: bool,
    pub has_dist_banner: bool,
    pub stopped_after: bool,
    pub should_fail: bool,
}

/// What the application prints or does, in order.
#[derive(Debug, Clone, Copy, PartialEq, Eq, Structural)]
pub enum FinishStep {
    BlankLine,
    AbortBanner,
    Errors,
    Failures,
    XFailures,
    Warnings,
    Passes,
    XPasses,
    Durations,
    PluginSummaries,
    Pastebin,
    JunitXml,
    ReporterFinish,
    DistBanner,
    ShortSummary,
    FinalWarnings,
    StoppedAfter,
    ShouldFail,
    /// Ask whether a reason to stop was set, and show it.
    ShouldStop,
    Interrupt,
    SummaryLine,
    UninstallWarnings,
    CleanUpUnraisable,
    Unconfigure,
    CleanUpThreads,
}

// ---------------------------------------------------------------------------
// Model
// ---------------------------------------------------------------------------

/// One of the first `n` reports failed.
pub open spec fn any_failed(reports: Seq<TestReport>, n: int) -> bool {
    exists|i: int| 0 <= i < n && (#[trigger] reports[i]).outcome == Outcome::Failed
}

/// The exit code of the tests themselves.
pub open spec fn tests_code(reports: Seq<TestReport>, dist_items: Option<usize>) -> i32 {
    if any_failed(reports, reports.len() as int) {
        TESTS_FAILED
    } else if dist_items == Some(0usize) {
        NO_TESTS_COLLECTED
    } else {
        OK
    }
}

/// The exit code after an event.
pub open spec fn code_after(code: i32, e: CodeEvent) -> i32 {
    match e {
        CodeEvent::HookExit(Some(rc)) => rc,
        CodeEvent::HookExit(None) => code,
        CodeEvent::HookInterrupt => INTERRUPTED,
        CodeEvent::HookError => code,
        CodeEvent::Forced(rc) => rc,
        CodeEvent::ShouldStop => INTERRUPTED,
        CodeEvent::Unraisable => if code == 0 {
            TESTS_FAILED
        } else {
            code
        },
        CodeEvent::Threads => INTERNAL_ERROR,
    }
}

/// The exit code after a number of events.
pub open spec fn code_after_all(code: i32, events: Seq<CodeEvent>) -> i32
    decreases events.len(),
{
    if events.len() == 0 {
        code
    } else {
        code_after(code_after_all(code, events.drop_last()), events.last())
    }
}

/// A step that is taken under a condition.
pub open spec fn when(b: bool, step: FinishStep) -> Seq<FinishStep> {
    if b {
        seq![step]
    } else {
        seq![]
    }
}

/// The summary sections, errors first.
pub open spec fn summary_steps() -> Seq<FinishStep> {
    seq![
        FinishStep::Errors,
        FinishStep::Failures,
        FinishStep::XFailures,
        FinishStep::Warnings,
        FinishStep::Passes,
        FinishStep::XPasses,
        FinishStep::Durations,
        FinishStep::PluginSummaries,
        FinishStep::Pastebin,
    ]
}

/// The last steps, which every session with a terminal takes.
pub open spec fn closing_steps() -> Seq<FinishStep> {
    seq![
        FinishStep::SummaryLine,
        FinishStep::UninstallWarnings,
        FinishStep::CleanUpUnraisable,
        FinishStep::Unconfigure,
        FinishStep::CleanUpThreads,
    ]
}

/// What is printed and done at the end of a session.
pub open spec fn finish_order(f: FinishFacts) -> Seq<FinishStep> {
    if f.no_terminal {
        seq![FinishStep::JunitXml] + (if f.custom_reporter && !f.is_worker {
            seq![FinishStep::PluginSummaries, FinishStep::ReporterFinish]
        } else {
            seq![]
        })
    } else {
        let sections = if f.no_summary {
            seq![]
        } else {
            summary_steps()
        };
        let short = if f.no_summary {
            seq![]
        } else {
            seq![FinishStep::ShortSummary, FinishStep::FinalWarnings]
        };
        when(f.has_reports, FinishStep::BlankLine) + when(
            f.aborted && !f.interrupted,
            FinishStep::AbortBanner,
        ) + sections + seq![FinishStep::JunitXml] + when(
            f.has_dist_banner,
            FinishStep::DistBanner,
        ) + short + when(f.stopped_after, FinishStep::StoppedAfter) + when(
            f.should_fail,
            FinishStep::ShouldFail,
        ) + when(!f.aborted, FinishStep::ShouldStop) + when(
            f.interrupted,
            FinishStep::Interrupt,
        ) + closing_steps()
    }
}

/// What is printed and done when no test was collected.
pub open spec fn no_tests_order(f: FinishFacts) -> Seq<FinishStep> {
    if f.no_terminal {
        seq![FinishStep::JunitXml] + when(
            f.custom_reporter && !f.is_worker,
            FinishStep::ReporterFinish,
        )
    } else {
        seq![
            FinishStep::BlankLine,
            FinishStep::Warnings,
            FinishStep::PluginSummaries,
            FinishStep::JunitXml,
            FinishStep::ShortSummary,
            FinishStep::FinalWarnings,
            FinishStep::SummaryLine,
        ]
    }
}

/// What is said after too many failures.
pub open spec fn stopping_text(n: nat) -> Seq<char> {
    "stopping after "@ + decimal_of(n) + " failures"@
}

/// The banner that a replacement reporter shows.
pub open spec fn reporter_banner_of(
    should_fail: Option<Seq<char>>,
    aborted: Option<Seq<char>>,
    stopped_after: Option<nat>,
) -> Option<Seq<char>> {
    match should_fail {
        Some(s) => Some(s),
        None => match aborted {
            Some(s) => Some(s),
            None => match stopped_after {
                Some(n) => Some(stopping_text(n)),
                None => None,
            },
        },
    }
}

/// What is said of a reason to stop.
pub open spec fn stop_text(reason: Seq<char>, has_should_fail: bool) -> Seq<char> {
    if has_should_fail {
        reason
    } else {
        "Interrupted: "@ + reason
    }
}

/// The lines on a KeyboardInterrupt.
pub open spec fn interrupt_view(short: Seq<char>, long: Seq<char>, full: bool) -> Seq<LineView> {
    let head = plain(banner_of("KeyboardInterrupt"@, '!'));
    if full {
        seq![head, plain(long)]
    } else {
        seq![
            head,
            plain(short),
            LineView {
                text: "(to show a full traceback on KeyboardInterrupt use --full-trace)"@,
                style: Style::Yellow,
            },
        ]
    }
}

// ---------------------------------------------------------------------------
// Executable functions
// ---------------------------------------------------------------------------

/// The exit code of the tests themselves. `dist_items` is the number of items
/// that the workers of a distributed run collected.
pub fn code_of_tests(reports: &[TestReport], dist_items: Option<usize>) -> (r: i32)
    ensures
        r == tests_code(reports@, dist_items),
        r == TESTS_FAILED <==> exists|i: int|
            0 <= i < reports@.len() && (#[trigger] reports@[i]).outcome == Outcome::Failed,
{
    let mut i: usize = 0;
    while i < reports.len()
        invariant
            i <= reports@.len(),
            !any_failed(reports@, i as int),
        decreases reports@.len() - i,
    {
        if reports[i].outcome == Outcome::Failed {
            assert(reports@[i as int].outcome == Outcome::Failed);
            return TESTS_FAILED;
        }
        i += 1;
    }
    match dist_items {
        Some(n) => if n == 0 {
            NO_TESTS_COLLECTED
        } else {
            OK
        },
        None => OK,
    }
}

/// The exit code after an event.
pub fn update_code(code: i32, e: CodeEvent) -> (r: i32)
    ensures
        r == code_after(code, e),
{
    match e {
        CodeEvent::HookExit(Some(rc)) => rc,
        CodeEvent::HookExit(None) => code,
        CodeEvent::HookInterrupt => INTERRUPTED,
        CodeEvent::HookError => code,
        CodeEvent::Forced(rc) => rc,
        CodeEvent::ShouldStop => INTERRUPTED,
        CodeEvent::Unraisable => if code == 0 {
            TESTS_FAILED
        } else {
            code
        },
        CodeEvent::Threads => INTERNAL_ERROR,
    }
}

/// Whether a session-finish hook ended the session at once.
pub fn hook_exits(e: CodeEvent) -> (r: bool)
    ensures
        r == (e is HookExit),
{
    match e {
        CodeEvent::HookExit(_) => true,
        _ => false,
    }
}

fn push_when(steps: &mut Vec<FinishStep>, b: bool, step: FinishStep)
    ensures
        final(steps)@ == old(steps)@ + when(b, step),
{
    let ghost start = steps@;
    if b {
        steps.push(step);
    }
    assert(steps@ =~= start + when(b, step));
}

fn push_sections(steps: &mut Vec<FinishStep>)
    ensures
        final(steps)@ == old(steps)@ + summary_steps(),
{
    steps.push(FinishStep::Errors);
    steps.push(FinishStep::Failures);
    steps.push(FinishStep::XFailures);
    steps.push(FinishStep::Warnings);
    steps.push(FinishStep::Passes);
    steps.push(FinishStep::XPasses);
    steps.push(FinishStep::Durations);
    steps.push(FinishStep::PluginSummaries);
    steps.push(FinishStep::Pastebin);
}

fn push_short(steps: &mut Vec<FinishStep>)
    ensures
        final(steps)@ == old(steps)@ + seq![FinishStep::ShortSummary, FinishStep::FinalWarnings],
{
    steps.push(FinishStep::ShortSummary);
    steps.push(FinishStep::FinalWarnings);
}

fn push_closing(steps: &mut Vec<FinishStep>)
    ensures
        final(steps)@ == old(steps)@ + closing_steps(),
{
    steps.push(FinishStep::SummaryLine);
    steps.push(FinishStep::UninstallWarnings);
    steps.push(FinishStep::CleanUpUnraisable);
    steps.push(FinishStep::Unconfigure);
    steps.push(FinishStep::CleanUpThreads);
}

/// What is printed and done at the end of a session: errors, failures and
/// expected failures, warnings, passes, the hooks of plugins, the short
/// summary and the warnings that came up since. `--no-summary` leaves the
/// final line; a replaced reporter prints its own.
pub fn finish_steps(f: &FinishFacts) -> (r: Vec<FinishStep>)
    ensures
        r@ == finish_order(*f),
{
    let mut steps: Vec<FinishStep> = Vec::new();
    if f.no_terminal {
        steps.push(FinishStep::JunitXml);
        if f.custom_reporter && !f.is_worker {
            steps.push(FinishStep::PluginSummaries);
            steps.push(FinishStep::ReporterFinish);
        }
        assert(steps@ =~= finish_order(*f));
        return steps;
    }
    push_when(&mut steps, f.has_reports, FinishStep::BlankLine);
    assert(steps@ =~= when(f.has_reports, FinishStep::BlankLine));
    push_when(&mut steps, f.aborted && !f.interrupted, FinishStep::AbortBanner);
    let ghost a = steps@;
    if !f.no_summary {
        push_sections(&mut steps);
    } else {
        assert(a + Seq::<FinishStep>::empty() =~= a);
    }
    push_when(&mut steps, true, FinishStep::JunitXml);
    push_when(&mut steps, f.has_dist_banner, FinishStep::DistBanner);
    let ghost b = steps@;
    if !f.no_summary {
        push_short(&mut steps);
    } else {
        assert(b + Seq::<FinishStep>::empty() =~= b);
    }
    push_when(&mut steps, f.stopped_after, FinishStep::StoppedAfter);
    push_when(&mut steps, f.should_fail, FinishStep::ShouldFail);
    push_when(&mut steps, !f.aborted, FinishStep::ShouldStop);
    push_when(&mut steps, f.interrupted, FinishStep::Interrupt);
    push_closing(&mut steps);
    steps
}

/// What is printed and done when no test was collected.
pub fn no_tests_steps(f: &FinishFacts) -> (r: Vec<FinishStep>)
    ensures
        r@ == no_tests_order(*f),
{
    let mut steps: Vec<FinishStep> = Vec::new();
    if f.no_terminal {
        steps.push(FinishStep::JunitXml);
        push_when(&mut steps, f.custom_reporter && !f.is_worker, FinishStep::ReporterFinish);
    } else {
        steps.push(FinishStep::BlankLine);
        steps.push(FinishStep::Warnings);
        steps.push(FinishStep::PluginSummaries);
        steps.push(FinishStep::JunitXml);
        steps.push(FinishStep::ShortSummary);
        steps.push(FinishStep::FinalWarnings);
        steps.push(FinishStep::SummaryLine);
    }
    assert(steps@ =~= no_tests_order(*f));
    steps
}

/// What is said after too many failures.
pub fn stopping_after(n: usize) -> (r: String)
    ensures
        r@ == stopping_text(n as nat),
{
    let mut r: String = "stopping after ".to_owned();
    r.append(decimal(n).as_str());
    r.append(" failures");
    r
}

/// The banner that a replacement reporter shows at the end.
pub fn reporter_banner(
    should_fail: &Option<String>,
    aborted: &Option<String>,
    stopped_after: Option<usize>,
) -> (r: Option<String>)
    ensures
        opt_text(r) == reporter_banner_of(
            opt_text(*should_fail),
            opt_text(*aborted),
            match stopped_after {
                Some(n) => Some(n as nat),
                None => None,
            },
        ),
{
    if let Some(s) = should_fail {
        return Some(s.clone());
    }
    if let Some(s) = aborted {
        return Some(s.clone());
    }
    match stopped_after {
        Some(n) => Some(stopping_after(n)),
        None => None,
    }
}

/// The banner on a reason to stop. It reads as an interruption unless the
/// session was also told to fail.
pub fn stop_banner(reason: &str, has_should_fail: bool) -> (r: String)
    ensures
        r@ == banner_of(stop_text(reason@, has_should_fail), '!'),
{
    if has_should_fail {
        return center_with(reason, '!');
    }
    let mut text: String = "Interrupted: ".to_owned();
    text.append(reason);
    center_with(text.as_str(), '!')
}

/// The lines on a KeyboardInterrupt; with `--full-trace` the whole traceback.
pub fn interrupt_lines(short: &str, long: &str, full_trace: bool) -> (r: Vec<Line>)
    ensures
        shown(r@) == interrupt_view(short@, long@, full_trace),
{
    let mut out = no_lines();
    emit(&mut out, center_with("KeyboardInterrupt", '!'), Style::Plain);
    if full_trace {
        emit(&mut out, long.to_owned(), Style::Plain);
    } else {
        emit(&mut out, short.to_owned(), Style::Plain);
        emit(
            &mut out,
            "(to show a full traceback on KeyboardInterrupt use --full-trace)".to_owned(),
            Style::Yellow,
        );
    }
    assert(shown(out@) =~= interrupt_view(short@, long@, full_trace));
    out
}

/// What is said of a message of `pytest.exit` in a session-finish hook.
pub fn exit_line(message: &str) -> (r: Option<String>)
    ensures
        match r {
            Some(s) => message@.len() > 0 && s@ == "Exit: "@ + message@,
            None => message@.len() == 0,
        },
{
    if message.is_empty() {
        return None;
    }
    let mut r: String = "Exit: ".to_owned();
    r.append(message);
    Some(r)
}

// ---------------------------------------------------------------------------
// Laws
// ---------------------------------------------------------------------------

/// A session whose tests failed never ends with success, unless an exit code
/// of zero was asked for.
pub proof fn failure_is_kept(code: i32, events: Seq<CodeEvent>)
    requires
        code != 0,
        forall|i: int|
            0 <= i < events.len() ==> #[trigger] events[i] != CodeEvent::Forced(0) && events[i]
                != CodeEvent::HookExit(Some(0)),
    ensures
        code_after_all(code, events) != 0,
    decreases events.len(),
{
    if events.len() > 0 {
        let init = events.drop_last();
        assert forall|i: int| 0 <= i < init.len() implies #[trigger] init[i] != CodeEvent::Forced(0)
            && init[i] != CodeEvent::HookExit(Some(0)) by {
            assert(events[i] == init[i]);
        }
        failure_is_kept(code, init);
        assert(events[events.len() - 1] == events.last());
    }
}

/// Exceptions of threads that nobody saw end the session as an internal
/// error, whatever came before.
pub proof fn lost_thread_exceptions_win(code: i32, events: Seq<CodeEvent>)
    ensures
        code_after_all(code, events.push(CodeEvent::Threads)) == INTERNAL_ERROR,
{
    assert(events.push(CodeEvent::Threads).drop_last() =~= events);
}

/// The XML file is written in every session, and without a replaced reporter
/// the last thing a session with a terminal does is to clean up.
pub proof fn xml_is_always_written(f: FinishFacts)
    ensures
        finish_order(f).contains(FinishStep::JunitXml),
        no_tests_order(f).contains(FinishStep::JunitXml),
        !f.no_terminal ==> finish_order(f).last() == FinishStep::CleanUpThreads,
{
    if f.no_terminal {
        assert(finish_order(f)[0] == FinishStep::JunitXml);
        assert(no_tests_order(f)[0] == FinishStep::JunitXml);
    } else {
        let head = when(f.has_reports, FinishStep::BlankLine) + when(
            f.aborted && !f.interrupted,
            FinishStep::AbortBanner,
        ) + (if f.no_summary {
            seq![]
        } else {
            summary_steps()
        });
        assert(finish_order(f)[head.len() as int] == FinishStep::JunitXml);
        assert(no_tests_order(f)[3] == FinishStep::JunitXml);
    }
}

/// A report that failed, wherever it stands, makes the session fail, and the
/// session fails for no other reason. Otherwise the session succeeds, unless
/// the workers of a distributed run collected nothing.
pub proof fn any_failed_report_fails(reports: Seq<TestReport>, dist_items: Option<usize>)
    ensures
        forall|i: int|
            0 <= i < reports.len() && (#[trigger] reports[i]).outcome == Outcome::Failed
                ==> tests_code(reports, dist_items) == 1,
        tests_code(reports, dist_items) == 1 ==> exists|i: int|
            0 <= i < reports.len() && (#[trigger] reports[i]).outcome == Outcome::Failed,
        tests_code(reports, dist_items) != 1 ==> tests_code(reports, dist_items) == (
        if dist_items == Some(0usize) {
            5
        } else {
            0int
        }),
{
}

/// The exit code looks at the outcomes alone: it is the same in any order, and
/// further reports can turn success into failure but not back.
pub proof fn more_reports_never_mend(
    reports: Seq<TestReport>,
    more: Seq<TestReport>,
    dist_items: Option<usize>,
)
    ensures
        tests_code(reports + more, dist_items) == tests_code(more + reports, dist_items),
        tests_code(reports, dist_items) == 1 ==> tests_code(reports + more, dist_items) == 1,
        (forall|i: int| 0 <= i < more.len() ==> (#[trigger] more[i]).outcome != Outcome::Failed)
            ==> tests_code(reports + more, dist_items) == tests_code(reports, dist_items),
{
    let (a, b) = (reports + more, more + reports);
    assert forall|i: int| 0 <= i < reports.len() implies a[i] == #[trigger] reports[i]
        && b[more.len() + i] == reports[i] by {}
    assert forall|i: int| 0 <= i < more.len() implies b[i] == #[trigger] more[i] && a[reports.len()
        + i] == more[i] by {}
    if any_failed(a, a.len() as int) {
        let i = choose|i: int| 0 <= i < a.len() && (#[trigger] a[i]).outcome == Outcome::Failed;
        if i < reports.len() {
            assert(b[more.len() + i].outcome == Outcome::Failed);
            assert(reports[i].outcome == Outcome::Failed);
        } else {
            assert(b[i - reports.len()].outcome == Outcome::Failed);
            assert(more[i - reports.len()].outcome == Outcome::Failed);
        }
    }
    if any_failed(b, b.len() as int) {
        let i = choose|i: int| 0 <= i < b.len() && (#[trigger] b[i]).outcome == Outcome::Failed;
        if i < more.len() {
            assert(a[reports.len() + i].outcome == Outcome::Failed);
        } else {
            assert(a[i - more.len()].outcome == Outcome::Failed);
        }
    }
    if any_failed(reports, reports.len() as int) {
        let i = choose|i: int|
            0 <= i < reports.len() && (#[trigger] reports[i]).outcome == Outcome::Failed;
        assert(a[i].outcome == Outcome::Failed);
    }
}

/// What an event makes of an exit code. An exit code that was asked for wins;
/// a reason to stop and a KeyboardInterrupt make an interruption; exceptions
/// of threads are an internal error. What else goes wrong keeps the code, but
/// exceptions that could not be raised turn success into failure.
pub proof fn events_set_the_code(code: i32, rc: i32)
    ensures
        code_after(code, CodeEvent::HookExit(Some(rc))) == rc,
        code_after(code, CodeEvent::Forced(rc)) == rc,
        code_after(code, CodeEvent::HookInterrupt) == 2,
        code_after(code, CodeEvent::ShouldStop) == 2,
        code_after(code, CodeEvent::Threads) == 3,
        code_after(code, CodeEvent::HookExit(None)) == code,
        code_after(code, CodeEvent::HookError) == code,
        code != 0 ==> code_after(code, CodeEvent::Unraisable) == code,
        code_after(0, CodeEvent::Unraisable) == 1,
{
}

/// The order in which the steps of the end can come.
pub open spec fn finish_place(step: FinishStep) -> int {
    match step {
        FinishStep::BlankLine => 0,
        FinishStep::AbortBanner => 1,
        FinishStep::Errors => 2,
        FinishStep::Failures => 3,
        FinishStep::XFailures => 4,
        FinishStep::Warnings => 5,
        FinishStep::Passes => 6,
        FinishStep::XPasses => 7,
        FinishStep::Durations => 8,
        FinishStep::PluginSummaries => 9,
        FinishStep::Pastebin => 10,
        FinishStep::JunitXml => 11,
        FinishStep::ReporterFinish => 12,
        FinishStep::DistBanner => 13,
        FinishStep::ShortSummary => 14,
        FinishStep::FinalWarnings => 15,
        FinishStep::StoppedAfter => 16,
        FinishStep::ShouldFail => 17,
        FinishStep::ShouldStop => 18,
        FinishStep::Interrupt => 19,
        FinishStep::SummaryLine => 20,
        FinishStep::UninstallWarnings => 21,
        FinishStep::CleanUpUnraisable => 22,
        FinishStep::Unconfigure => 23,
        FinishStep::CleanUpThreads => 24,
    }
}

/// The steps come in order, and all of them before `hi`.
#[verifier::opaque]
spec fn ladder(list: Seq<FinishStep>, hi: int) -> bool {
    &&& rising(list, |s: FinishStep| finish_place(s))
    &&& placed_within(list, |s: FinishStep| finish_place(s), 0, hi)
}

proof fn ladder_starts(hi: int)
    ensures
        ladder(seq![], hi),
{
    reveal(ladder);
}

/// A list goes on with steps that come later than all of it.
proof fn goes_on_with(
    list: Seq<FinishStep>,
    more: Seq<FinishStep>,
    lo: int,
    mid: int,
    hi: int,
    x: FinishStep,
)
    requires
        ladder(list, lo),
        rising(more, |s: FinishStep| finish_place(s)),
        placed_within(more, |s: FinishStep| finish_place(s), mid, hi),
        0 <= lo <= mid <= hi,
    ensures
        ladder(list + more, hi),
        (list + more).contains(x) <==> list.contains(x) || more.contains(x),
{
    reveal(ladder);
    let place = |s: FinishStep| finish_place(s);
    assert(placed_within(list, place, 0, mid));
    rising_sum(list, more, place, 0, mid, hi);
}

/// A list may go on with a step that comes later than all of it.
proof fn may_go_on_with(list: Seq<FinishStep>, lo: int, b: bool, step: FinishStep, x: FinishStep)
    requires
        ladder(list, lo),
        0 <= lo <= finish_place(step),
    ensures
        ladder(list + when(b, step), finish_place(step) + 1),
        (list + when(b, step)).contains(x) <==> list.contains(x) || (b && x == step),
{
    let p = finish_place(step);
    if b {
        assert(when(b, step)[0] == step);
    }
    goes_on_with(list, when(b, step), lo, p, p + 1, x);
}

proof fn sections_rise(x: FinishStep)
    ensures
        rising(summary_steps(), |s: FinishStep| finish_place(s)),
        placed_within(summary_steps(), |s: FinishStep| finish_place(s), 2, 11),
        summary_steps().contains(x) <==> 2 <= finish_place(x) < 11,
{
    let l = summary_steps();
    assert(forall|i: int| 0 <= i < 9 ==> finish_place(#[trigger] l[i]) == i + 2);
    if 2 <= finish_place(x) < 11 {
        assert(l[finish_place(x) - 2] == x);
    }
}

proof fn short_rises(x: FinishStep)
    ensures
        ({
            let l = seq![FinishStep::ShortSummary, FinishStep::FinalWarnings];
            &&& rising(l, |s: FinishStep| finish_place(s))
            &&& placed_within(l, |s: FinishStep| finish_place(s), 14, 16)
            &&& l.contains(x) <==> 14 <= finish_place(x) < 16
        }),
{
    let l = seq![FinishStep::ShortSummary, FinishStep::FinalWarnings];
    assert(l[0] == FinishStep::ShortSummary && l[1] == FinishStep::FinalWarnings);
}

proof fn closing_rises(x: FinishStep)
    ensures
        rising(closing_steps(), |s: FinishStep| finish_place(s)),
        placed_within(closing_steps(), |s: FinishStep| finish_place(s), 20, 25),
        closing_steps().contains(x) <==> 20 <= finish_place(x) < 25,
{
    let l = closing_steps();
    assert(forall|i: int| 0 <= i < 5 ==> finish_place(#[trigger] l[i]) == i + 20);
    if 20 <= finish_place(x) < 25 {
        assert(l[finish_place(x) - 20] == x);
    }
}

/// What a session with a terminal shows at its end, and when: errors,
/// failures, expected failures, warnings, passes, unexpected passes and
/// durations come before the XML file is written, then the short summary, the
/// reasons to stop and the final line; the cleaning up comes last. Each step
/// is taken once at most. `--no-summary` leaves out the sections and the short
/// summary, and nothing else.
pub proof fn sections_come_in_order(f: FinishFacts, x: FinishStep)
    requires
        !f.no_terminal,
    ensures
        rising(finish_order(f), |s: FinishStep| finish_place(s)),
        finish_order(f).contains(x) <==> match x {
                FinishStep::BlankLine => f.has_reports,
                FinishStep::AbortBanner => f.aborted && !f.interrupted,
                FinishStep::Errors => !f.no_summary,
                FinishStep::Failures => !f.no_summary,
                FinishStep::XFailures => !f.no_summary,
                FinishStep::Warnings => !f.no_summary,
                FinishStep::Passes => !f.no_summary,
                FinishStep::XPasses => !f.no_summary,
                FinishStep::Durations => !f.no_summary,
                FinishStep::PluginSummaries => !f.no_summary,
                FinishStep::Pastebin => !f.no_summary,
                FinishStep::JunitXml => true,
                FinishStep::ReporterFinish => false,
                FinishStep::DistBanner => f.has_dist_banner,
                FinishStep::ShortSummary => !f.no_summary,
                FinishStep::FinalWarnings => !f.no_summary,
                FinishStep::StoppedAfter => f.stopped_after,
                FinishStep::ShouldFail => f.should_fail,
                FinishStep::ShouldStop => !f.aborted,
                FinishStep::Interrupt => f.interrupted,
                FinishStep::SummaryLine => true,
                FinishStep::UninstallWarnings => true,
                FinishStep::CleanUpUnraisable => true,
                FinishStep::Unconfigure => true,
                FinishStep::CleanUpThreads => true,
            },
{
    let none = Seq::<FinishStep>::empty();
    let l1 = when(f.has_reports, FinishStep::BlankLine);
    ladder_starts(0);
    may_go_on_with(none, 0, f.has_reports, FinishStep::BlankLine, x);
    assert(none + l1 == l1) by {
        assert(none + l1 =~= l1);
    }
    let l2 = l1 + when(f.aborted && !f.interrupted, FinishStep::AbortBanner);
    may_go_on_with(l1, 1, f.aborted && !f.interrupted, FinishStep::AbortBanner, x);
    let sections = if f.no_summary {
        seq![]
    } else {
        summary_steps()
    };
    let l3 = l2 + sections;
    sections_rise(x);
    goes_on_with(l2, sections, 2, 2, 11, x);
    let xml = seq![FinishStep::JunitXml];
    let l4 = l3 + xml;
    assert(xml.contains(x) <==> x == FinishStep::JunitXml) by {
        assert(xml[0] == FinishStep::JunitXml);
    }
    goes_on_with(l3, xml, 11, 11, 12, x);
    let l5 = l4 + when(f.has_dist_banner, FinishStep::DistBanner);
    may_go_on_with(l4, 12, f.has_dist_banner, FinishStep::DistBanner, x);
    let short = if f.no_summary {
        seq![]
    } else {
        seq![FinishStep::ShortSummary, FinishStep::FinalWarnings]
    };
    let l6 = l5 + short;
    short_rises(x);
    goes_on_with(l5, short, 14, 14, 16, x);
    let l7 = l6 + when(f.stopped_after, FinishStep::StoppedAfter);
    may_go_on_with(l6, 16, f.stopped_after, FinishStep::StoppedAfter, x);
    let l8 = l7 + when(f.should_fail, FinishStep::ShouldFail);
    may_go_on_with(l7, 17, f.should_fail, FinishStep::ShouldFail, x);
    let l9 = l8 + when(!f.aborted, FinishStep::ShouldStop);
    may_go_on_with(l8, 18, !f.aborted, FinishStep::ShouldStop, x);
    let l10 = l9 + when(f.interrupted, FinishStep::Interrupt);
    may_go_on_with(l9, 19, f.interrupted, FinishStep::Interrupt, x);
    let l11 = l10 + closing_steps();
    closing_rises(x);
    goes_on_with(l10, closing_steps(), 20, 20, 25, x);
    assert(l11 == finish_order(f));
    reveal(ladder);
}

/// Without a terminal the XML file is written, and a replacement reporter is
/// told of the end, except in a worker; nothing else happens.
pub proof fn silent_sessions(f: FinishFacts)
    requires
        f.no_terminal,
    ensures
        finish_order(f)[0] == FinishStep::JunitXml,
        no_tests_order(f)[0] == FinishStep::JunitXml,
        f.is_worker || !f.custom_reporter ==> finish_order(f).len() == 1 && no_tests_order(f).len()
            == 1,
        f.custom_reporter && !f.is_worker ==> finish_order(f).len() == 3 && finish_order(f)[1]
            == FinishStep::PluginSummaries && finish_order(f)[2] == FinishStep::ReporterFinish
            && no_tests_order(f).len() == 2 && no_tests_order(f)[1] == FinishStep::ReporterFinish,
{
}

/// A session with a terminal in which no test was collected shows warnings and
/// what plugins say, writes the XML file, and then shows the short summary,
/// later warnings and the final line.
pub proof fn empty_sessions(f: FinishFacts)
    requires
        !f.no_terminal,
    ensures
        no_tests_order(f).len() == 7,
        no_tests_order(f)[0] == FinishStep::BlankLine,
        no_tests_order(f)[1] == FinishStep::Warnings,
        no_tests_order(f)[2] == FinishStep::PluginSummaries,
        no_tests_order(f)[3] == FinishStep::JunitXml,
        no_tests_order(f)[4] == FinishStep::ShortSummary,
        no_tests_order(f)[5] == FinishStep::FinalWarnings,
        no_tests_order(f)[6] == FinishStep::SummaryLine,
{
}

/// A reason to fail goes before a reason to abort, and that before the number
/// of failures; without any of them there is no banner.
pub proof fn banner_tells_the_reason(
    should_fail: Option<Seq<char>>,
    aborted: Option<Seq<char>>,
    stopped: Option<nat>,
)
    ensures
        should_fail is Some ==> reporter_banner_of(should_fail, aborted, stopped) == should_fail,
        should_fail is None && aborted is Some ==> reporter_banner_of(should_fail, aborted, stopped)
            == aborted,
        should_fail is None && aborted is None && stopped is None ==> reporter_banner_of(
            should_fail,
            aborted,
            stopped,
        ) is None,
        stopped matches Some(n) ==> reporter_banner_of(None, None, stopped) == Some(
            "stopping after "@ + decimal_of(n) + " failures"@,
        ),
{
}

} // verus!
