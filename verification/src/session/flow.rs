//! The course of a session as a machine: the application performs an action
//! and reports what came of it, the machine says what is next.

use vstd::prelude::*;

use crate::report::{Outcome, Phase, TestReport, INTERNAL_ERROR, OK, USAGE_ERROR};
use crate::session::startup::{check_doctest_report, doctest_error};
use crate::text::same;

verus! {

/// The options that decide the course of a session.
pub struct SessionOptions {
    pub is_worker: bool,
    /// `-n`.
    pub numprocesses: Option<String>,
    /// `-d`.
    pub dist_load: bool,
    /// `--tx` was given.
    pub has_tx: bool,
    /// `--doctest-report`.
    pub doctest_report: Option<String>,
    /// `--cache-show` was given.
    pub cache_show: bool,
    /// `--markers`.
    pub markers: bool,
    /// `--help`.
    pub help: bool,
    pub collect_only: bool,
    pub fixtures: bool,
    pub fixtures_per_test: bool,
}

/// How the end of a session is announced.
#[derive(Debug, Clone, Copy, PartialEq, Eq, Structural)]
pub enum Notice {
    /// Nothing more is said.
    Silent,
    /// The exception's message after "ERROR: ", on stderr.
    ErrorLine,
    /// The traceback after "INTERNAL ERROR: ", on stderr.
    InternalError,
    /// The lines of the traceback, each after "INTERNALERROR> ", on stdout.
    InternalLines,
    /// The message alone, on stdout.
    Message,
    /// What is wrong with `--doctest-report`, on stderr.
    DoctestReport,
    /// The closing line of a session without tests.
    SummaryLine,
    /// The captured output and the XML file, but no summary.
    Unfinished,
}

/// What the application does next.
#[derive(Debug, Clone, Copy, PartialEq, Eq, Structural)]
pub enum Action {
    RegisterXdistMarkers,
    /// Fire the configure and session-start hooks of native plugins.
    Configure,
    /// Serve a controller as its worker.
    RunWorker,
    OpenCache,
    ShowCache,
    Collect,
    /// Show why collection failed as a whole.
    ShowCollectFailure,
    HandleCollectionErrors,
    CheckStrictMarkers,
    CountItems,
    Deselect,
    CheckPendingHooks,
    ModifyItems,
    CacheModifyItems,
    DeferredWrappers,
    FireDeselected,
    /// Fire the hooks for the end of collection.
    FinishCollection,
    PrintCollectionCount,
    ShowFixtures,
    ShowFixturesPerTest,
    CollectOnly,
    /// Let a hook replace the running of the items.
    RunLoopHook,
    ResolveWorkers,
    RunDist(usize),
    RunItems,
    /// Look whether a hook broke the run.
    CheckRun,
    NoTests,
    FinishSession,
    /// The session is over.
    Stop { code: i32, notice: Notice, unconfigure: bool },
}

/// What came of an action.
#[derive(Debug, Clone, Copy, PartialEq, Eq, Structural)]
pub enum Event {
    Done,
    /// It raised a usage error.
    UsageError,
    /// It raised another exception, or returned an error.
    Error,
    /// It came to this exit code.
    Code(i32),
    /// Collection is over: the number of errors, and the exit code of a
    /// plugin that claimed the whole run.
    Collected { errors: usize, claimed: Option<i32> },
    /// Collection errors were handled: an exit code where they abort the
    /// session, and whether nodeids of the command line were not found.
    ErrorsHandled { code: Option<i32>, not_found: bool },
    /// The number of items.
    Count(usize),
    /// Whether a hook replaced the running of the items.
    LoopReplaced(bool),
    Workers(Option<usize>),
    /// The run is over: the exit code of a hook that broke it.
    RunEnded(Option<i32>),
}

/// The state of a session.
#[derive(Debug, Clone, Copy, PartialEq, Eq, Structural)]
pub struct Machine {
    pub action: Action,
    /// Collection errors.
    pub errors: usize,
    /// Items before deselection.
    pub collected: usize,
    /// Items to run.
    pub items: usize,
    /// Deselected items.
    pub deselected: usize,
    /// A hook replaced the running of the items.
    pub replaced: bool,
}

// ---------------------------------------------------------------------------
// Model
// ---------------------------------------------------------------------------

/// The session has to do with distributed running.
pub open spec fn uses_xdist(o: SessionOptions) -> bool {
    ||| o.is_worker
    ||| (o.numprocesses matches Some(n) && n@ != "0"@)
    ||| o.dist_load
    ||| o.has_tx
}

/// The workers collect, so that the count of items is not known here.
pub open spec fn distributes(o: SessionOptions) -> bool {
    (o.numprocesses is Some || o.dist_load || o.has_tx) && !o.collect_only
}

/// The end of a session.
pub open spec fn stop(code: i32, notice: Notice, unconfigure: bool) -> Action {
    Action::Stop { code, notice, unconfigure }
}

/// An error that should not come up.
pub open spec fn broken() -> Action {
    stop(INTERNAL_ERROR, Notice::InternalError, false)
}

/// What follows on the configuration.
pub open spec fn after_configure(o: SessionOptions, e: Event) -> Action {
    match e {
        Event::Done => if o.doctest_report matches Some(r) && doctest_error(r@) is Some {
            stop(USAGE_ERROR, Notice::DoctestReport, false)
        } else if o.is_worker {
            Action::RunWorker
        } else {
            Action::OpenCache
        },
        Event::UsageError => stop(USAGE_ERROR, Notice::ErrorLine, false),
        _ => broken(),
    }
}

/// What follows on collection.
pub open spec fn after_collect(o: SessionOptions, e: Event) -> Action {
    match e {
        Event::Collected { errors, claimed } => match claimed {
            Some(code) => stop(code, Notice::SummaryLine, true),
            None => if o.markers || o.help {
                stop(OK, Notice::Silent, true)
            } else {
                Action::HandleCollectionErrors
            },
        },
        _ => Action::ShowCollectFailure,
    }
}

/// What follows when collection has settled and been counted.
pub open spec fn after_count(o: SessionOptions) -> Action {
    if o.fixtures {
        Action::ShowFixtures
    } else if o.fixtures_per_test {
        Action::ShowFixturesPerTest
    } else if o.collect_only {
        Action::CollectOnly
    } else {
        Action::RunLoopHook
    }
}

/// What follows when it is known who runs the items.
pub open spec fn after_workers(m: Machine, e: Event) -> Action {
    match e {
        Event::Workers(Some(n)) => if m.replaced {
            Action::CheckRun
        } else {
            Action::RunDist(n)
        },
        Event::Workers(None) => if m.items == 0 {
            Action::NoTests
        } else if m.replaced {
            Action::CheckRun
        } else {
            Action::RunItems
        },
        _ => broken(),
    }
}

/// An action that ends the session with the exit code it came to.
pub open spec fn code_end(e: Event) -> Action {
    match e {
        Event::Code(code) => stop(code, Notice::Silent, false),
        _ => broken(),
    }
}

/// What follows on the run.
pub open spec fn after_run(e: Event) -> Action {
    match e {
        Event::RunEnded(Some(code)) => stop(code, Notice::Unfinished, true),
        Event::RunEnded(None) => Action::FinishSession,
        _ => broken(),
    }
}

/// The action after this one.
pub open spec fn next_action(o: SessionOptions, m: Machine, e: Event) -> Action {
    match m.action {
        Action::RegisterXdistMarkers => Action::Configure,
        Action::Configure => after_configure(o, e),
        Action::RunWorker => code_end(e),
        Action::OpenCache => if o.cache_show {
            Action::ShowCache
        } else {
            Action::Collect
        },
        Action::ShowCache => if e == Event::Done {
            stop(OK, Notice::Silent, false)
        } else {
            broken()
        },
        Action::Collect => after_collect(o, e),
        Action::ShowCollectFailure => code_end(e),
        Action::HandleCollectionErrors => match e {
            Event::ErrorsHandled { code, not_found } => if not_found {
                stop(USAGE_ERROR, Notice::Silent, false)
            } else {
                match code {
                    Some(code) => stop(code, Notice::Silent, false),
                    None => Action::CheckStrictMarkers,
                }
            },
            _ => broken(),
        },
        Action::CheckStrictMarkers => if e == Event::Done {
            Action::CountItems
        } else {
            stop(USAGE_ERROR, Notice::Message, false)
        },
        Action::CountItems => if e is Count {
            Action::Deselect
        } else {
            broken()
        },
        Action::Deselect => if e == Event::Done {
            Action::CheckPendingHooks
        } else {
            broken()
        },
        Action::CheckPendingHooks => if e == Event::Done {
            Action::ModifyItems
        } else {
            stop(INTERNAL_ERROR, Notice::InternalLines, false)
        },
        Action::ModifyItems => match e {
            Event::Done => Action::CacheModifyItems,
            Event::UsageError => stop(USAGE_ERROR, Notice::ErrorLine, false),
            _ => stop(INTERNAL_ERROR, Notice::InternalLines, false),
        },
        Action::CacheModifyItems => Action::DeferredWrappers,
        Action::DeferredWrappers => if e == Event::Done {
            Action::FireDeselected
        } else {
            broken()
        },
        Action::FireDeselected => if e is Count {
            Action::FinishCollection
        } else {
            broken()
        },
        Action::FinishCollection => if distributes(o) {
            after_count(o)
        } else {
            Action::PrintCollectionCount
        },
        Action::PrintCollectionCount => after_count(o),
        Action::ShowFixtures => stop(OK, Notice::Silent, true),
        Action::ShowFixturesPerTest => stop(OK, Notice::Silent, true),
        Action::CollectOnly => code_end(e),
        Action::RunLoopHook => Action::ResolveWorkers,
        Action::ResolveWorkers => after_workers(m, e),
        Action::RunDist(_) => after_run(e),
        Action::RunItems => after_run(e),
        Action::CheckRun => after_run(e),
        Action::NoTests => code_end(e),
        Action::FinishSession => code_end(e),
        Action::Stop { code, notice, unconfigure } => m.action,
    }
}

/// The state after what came of the current action.
pub open spec fn next_state(o: SessionOptions, m: Machine, e: Event) -> Machine {
    let action = next_action(o, m, e);
    match (m.action, e) {
        (Action::Collect, Event::Collected { errors, claimed }) => Machine { action, errors, ..m },
        (Action::CountItems, Event::Count(n)) => Machine { action, collected: n, ..m },
        (Action::FireDeselected, Event::Count(n)) => Machine {
            action,
            items: n,
            deselected: (if m.collected > n {
                m.collected - n
            } else {
                0
            }) as usize,
            ..m
        },
        (Action::RunLoopHook, Event::LoopReplaced(b)) => Machine { action, replaced: b, ..m },
        _ => Machine { action, ..m },
    }
}

/// The first state of a session.
pub open spec fn first_state(o: SessionOptions) -> Machine {
    Machine {
        action: if uses_xdist(o) {
            Action::RegisterXdistMarkers
        } else {
            Action::Configure
        },
        errors: 0,
        collected: 0,
        items: 0,
        deselected: 0,
        replaced: false,
    }
}

/// The number of skips that were reported at collection time, in the first
/// `n` reports.
pub open spec fn setup_skips(reports: Seq<TestReport>, n: int) -> nat
    decreases n,
{
    if n <= 0 {
        0
    } else {
        let r = reports[n - 1];
        setup_skips(reports, n - 1) + (if r.phase == Phase::Setup && r.outcome == Outcome::Skipped {
            1nat
        } else {
            0
        })
    }
}

// ---------------------------------------------------------------------------
// Executable functions
// ---------------------------------------------------------------------------

/// The first state of a session.
pub fn start(o: &SessionOptions) -> (r: Machine)
    ensures
        r == first_state(*o),
{
    let numbered = match &o.numprocesses {
        Some(n) => !same(n.as_str(), "0"),
        None => false,
    };
    let action = if o.is_worker || numbered || o.dist_load || o.has_tx {
        Action::RegisterXdistMarkers
    } else {
        Action::Configure
    };
    Machine { action, errors: 0, collected: 0, items: 0, deselected: 0, replaced: false }
}

fn end(code: i32, notice: Notice, unconfigure: bool) -> (r: Action)
    ensures
        r == stop(code, notice, unconfigure),
{
    Action::Stop { code, notice, unconfigure }
}

fn fail() -> (r: Action)
    ensures
        r == broken(),
{
    end(INTERNAL_ERROR, Notice::InternalError, false)
}

fn configured(o: &SessionOptions, e: Event) -> (r: Action)
    ensures
        r == after_configure(*o, e),
{
    match e {
        Event::Done => {
            let rejected = match &o.doctest_report {
                Some(report) => check_doctest_report(report.as_str()).is_some(),
                None => false,
            };
            if rejected {
                end(USAGE_ERROR, Notice::DoctestReport, false)
            } else if o.is_worker {
                Action::RunWorker
            } else {
                Action::OpenCache
            }
        },
        Event::UsageError => end(USAGE_ERROR, Notice::ErrorLine, false),
        _ => fail(),
    }
}

fn collected(o: &SessionOptions, e: Event) -> (r: Action)
    ensures
        r == after_collect(*o, e),
{
    match e {
        Event::Collected { errors, claimed } => match claimed {
            Some(code) => end(code, Notice::SummaryLine, true),
            None => if o.markers || o.help {
                end(OK, Notice::Silent, true)
            } else {
                Action::HandleCollectionErrors
            },
        },
        _ => Action::ShowCollectFailure,
    }
}

fn counted(o: &SessionOptions) -> (r: Action)
    ensures
        r == after_count(*o),
{
    if o.fixtures {
        Action::ShowFixtures
    } else if o.fixtures_per_test {
        Action::ShowFixturesPerTest
    } else if o.collect_only {
        Action::CollectOnly
    } else {
        Action::RunLoopHook
    }
}

fn assigned(m: &Machine, e: Event) -> (r: Action)
    ensures
        r == after_workers(*m, e),
{
    match e {
        Event::Workers(Some(n)) => if m.replaced {
            Action::CheckRun
        } else {
            Action::RunDist(n)
        },
        Event::Workers(None) => if m.items == 0 {
            Action::NoTests
        } else if m.replaced {
            Action::CheckRun
        } else {
            Action::RunItems
        },
        _ => fail(),
    }
}

fn end_with(e: Event) -> (r: Action)
    ensures
        r == code_end(e),
{
    match e {
        Event::Code(code) => end(code, Notice::Silent, false),
        _ => fail(),
    }
}

fn ran(e: Event) -> (r: Action)
    ensures
        r == after_run(e),
{
    match e {
        Event::RunEnded(Some(code)) => end(code, Notice::Unfinished, true),
        Event::RunEnded(None) => Action::FinishSession,
        _ => fail(),
    }
}

/// The action after this one.
fn choose_action(o: &SessionOptions, m: &Machine, e: Event) -> (r: Action)
    ensures
        r == next_action(*o, *m, e),
{
    let done = match e {
        Event::Done => true,
        _ => false,
    };
    let has_count = match e {
        Event::Count(_) => true,
        _ => false,
    };
    match m.action {
        Action::RegisterXdistMarkers => Action::Configure,
        Action::Configure => configured(o, e),
        Action::RunWorker | Action::ShowCollectFailure | Action::CollectOnly | Action::NoTests
        | Action::FinishSession => end_with(e),
        Action::OpenCache => if o.cache_show {
            Action::ShowCache
        } else {
            Action::Collect
        },
        Action::ShowCache => if done {
            end(OK, Notice::Silent, false)
        } else {
            fail()
        },
        Action::Collect => collected(o, e),
        Action::HandleCollectionErrors => match e {
            Event::ErrorsHandled { code, not_found } => if not_found {
                end(USAGE_ERROR, Notice::Silent, false)
            } else {
                match code {
                    Some(code) => end(code, Notice::Silent, false),
                    None => Action::CheckStrictMarkers,
                }
            },
            _ => fail(),
        },
        Action::CheckStrictMarkers => if done {
            Action::CountItems
        } else {
            end(USAGE_ERROR, Notice::Message, false)
        },
        Action::CountItems => if has_count {
            Action::Deselect
        } else {
            fail()
        },
        Action::Deselect => if done {
            Action::CheckPendingHooks
        } else {
            fail()
        },
        Action::CheckPendingHooks => if done {
            Action::ModifyItems
        } else {
            end(INTERNAL_ERROR, Notice::InternalLines, false)
        },
        Action::ModifyItems => match e {
            Event::Done => Action::CacheModifyItems,
            Event::UsageError => end(USAGE_ERROR, Notice::ErrorLine, false),
            _ => end(INTERNAL_ERROR, Notice::InternalLines, false),
        },
        Action::CacheModifyItems => Action::DeferredWrappers,
        Action::DeferredWrappers => if done {
            Action::FireDeselected
        } else {
            fail()
        },
        Action::FireDeselected => if has_count {
            Action::FinishCollection
        } else {
            fail()
        },
        Action::FinishCollection => if (o.numprocesses.is_some() || o.dist_load || o.has_tx)
            && !o.collect_only {
            counted(o)
        } else {
            Action::PrintCollectionCount
        },
        Action::PrintCollectionCount => counted(o),
        Action::ShowFixtures | Action::ShowFixturesPerTest => end(OK, Notice::Silent, true),
        Action::RunLoopHook => Action::ResolveWorkers,
        Action::ResolveWorkers => assigned(m, e),
        Action::RunDist(_) | Action::RunItems | Action::CheckRun => ran(e),
        Action::Stop { code, notice, unconfigure } => end(code, notice, unconfigure),
    }
}

/// The state after what came of the current action.
pub fn next(o: &SessionOptions, m: &Machine, e: Event) -> (r: Machine)
    ensures
        r == next_state(*o, *m, e),
{
    let mut r: Machine = *m;
    r.action = choose_action(o, m, e);
    match (m.action, e) {
        (Action::Collect, Event::Collected { errors, claimed }) => {
            r.errors = errors;
        },
        (Action::CountItems, Event::Count(n)) => {
            r.collected = n;
        },
        (Action::FireDeselected, Event::Count(n)) => {
            r.items = n;
            r.deselected = if m.collected > n {
                m.collected - n
            } else {
                0
            };
        },
        (Action::RunLoopHook, Event::LoopReplaced(b)) => {
            r.replaced = b;
        },
        _ => {},
    }
    r
}

/// What `--cache-show` shows: everything, unless it says.
pub fn cache_glob(given: &str) -> (r: String)
    ensures
        r@ == (if given@.len() == 0 {
            "*"@
        } else {
            given@
        }),
{
    if given.is_empty() {
        "*".to_owned()
    } else {
        given.to_owned()
    }
}

/// The number of skips that were reported at collection time.
pub fn collect_skips(reports: &[TestReport]) -> (r: usize)
    ensures
        r == setup_skips(reports@, reports@.len() as int),
{
    let n: usize = reports.len();
    let mut count: usize = 0;
    let mut i: usize = 0;
    while i < n
        invariant
            i <= n == reports@.len(),
            count <= i,
            count == setup_skips(reports@, i as int),
        decreases n - i,
    {
        if reports[i].phase == Phase::Setup && reports[i].outcome == Outcome::Skipped {
            count += 1;
        }
        i += 1;
    }
    count
}

// ---------------------------------------------------------------------------
// Laws
// ---------------------------------------------------------------------------

/// How far an action lies from the start of a session.
pub open spec fn distance(a: Action) -> int {
    match a {
        Action::RegisterXdistMarkers => 0,
        Action::Configure => 1,
        Action::RunWorker => 2,
        Action::OpenCache => 2,
        Action::ShowCache => 3,
        Action::Collect => 3,
        Action::ShowCollectFailure => 4,
        Action::HandleCollectionErrors => 4,
        Action::CheckStrictMarkers => 5,
        Action::CountItems => 6,
        Action::Deselect => 7,
        Action::CheckPendingHooks => 8,
        Action::ModifyItems => 9,
        Action::CacheModifyItems => 10,
        Action::DeferredWrappers => 11,
        Action::FireDeselected => 12,
        Action::FinishCollection => 13,
        Action::PrintCollectionCount => 14,
        Action::ShowFixtures => 15,
        Action::ShowFixturesPerTest => 15,
        Action::CollectOnly => 15,
        Action::RunLoopHook => 15,
        Action::ResolveWorkers => 16,
        Action::RunDist(_) => 17,
        Action::RunItems => 17,
        Action::CheckRun => 17,
        Action::NoTests => 17,
        Action::FinishSession => 18,
        Action::Stop { code, notice, unconfigure } => 19,
    }
}

/// A session moves forward with every event and never comes back to an action,
/// so that it ends after a bounded number of actions.
pub proof fn session_moves_forward(o: SessionOptions, m: Machine, e: Event)
    requires
        !(m.action is Stop),
    ensures
        distance(next_state(o, m, e).action) > distance(m.action),
        distance(next_state(o, m, e).action) <= 19,
{
}

/// An exception in one of the actions that must succeed ends the session with
/// a failing exit code.
pub proof fn errors_end_the_session(o: SessionOptions, m: Machine, e: Event)
    requires
        e == Event::Error || e == Event::UsageError,
        m.action == Action::Configure || m.action == Action::ShowCache || m.action
            == Action::CheckStrictMarkers || m.action == Action::Deselect || m.action
            == Action::CheckPendingHooks || m.action == Action::ModifyItems || m.action
            == Action::DeferredWrappers || m.action == Action::FireDeselected,
    ensures
        next_state(o, m, e).action matches Action::Stop { code, .. } && code != 0,
{
}

/// Items are only run in a session that has some, and never under
/// `--collect-only`, `--fixtures` or `--fixtures-per-test`.
pub proof fn items_run_only_when_asked(o: SessionOptions, m: Machine, e: Event)
    ensures
        next_state(o, m, e).action == Action::RunItems ==> m.items > 0 && !m.replaced && m.action
            == Action::ResolveWorkers,
        next_state(o, m, e).action == Action::RunLoopHook ==> !o.collect_only && !o.fixtures
            && !o.fixtures_per_test,
{
}

/// A session starts with the markers of the workers where it is one, or may have
/// some, and else with configuring; nothing is counted yet.
pub proof fn sessions_start_empty(o: SessionOptions)
    ensures
        ({
            let m = first_state(o);
            let workers = o.is_worker || o.dist_load || o.has_tx || o.numprocesses is Some
                && o.numprocesses->0@ != "0"@;
            &&& workers ==> m.action == Action::RegisterXdistMarkers
            &&& !workers ==> m.action == Action::Configure
            &&& m.errors == 0 && m.collected == 0 && m.items == 0 && m.deselected == 0
            &&& !m.replaced
        }),
{
}

/// The action after `a` when `e` has come of it.
pub open spec fn after(o: SessionOptions, m: Machine, a: Action, e: Event) -> Action {
    next_state(o, (Machine { action: a, ..m }), e).action
}

/// The order of a session up to the end of its collection, where nothing goes
/// wrong.
pub proof fn sessions_collect_in_order(o: SessionOptions, m: Machine, n: usize)
    ensures
        after(o, m, Action::RegisterXdistMarkers, Event::Done) == Action::Configure,
        o.doctest_report is None && o.is_worker ==> after(o, m, Action::Configure, Event::Done)
            == Action::RunWorker,
        o.doctest_report is None && !o.is_worker ==> after(o, m, Action::Configure, Event::Done)
            == Action::OpenCache,
        o.cache_show ==> after(o, m, Action::OpenCache, Event::Done) == Action::ShowCache,
        !o.cache_show ==> after(o, m, Action::OpenCache, Event::Done) == Action::Collect,
        after(o, m, Action::CheckStrictMarkers, Event::Done) == Action::CountItems,
        after(o, m, Action::CountItems, Event::Count(n)) == Action::Deselect,
        after(o, m, Action::Deselect, Event::Done) == Action::CheckPendingHooks,
        after(o, m, Action::CheckPendingHooks, Event::Done) == Action::ModifyItems,
        after(o, m, Action::ModifyItems, Event::Done) == Action::CacheModifyItems,
        after(o, m, Action::CacheModifyItems, Event::Done) == Action::DeferredWrappers,
        after(o, m, Action::DeferredWrappers, Event::Done) == Action::FireDeselected,
        after(o, m, Action::FireDeselected, Event::Count(n)) == Action::FinishCollection,
{
}

/// What follows a collection: a plugin that took the run over decides the code;
/// `--markers` and `--help` are done; an argument that was not found, or errors that
/// end the session, end it; else the marks are checked.
pub proof fn collections_are_followed_up(
    o: SessionOptions,
    m: Machine,
    errors: usize,
    code: i32,
)
    ensures
        ({
            let claimed = Event::Collected { errors, claimed: Some(code) };
            let plain = Event::Collected { errors, claimed: None };
            let shown = o.markers || o.help;
            &&& after(o, m, Action::Collect, claimed) == stop(code, Notice::SummaryLine, true)
            &&& shown ==> after(o, m, Action::Collect, plain) == stop(0, Notice::Silent, true)
            &&& !shown ==> after(o, m, Action::Collect, plain) == Action::HandleCollectionErrors
            &&& after(o, m, Action::Collect, Event::Error) == Action::ShowCollectFailure
        }),
        after(o, m, Action::ShowCollectFailure, Event::Code(code)) == stop(
            code,
            Notice::Silent,
            false,
        ),
        after(
            o,
            m,
            Action::HandleCollectionErrors,
            (Event::ErrorsHandled { code: None, not_found: true }),
        ) == stop(4, Notice::Silent, false),
        after(
            o,
            m,
            Action::HandleCollectionErrors,
            (Event::ErrorsHandled { code: Some(code), not_found: false }),
        ) == stop(code, Notice::Silent, false),
        after(
            o,
            m,
            Action::HandleCollectionErrors,
            (Event::ErrorsHandled { code: None, not_found: false }),
        ) == Action::CheckStrictMarkers,
{
}

/// What is done with the items: they are counted, unless workers will; the fixtures
/// or the items are only listed where that is asked for; else they are run.
pub proof fn items_are_listed_or_run(o: SessionOptions, m: Machine)
    ensures
        ({
            let next = if o.fixtures {
                Action::ShowFixtures
            } else if o.fixtures_per_test {
                Action::ShowFixturesPerTest
            } else if o.collect_only {
                Action::CollectOnly
            } else {
                Action::RunLoopHook
            };
            let counted = o.collect_only || o.numprocesses is None && !o.dist_load && !o.has_tx;
            &&& counted ==> after(o, m, Action::FinishCollection, Event::Done)
                == Action::PrintCollectionCount
            &&& !counted ==> after(o, m, Action::FinishCollection, Event::Done) == next
            &&& after(o, m, Action::PrintCollectionCount, Event::Done) == next
        }),
        after(o, m, Action::ShowFixtures, Event::Done) == stop(0, Notice::Silent, true),
        after(o, m, Action::ShowFixturesPerTest, Event::Done) == stop(0, Notice::Silent, true),
        after(o, m, Action::RunLoopHook, Event::Done) == Action::ResolveWorkers,
{
}

/// How the items are run: by workers where there are any; not at all where there is
/// none to run; by a plugin where one has replaced the loop; else here. A run that
/// did not finish ends the session with its code, any other is summed up.
pub proof fn items_are_run_by_someone(o: SessionOptions, m: Machine, n: usize, code: i32)
    ensures
        ({
            let by_workers = after(o, m, Action::ResolveWorkers, Event::Workers(Some(n)));
            let alone = after(o, m, Action::ResolveWorkers, Event::Workers(None));
            &&& m.replaced ==> by_workers == Action::CheckRun
            &&& !m.replaced ==> by_workers == Action::RunDist(n)
            &&& m.items == 0 ==> alone == Action::NoTests
            &&& m.items > 0 && m.replaced ==> alone == Action::CheckRun
            &&& m.items > 0 && !m.replaced ==> alone == Action::RunItems
        }),
        after(o, m, Action::RunItems, Event::RunEnded(None)) == Action::FinishSession,
        after(o, m, Action::RunDist(n), Event::RunEnded(None)) == Action::FinishSession,
        after(o, m, Action::CheckRun, Event::RunEnded(None)) == Action::FinishSession,
        after(o, m, Action::RunItems, Event::RunEnded(Some(code))) == stop(
            code,
            Notice::Unfinished,
            true,
        ),
        after(o, m, Action::RunDist(n), Event::RunEnded(Some(code))) == stop(
            code,
            Notice::Unfinished,
            true,
        ),
        after(o, m, Action::NoTests, Event::Code(code)) == stop(code, Notice::Silent, false),
        after(o, m, Action::FinishSession, Event::Code(code)) == stop(code, Notice::Silent, false),
        after(o, m, Action::CollectOnly, Event::Code(code)) == stop(code, Notice::Silent, false),
        after(o, m, Action::RunWorker, Event::Code(code)) == stop(code, Notice::Silent, false),
{
}

/// What an error ends a session with: 4 for wrong usage and for marks that nobody
/// registered, 3 for anything unforeseen, and a word on it in each case.
pub proof fn errors_have_codes(o: SessionOptions, m: Machine)
    ensures
        after(o, m, Action::Configure, Event::UsageError) == stop(4, Notice::ErrorLine, false),
        after(o, m, Action::Configure, Event::Error) == stop(3, Notice::InternalError, false),
        o.doctest_report is Some && doctest_error(o.doctest_report->0@) is Some ==> after(
            o,
            m,
            Action::Configure,
            Event::Done,
        ) == stop(4, Notice::DoctestReport, false),
        after(o, m, Action::ShowCache, Event::Done) == stop(0, Notice::Silent, false),
        after(o, m, Action::CheckStrictMarkers, Event::Error) == stop(4, Notice::Message, false),
        after(o, m, Action::CheckPendingHooks, Event::Error) == stop(
            3,
            Notice::InternalLines,
            false,
        ),
        after(o, m, Action::ModifyItems, Event::UsageError) == stop(4, Notice::ErrorLine, false),
        after(o, m, Action::ModifyItems, Event::Error) == stop(3, Notice::InternalLines, false),
        after(o, m, Action::Deselect, Event::Error) == stop(3, Notice::InternalError, false),
        after(o, m, Action::DeferredWrappers, Event::Error) == stop(
            3,
            Notice::InternalError,
            false,
        ),
{
}

/// What a session remembers: the errors and the items of the collection, the items
/// that are left and how many were deselected, and whether a plugin replaced the
/// loop. An action changes no other of these.
pub proof fn sessions_remember(o: SessionOptions, m: Machine, e: Event, n: usize, b: bool)
    ensures
        ({
            let collected = next_state(
                o,
                (Machine { action: Action::Collect, ..m }),
                (Event::Collected { errors: n, claimed: None }),
            );
            let counted = next_state(
                o,
                (Machine { action: Action::CountItems, ..m }),
                Event::Count(n),
            );
            let left = next_state(
                o,
                (Machine { action: Action::FireDeselected, ..m }),
                Event::Count(n),
            );
            let looped = next_state(
                o,
                (Machine { action: Action::RunLoopHook, ..m }),
                Event::LoopReplaced(b),
            );
            &&& collected.errors == n
            &&& counted.collected == n
            &&& left.items == n
            &&& m.collected >= n ==> left.deselected == m.collected - n
            &&& m.collected < n ==> left.deselected == 0
            &&& looped.replaced == b
        }),
        m.action != Action::Collect ==> next_state(o, m, e).errors == m.errors,
        m.action != Action::CountItems ==> next_state(o, m, e).collected == m.collected,
        m.action != Action::FireDeselected ==> next_state(o, m, e).items == m.items && next_state(
            o,
            m,
            e,
        ).deselected == m.deselected,
        m.action != Action::RunLoopHook ==> next_state(o, m, e).replaced == m.replaced,
{
}

/// A report counts as a skip of the collection when it is a skip in the setup, and
/// each such report counts once.
pub proof fn setup_skips_are_counted(reports: Seq<TestReport>, n: int)
    requires
        0 < n <= reports.len(),
    ensures
        setup_skips(reports, 0) == 0,
        reports[n - 1].phase == Phase::Setup && reports[n - 1].outcome == Outcome::Skipped
            ==> setup_skips(reports, n) == setup_skips(reports, n - 1) + 1,
        reports[n - 1].phase != Phase::Setup || reports[n - 1].outcome != Outcome::Skipped
            ==> setup_skips(reports, n) == setup_skips(reports, n - 1),
{
}

} // verus!
