//! Test reports and exit codes.

use vstd::prelude::*;

verus! {

/// All tests passed.
pub const OK: i32 = 0;
/// Some tests failed.
pub const TESTS_FAILED: i32 = 1;
/// The session was interrupted.
pub const INTERRUPTED: i32 = 2;
/// The runner itself failed.
pub const INTERNAL_ERROR: i32 = 3;
/// The command line was wrong.
pub const USAGE_ERROR: i32 = 4;
/// No test was collected.
pub const NO_TESTS_COLLECTED: i32 = 5;

#[derive(Debug, Clone, Copy, PartialEq, Eq, Structural)]
pub enum Phase {
    Setup,
    Call,
    Teardown,
}

#[derive(Debug, Clone, Copy, PartialEq, Eq, Structural)]
pub enum Outcome {
    Passed,
    Failed,
    Skipped,
    XFailed,
    XPassed,
}

/// A titled section of captured output.
#[derive(Debug)]
pub struct Section {
    pub title: String,
    pub text: String,
}

/// How long a phase took.
#[derive(Debug, Clone, Copy, PartialEq, Eq, Structural)]
pub struct Elapsed {
    pub secs: u64,
    pub nanos: u32,
}

/// The report on one phase of one test.
#[derive(Debug)]
pub struct TestReport {
    pub nodeid: String,
    pub phase: Phase,
    pub outcome: Outcome,
    pub duration: Elapsed,
    pub longrepr: Option<String>,
    pub location: Option<String>,
    pub subtest_desc: Option<String>,
    pub sections: Vec<Section>,
    pub rerun: bool,
    pub xfail_longrepr: Option<String>,
    pub reprcrash_message: Option<String>,
    pub head_line: Option<String>,
}

/// A module that was skipped as a whole.
#[derive(Debug)]
pub struct SkippedModule {
    pub nodeid: String,
    pub reason: String,
    /// Where the skip was raised.
    pub location: String,
}

/// The text of an optional string, "" without one.
pub open spec fn text_or_empty(s: Option<String>) -> Seq<char> {
    match s {
        Some(s) => s@,
        None => seq![],
    }
}

/// A report made at collection time, of a file: it took no time and has no
/// captured output.
pub open spec fn collection_report(
    r: TestReport,
    nodeid: Seq<char>,
    outcome: Outcome,
    longrepr: Seq<char>,
) -> bool {
    &&& r.nodeid@ == nodeid
    &&& r.phase == Phase::Setup
    &&& r.outcome == outcome
    &&& r.duration == (Elapsed { secs: 0, nanos: 0 })
    &&& r.longrepr matches Some(text) && text@ == longrepr
    &&& r.subtest_desc is None
    &&& r.sections@.len() == 0
    &&& !r.rerun
    &&& r.xfail_longrepr is None
    &&& r.head_line is None
}

/// A report of the collection is one of the setup that took no time, with the outcome
/// and the text that are given and nothing else.
pub proof fn collection_reports_are_bare(
    r: TestReport,
    nodeid: Seq<char>,
    outcome: Outcome,
    text: Seq<char>,
)
    requires
        collection_report(r, nodeid, outcome, text),
    ensures
        r.nodeid@ == nodeid,
        r.outcome == outcome,
        r.phase == Phase::Setup,
        r.longrepr is Some && r.longrepr->0@ == text,
        r.duration.secs == 0 && r.duration.nanos == 0,
        r.subtest_desc is None && r.head_line is None && r.xfail_longrepr is None,
        r.sections@.len() == 0 && !r.rerun,
{
}

} // verus!
