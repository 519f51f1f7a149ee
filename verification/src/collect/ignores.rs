//! Files that are left out of collection: `collect_ignore`,
//! `collect_ignore_glob` and `pytest_ignore_collect`.

use vstd::prelude::*;

use crate::lists::with_name;
use crate::paths::{has_path, is_below, lies_below, paths_of, paths_push, push_path};
use crate::report::{collection_report, Elapsed, Outcome, Phase, TestReport};
use crate::text::texts;

verus! {

/// The directories on which `pytest_ignore_collect` hooks have been called.
pub struct IgnoreWalk {
    /// A hook ignores them.
    pub ignored: Vec<Vec<String>>,
    /// No hook ignores them.
    pub clear: Vec<Vec<String>>,
}

/// What to do about a file.
#[derive(Debug, Clone, Copy, PartialEq, Eq, Structural)]
pub enum WalkStep {
    /// A directory above it is ignored, and so is the file.
    DirIgnored,
    /// Call the hooks on this directory above it.
    AskDir(usize),
    /// Call the hooks on the file.
    AskFile,
}

/// What a `pytest_ignore_collect` hook made of a file.
pub enum Verdict {
    /// No hook ignores it.
    Keep,
    /// A hook ignores it.
    Ignore,
    /// A hook skips it, for a reason.
    Skip(String),
}

// ---------------------------------------------------------------------------
// Model
// ---------------------------------------------------------------------------

/// `collect_ignore` or `collect_ignore_glob` leaves a file out.
pub open spec fn conftest_ignores(
    file: Seq<Seq<char>>,
    ignored: Seq<Seq<Seq<char>>>,
    glob_hits: Seq<bool>,
) -> bool {
    is_below(file, ignored) || glob_hits.contains(true)
}

/// What to do about a file with the directories `chain` above it, nearest
/// first, of which those before `from` have been settled.
pub open spec fn step_of(
    ignored: Seq<Seq<Seq<char>>>,
    clear: Seq<Seq<Seq<char>>>,
    chain: Seq<Seq<Seq<char>>>,
    from: int,
) -> WalkStep
    decreases chain.len() - from,
{
    if from < 0 || from >= chain.len() {
        WalkStep::AskFile
    } else if ignored.contains(chain[from]) {
        WalkStep::DirIgnored
    } else if !clear.contains(chain[from]) {
        WalkStep::AskDir(from as usize)
    } else {
        step_of(ignored, clear, chain, from + 1)
    }
}

// ---------------------------------------------------------------------------
// Executable functions
// ---------------------------------------------------------------------------

/// Whether `collect_ignore` or `collect_ignore_glob` leaves a file out:
/// `ignored` are the paths to leave out, `glob_hits` says of each pattern
/// whether it matches the file.
pub fn left_out(file: &[String], ignored: &[Vec<String>], glob_hits: &[bool]) -> (r: bool)
    ensures
        r == conftest_ignores(texts(file@), paths_of(ignored@), glob_hits@),
{
    if lies_below(file, ignored) {
        return true;
    }
    let n: usize = glob_hits.len();
    let mut i: usize = 0;
    while i < n
        invariant
            n == glob_hits@.len(),
            i <= n,
            forall|k: int| 0 <= k < i ==> !#[trigger] glob_hits@[k],
        decreases n - i,
    {
        if glob_hits[i] {
            assert(glob_hits@[i as int]);
            return true;
        }
        i += 1;
    }
    false
}

impl IgnoreWalk {
    /// A walk on which no hook has been called.
    pub fn new() -> (r: IgnoreWalk)
        ensures
            paths_of(r.ignored@) == Seq::<Seq<Seq<char>>>::empty(),
            paths_of(r.clear@) == Seq::<Seq<Seq<char>>>::empty(),
    {
        let r = IgnoreWalk { ignored: Vec::new(), clear: Vec::new() };
        assert(paths_of(r.ignored@) =~= Seq::<Seq<Seq<char>>>::empty());
        assert(paths_of(r.clear@) =~= Seq::<Seq<Seq<char>>>::empty());
        r
    }

    /// What to do about a file with the directories `chain` above it, nearest
    /// first, of which those before `from` have been settled.
    pub fn step(&self, chain: &[Vec<String>], from: usize) -> (r: WalkStep)
        ensures
            r == step_of(
                paths_of(self.ignored@),
                paths_of(self.clear@),
                paths_of(chain@),
                from as int,
            ),
    {
        let n: usize = chain.len();
        let mut at: usize = from;
        while at < n
            invariant
                n == chain@.len(),
                step_of(
                    paths_of(self.ignored@),
                    paths_of(self.clear@),
                    paths_of(chain@),
                    from as int,
                ) == step_of(
                    paths_of(self.ignored@),
                    paths_of(self.clear@),
                    paths_of(chain@),
                    at as int,
                ),
            decreases n - at,
        {
            assert(paths_of(chain@)[at as int] == texts(chain@[at as int]@));
            if has_path(self.ignored.as_slice(), chain[at].as_slice()) {
                return WalkStep::DirIgnored;
            }
            if !has_path(self.clear.as_slice(), chain[at].as_slice()) {
                return WalkStep::AskDir(at);
            }
            at += 1;
        }
        WalkStep::AskFile
    }

    /// Takes down what the hooks made of a directory.
    pub fn record(&mut self, dir: &[String], ignored: bool)
        ensures
            ignored ==> {
                &&& paths_of(final(self).ignored@) == with_name(
                    paths_of(old(self).ignored@),
                    texts(dir@),
                )
                &&& final(self).clear == old(self).clear
            },
            !ignored ==> {
                &&& paths_of(final(self).clear@) == with_name(
                    paths_of(old(self).clear@),
                    texts(dir@),
                )
                &&& final(self).ignored == old(self).ignored
            },
    {
        if ignored {
            push_path(&mut self.ignored, dir);
        } else {
            push_path(&mut self.clear, dir);
        }
    }
}

/// The report on a file that a `pytest_ignore_collect` hook skipped.
fn ignore_report(nodeid: &str, reason: &str) -> (r: TestReport)
    ensures
        collection_report(r, nodeid@, Outcome::Skipped, reason@),
        r.location is None,
        r.reprcrash_message is None,
{
    TestReport {
        nodeid: nodeid.to_owned(),
        phase: Phase::Setup,
        outcome: Outcome::Skipped,
        duration: Elapsed { secs: 0, nanos: 0 },
        longrepr: Some(reason.to_owned()),
        location: None,
        subtest_desc: None,
        sections: Vec::new(),
        rerun: false,
        xfail_longrepr: None,
        reprcrash_message: None,
        head_line: None,
    }
}

/// Files a file by what the hooks made of it: it is kept, or ignored, or
/// skipped with a report.
pub fn settle_file(
    file: Vec<String>,
    nodeid: &str,
    verdict: &Verdict,
    kept: &mut Vec<Vec<String>>,
    reports: &mut Vec<TestReport>,
)
    ensures
        paths_of(final(kept)@) == paths_of(old(kept)@) + (if *verdict is Keep {
            seq![texts(file@)]
        } else {
            seq![]
        }),
        match *verdict {
            Verdict::Skip(reason) => {
                &&& final(reports)@.len() == old(reports)@.len() + 1
                &&& final(reports)@.drop_last() == old(reports)@
                &&& collection_report(
                    final(reports)@.last(),
                    nodeid@,
                    Outcome::Skipped,
                    reason@,
                )
                &&& final(reports)@.last().location is None
                &&& final(reports)@.last().reprcrash_message is None
            },
            _ => final(reports)@ == old(reports)@,
        },
{
    match verdict {
        Verdict::Keep => {
            proof {
                paths_push(kept@, file);
            }
            kept.push(file);
            assert(paths_of(kept@) =~= paths_of(old(kept)@) + seq![texts(file@)]);
        },
        Verdict::Ignore => {
            assert(paths_of(kept@) =~= paths_of(old(kept)@) + Seq::<Seq<Seq<char>>>::empty());
        },
        Verdict::Skip(reason) => {
            reports.push(ignore_report(nodeid, reason.as_str()));
            assert(reports@.drop_last() =~= old(reports)@);
            assert(paths_of(kept@) =~= paths_of(old(kept)@) + Seq::<Seq<Seq<char>>>::empty());
        },
    }
}

// ---------------------------------------------------------------------------
// Laws
// ---------------------------------------------------------------------------

/// The notes agree with what the hooks say.
pub open spec fn notes_hold(
    ignored: Seq<Seq<Seq<char>>>,
    clear: Seq<Seq<Seq<char>>>,
    says: spec_fn(Seq<Seq<char>>) -> bool,
) -> bool {
    &&& forall|d: Seq<Seq<char>>| #[trigger] ignored.contains(d) ==> says(d)
    &&& forall|d: Seq<Seq<char>>| #[trigger] clear.contains(d) ==> !says(d)
}

/// Taking notes changes no outcome: where the hooks answer the same each time,
/// a file is dropped for a directory just where a hook ignores one above it,
/// and gets to be asked itself just where none does.
pub proof fn notes_change_nothing(
    ignored: Seq<Seq<Seq<char>>>,
    clear: Seq<Seq<Seq<char>>>,
    says: spec_fn(Seq<Seq<char>>) -> bool,
    chain: Seq<Seq<Seq<char>>>,
    from: int,
)
    requires
        0 <= from <= chain.len() <= usize::MAX,
        notes_hold(ignored, clear, says),
        forall|i: int| 0 <= i < from ==> !says(#[trigger] chain[i]),
    ensures
        match step_of(ignored, clear, chain, from) {
            WalkStep::DirIgnored => exists|i: int| 0 <= i < chain.len() && says(#[trigger] chain[i]),
            WalkStep::AskFile => forall|i: int| 0 <= i < chain.len() ==> !says(#[trigger] chain[i]),
            WalkStep::AskDir(k) => {
                &&& from <= k < chain.len()
                &&& forall|i: int| 0 <= i < k ==> !says(#[trigger] chain[i])
            },
        },
    decreases chain.len() - from,
{
    if from < chain.len() {
        if ignored.contains(chain[from]) {
            assert(says(chain[from]));
        } else if clear.contains(chain[from]) {
            notes_change_nothing(ignored, clear, says, chain, from + 1);
        }
    }
}

/// The hooks are not called twice on a directory.
pub proof fn directories_are_asked_once(
    ignored: Seq<Seq<Seq<char>>>,
    clear: Seq<Seq<Seq<char>>>,
    chain: Seq<Seq<Seq<char>>>,
    from: int,
)
    requires
        0 <= from <= chain.len() <= usize::MAX,
    ensures
        step_of(ignored, clear, chain, from) matches WalkStep::AskDir(k) ==> !ignored.contains(
            chain[k as int],
        ) && !clear.contains(chain[k as int]),
    decreases chain.len() - from,
{
    if from < chain.len() && !ignored.contains(chain[from]) && clear.contains(chain[from]) {
        directories_are_asked_once(ignored, clear, chain, from + 1);
    }
}

/// A conftest leaves a file out by naming it or a directory that it lies in, or by
/// a pattern that it matches.
pub proof fn conftests_leave_files_out(
    file: Seq<Seq<char>>,
    ignored: Seq<Seq<Seq<char>>>,
    glob_hits: Seq<bool>,
)
    ensures
        conftest_ignores(file, ignored, glob_hits) <==> (exists|i: int|
            0 <= i < ignored.len() && (#[trigger] ignored[i]).is_prefix_of(file)) || (exists|i: int|
            0 <= i < glob_hits.len() && #[trigger] glob_hits[i]),
{
    if glob_hits.contains(true) {
        let i = choose|i: int| 0 <= i < glob_hits.len() && glob_hits[i] == true;
        assert(glob_hits[i]);
    }
    if exists|i: int| 0 <= i < glob_hits.len() && #[trigger] glob_hits[i] {
        let i = choose|i: int| 0 <= i < glob_hits.len() && #[trigger] glob_hits[i];
        assert(glob_hits[i] == true);
        assert(glob_hits.contains(true));
    }
}

/// The directories of a chain are gone through in order: the first one that is
/// ignored decides, the first one of which nothing is known is asked about, and
/// the file itself comes last.
pub proof fn chains_are_walked_in_order(
    ignored: Seq<Seq<Seq<char>>>,
    clear: Seq<Seq<Seq<char>>>,
    chain: Seq<Seq<Seq<char>>>,
    from: int,
)
    requires
        0 <= from <= chain.len() <= usize::MAX,
    ensures
        match step_of(ignored, clear, chain, from) {
            WalkStep::DirIgnored => exists|k: int|
                from <= k < chain.len() && ignored.contains(#[trigger] chain[k]) && forall|j: int|
                    from <= j < k ==> !ignored.contains(#[trigger] chain[j]) && clear.contains(
                        chain[j],
                    ),
            WalkStep::AskDir(k) => from <= k < chain.len() && !ignored.contains(chain[k as int])
                && !clear.contains(chain[k as int]) && forall|j: int|
                from <= j < k ==> !ignored.contains(#[trigger] chain[j]) && clear.contains(
                    chain[j],
                ),
            WalkStep::AskFile => forall|j: int|
                from <= j < chain.len() ==> !ignored.contains(#[trigger] chain[j])
                    && clear.contains(chain[j]),
        },
    decreases chain.len() - from,
{
    if from < chain.len() {
        if ignored.contains(chain[from]) {
            assert(ignored.contains(chain[from]));
        } else if clear.contains(chain[from]) {
            chains_are_walked_in_order(ignored, clear, chain, from + 1);
            if step_of(ignored, clear, chain, from + 1) is DirIgnored {
                let k = choose|k: int|
                    from + 1 <= k < chain.len() && ignored.contains(#[trigger] chain[k]) && forall|
                        j: int,
                    |
                        from + 1 <= j < k ==> !ignored.contains(#[trigger] chain[j])
                            && clear.contains(chain[j]);
                assert(ignored.contains(chain[k]));
            }
        }
    }
}

} // verus!
