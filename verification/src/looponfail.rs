//! `-f`: the session is run again whenever a file changes.

use vstd::prelude::*;

use crate::banner::{banner_of, center_with};
use crate::report::{INTERNAL_ERROR, TESTS_FAILED};
use crate::terminal::line::{emit, no_lines, shown, Line, LineView, Style};
use crate::text::{same, starts_with, texts, texts_push};

verus! {

/// A watched file.
pub struct FileStamp {
    pub path: String,
    /// When it was last modified, in nanoseconds since the epoch.
    pub modified: i128,
    pub size: u64,
}

/// The state of the watched files.
pub struct Snapshot {
    pub files: Vec<FileStamp>,
}

/// What to do with an entry of a watched directory.
#[derive(Debug, Clone, Copy, PartialEq, Eq, Structural)]
pub enum Watch {
    /// Leave it out.
    Skip,
    /// Watch the files in it.
    Descend,
    /// Watch it.
    Record,
}

/// What follows on a run.
#[derive(Debug, Clone, Copy, PartialEq, Eq, Structural)]
pub enum LoopStep {
    /// Run again at once.
    Rerun,
    /// Wait for a change, then run again; `failing` where tests failed.
    Wait { failing: bool },
    /// End the loop with this exit code.
    Exit { code: i32 },
}

/// What became of a run.
#[derive(Debug, Clone, Copy, PartialEq, Eq, Structural)]
pub enum RunOutcome {
    /// It could not be started.
    NotStarted,
    /// It ended, with an exit code unless it was killed.
    Ended(Option<i32>),
}

/// The modification time and the size of a file.
pub struct StampView {
    pub modified: int,
    pub size: int,
}

// ---------------------------------------------------------------------------
// Model
// ---------------------------------------------------------------------------

/// An argument that asks for the loop itself.
pub open spec fn asks_for_loop(arg: Seq<char>) -> bool {
    arg == "-f"@ || arg == "--looponfail"@
}

/// The arguments of a run: those that do not ask for the loop.
pub open spec fn run_args(args: Seq<Seq<char>>) -> Seq<Seq<char>>
    decreases args.len(),
{
    if args.len() == 0 {
        seq![]
    } else {
        let before = run_args(args.drop_last());
        if asks_for_loop(args.last()) {
            before
        } else {
            before.push(args.last())
        }
    }
}

/// What follows on a run. Where it fails no more, a whole run is made at once.
pub open spec fn step_after(failed: bool, was_failing: bool) -> LoopStep {
    if !failed && was_failing {
        LoopStep::Rerun
    } else {
        LoopStep::Wait { failing: failed }
    }
}

/// What follows on an outcome: a run that could not be started ends the loop.
pub open spec fn step_on(outcome: RunOutcome, was_failing: bool) -> LoopStep {
    match outcome {
        RunOutcome::NotStarted => LoopStep::Exit { code: INTERNAL_ERROR },
        RunOutcome::Ended(code) => step_after(code == Some(TESTS_FAILED), was_failing),
    }
}

/// The run before failed, as the next step sees it.
pub open spec fn failing_after(step: LoopStep) -> bool {
    match step {
        LoopStep::Rerun => false,
        LoopStep::Wait { failing } => failing,
        LoopStep::Exit { .. } => false,
    }
}

/// A line in bold.
pub open spec fn bold(text: Seq<char>) -> LineView {
    LineView { text, style: Style::Bold }
}

/// What is shown before waiting for a change.
pub open spec fn wait_view(failing: bool, root: Seq<char>) -> Seq<LineView> {
    (if failing {
        seq![bold(banner_of("LOOPONFAILING"@, '#'))]
    } else {
        seq![]
    }) + seq![
        bold(banner_of("waiting for changes"@, '#')),
        crate::terminal::line::plain("### Watching:   "@ + root),
    ]
}

/// The watched files with their stamps; of two stamps of one path the later
/// one counts.
pub open spec fn stamps_of(files: Seq<FileStamp>) -> Map<Seq<char>, StampView>
    decreases files.len(),
{
    if files.len() == 0 {
        Map::empty()
    } else {
        let f = files.last();
        stamps_of(files.drop_last()).insert(
            f.path@,
            StampView { modified: f.modified as int, size: f.size as int },
        )
    }
}

impl View for Snapshot {
    type V = Map<Seq<char>, StampView>;

    open spec fn view(&self) -> Map<Seq<char>, StampView> {
        stamps_of(self.files@)
    }
}

impl Snapshot {
    /// No path is listed twice.
    pub open spec fn wf(&self) -> bool {
        forall|i: int, j: int|
            0 <= i < j < self.files@.len() ==> (#[trigger] self.files@[i]).path@ != (
            #[trigger] self.files@[j]).path@
    }

    /// No files.
    pub fn new() -> (r: Snapshot)
        ensures
            r.wf(),
            r@ == Map::<Seq<char>, StampView>::empty(),
    {
        Snapshot { files: Vec::new() }
    }

    /// Takes down the state of a file.
    pub fn insert(&mut self, path: String, modified: i128, size: u64)
        requires
            old(self).wf(),
        ensures
            final(self).wf(),
            final(self)@ == old(self)@.insert(
                path@,
                StampView { modified: modified as int, size: size as int },
            ),
    {
        let ghost before = self.files@;
        match self.find(path.as_str()) {
            Some(k) => {
                self.files.set(k, FileStamp { path, modified, size });
                proof {
                    replaced(before, k as int, self.files@[k as int]);
                }
            },
            None => {
                proof {
                    paths_in(before, path@);
                }
                self.files.push(FileStamp { path, modified, size });
                assert(self.files@.drop_last() =~= before);
            },
        }
    }

    /// Where a path is listed.
    fn find(&self, path: &str) -> (r: Option<usize>)
        ensures
            match r {
                Some(k) => k < self.files@.len() && self.files@[k as int].path@ == path@,
                None => forall|i: int|
                    0 <= i < self.files@.len() ==> (#[trigger] self.files@[i]).path@ != path@,
            },
    {
        let n: usize = self.files.len();
        let mut i: usize = 0;
        while i < n
            invariant
                n == self.files@.len(),
                i <= n,
                forall|k: int| 0 <= k < i ==> (#[trigger] self.files@[k]).path@ != path@,
            decreases n - i,
        {
            if same(self.files[i].path.as_str(), path) {
                return Some(i);
            }
            i += 1;
        }
        None
    }

    /// Whether a file was added, removed or changed.
    pub fn differs(&self, other: &Snapshot) -> (r: bool)
        requires
            self.wf(),
            other.wf(),
        ensures
            r == (self@ != other@),
    {
        let n: usize = self.files.len();
        proof {
            stamp_count(self.files@);
            stamp_count(other.files@);
        }
        if n != other.files.len() {
            return true;
        }
        let mut i: usize = 0;
        while i < n
            invariant
                n == self.files@.len(),
                n == other.files@.len(),
                i <= n,
                self.wf(),
                other.wf(),
                forall|k: int|
                    0 <= k < i ==> other@.contains_pair(
                        (#[trigger] self.files@[k]).path@,
                        stamp_at(self.files@, k),
                    ),
            decreases n - i,
        {
            let ghost path = self.files@[i as int].path@;
            let found = other.find(self.files[i].path.as_str());
            proof {
                stamp_of_entry(self.files@, i as int);
                paths_in(other.files@, path);
            }
            match found {
                Some(k) => {
                    proof {
                        stamp_of_entry(other.files@, k as int);
                    }
                    if self.files[i].modified != other.files[k].modified || self.files[i].size
                        != other.files[k].size {
                        assert(self@[path] != other@[path]);
                        return true;
                    }
                },
                None => {
                    assert(self@.dom().contains(path) && !other@.dom().contains(path));
                    return true;
                },
            }
            i += 1;
        }
        proof {
            same_stamps(self.files@, other.files@);
        }
        false
    }
}

/// The stamp of an entry.
pub open spec fn stamp_at(files: Seq<FileStamp>, i: int) -> StampView {
    StampView { modified: files[i].modified as int, size: files[i].size as int }
}

/// No path is listed twice.
pub open spec fn distinct_paths(files: Seq<FileStamp>) -> bool {
    forall|i: int, j: int|
        0 <= i < j < files.len() ==> (#[trigger] files[i]).path@ != (#[trigger] files[j]).path@
}

proof fn paths_in(files: Seq<FileStamp>, path: Seq<char>)
    ensures
        stamps_of(files).dom().contains(path) <==> exists|i: int|
            0 <= i < files.len() && (#[trigger] files[i]).path@ == path,
    decreases files.len(),
{
    if files.len() > 0 {
        let rest = files.drop_last();
        paths_in(rest, path);
        if exists|i: int| 0 <= i < rest.len() && (#[trigger] rest[i]).path@ == path {
            let i = choose|i: int| 0 <= i < rest.len() && (#[trigger] rest[i]).path@ == path;
            assert(files[i].path@ == path);
        }
        if exists|i: int| 0 <= i < files.len() && (#[trigger] files[i]).path@ == path {
            let i = choose|i: int| 0 <= i < files.len() && (#[trigger] files[i]).path@ == path;
            if i < rest.len() {
                assert(rest[i].path@ == path);
            }
        }
        if files.last().path@ == path {
            assert(files[files.len() - 1].path@ == path);
        }
    }
}

proof fn stamp_of_entry(files: Seq<FileStamp>, i: int)
    requires
        distinct_paths(files),
        0 <= i < files.len(),
    ensures
        stamps_of(files).contains_pair(files[i].path@, stamp_at(files, i)),
    decreases files.len(),
{
    if i < files.len() - 1 {
        let rest = files.drop_last();
        stamp_of_entry(rest, i);
        assert(rest[i] == files[i]);
        assert(files[i].path@ != files[files.len() - 1].path@);
    }
}

proof fn replaced(files: Seq<FileStamp>, k: int, new: FileStamp)
    requires
        0 <= k < files.len(),
        distinct_paths(files),
        new.path@ == files[k].path@,
    ensures
        distinct_paths(files.update(k, new)),
        stamps_of(files.update(k, new)) == stamps_of(files).insert(
            new.path@,
            StampView { modified: new.modified as int, size: new.size as int },
        ),
    decreases files.len(),
{
    let after = files.update(k, new);
    assert forall|i: int, j: int| 0 <= i < j < after.len() implies (#[trigger] after[i]).path@ != (
    #[trigger] after[j]).path@ by {
        assert(files[i].path@ != files[j].path@);
    }
    let rest = files.drop_last();
    if k == files.len() - 1 {
        assert(after.drop_last() =~= rest);
        assert(stamps_of(after) =~= stamps_of(files).insert(
            new.path@,
            StampView { modified: new.modified as int, size: new.size as int },
        ));
    } else {
        replaced(rest, k, new);
        assert(after.drop_last() =~= rest.update(k, new));
        assert(files[k].path@ != files[files.len() - 1].path@);
        assert(stamps_of(after) =~= stamps_of(files).insert(
            new.path@,
            StampView { modified: new.modified as int, size: new.size as int },
        ));
    }
}

proof fn stamp_count(files: Seq<FileStamp>)
    requires
        distinct_paths(files),
    ensures
        stamps_of(files).dom().finite(),
        stamps_of(files).dom().len() == files.len(),
    decreases files.len(),
{
    if files.len() > 0 {
        let rest = files.drop_last();
        stamp_count(rest);
        paths_in(rest, files.last().path@);
        if stamps_of(rest).dom().contains(files.last().path@) {
            let i = choose|i: int|
                0 <= i < rest.len() && (#[trigger] rest[i]).path@ == files.last().path@;
            assert(files[i].path@ != files[files.len() - 1].path@);
        }
        assert(stamps_of(files).dom() =~= stamps_of(rest).dom().insert(files.last().path@));
    } else {
        assert(stamps_of(files).dom() =~= Set::empty());
    }
}

/// Lists of as many stamps, all of one in the other, are the same.
proof fn same_stamps(a: Seq<FileStamp>, b: Seq<FileStamp>)
    requires
        distinct_paths(a),
        distinct_paths(b),
        a.len() == b.len(),
        forall|k: int|
            0 <= k < a.len() ==> stamps_of(b).contains_pair(
                (#[trigger] a[k]).path@,
                stamp_at(a, k),
            ),
    ensures
        stamps_of(a) == stamps_of(b),
{
    stamp_count(a);
    stamp_count(b);
    let am = stamps_of(a);
    let bm = stamps_of(b);
    assert forall|p: Seq<char>| am.dom().contains(p) implies bm.contains_pair(p, am[p]) by {
        paths_in(a, p);
        let k = choose|k: int| 0 <= k < a.len() && (#[trigger] a[k]).path@ == p;
        stamp_of_entry(a, k);
    }
    assert(am.dom().subset_of(bm.dom()));
    vstd::set_lib::lemma_subset_equality(am.dom(), bm.dom());
    assert(am =~= bm);
}

// ---------------------------------------------------------------------------
// Executable functions
// ---------------------------------------------------------------------------

/// The arguments of a run: those of the program without its name and without
/// the ones that ask for the loop.
pub fn child_args(argv: &[String]) -> (r: Vec<String>)
    requires
        argv@.len() >= 1,
    ensures
        texts(r@) == run_args(texts(argv@).skip(1)),
{
    let n: usize = argv.len();
    let ghost args = texts(argv@).skip(1);
    let mut r: Vec<String> = Vec::new();
    assert(texts(r@) =~= seq![]);
    assert(args.take(0) =~= seq![]);
    let mut i: usize = 1;
    while i < n
        invariant
            n == argv@.len(),
            1 <= i <= n,
            args == texts(argv@).skip(1),
            texts(r@) == run_args(args.take(i - 1)),
        decreases n - i,
    {
        assert(args.take(i as int).drop_last() =~= args.take(i - 1));
        assert(args.take(i as int).last() == argv@[i as int]@);
        if !same(argv[i].as_str(), "-f") && !same(argv[i].as_str(), "--looponfail") {
            let arg = argv[i].clone();
            proof {
                texts_push(r@, arg);
            }
            r.push(arg);
        }
        i += 1;
    }
    assert(args.take(n - 1) =~= args);
    r
}

/// Whether a run failed: its tests did, as its exit code says.
pub fn run_failed(code: Option<i32>) -> (r: bool)
    ensures
        r == (code == Some(TESTS_FAILED)),
{
    match code {
        Some(c) => c == TESTS_FAILED,
        None => false,
    }
}

/// What follows on a run.
pub fn after_run(failed: bool, was_failing: bool) -> (r: LoopStep)
    ensures
        r == step_after(failed, was_failing),
{
    if !failed && was_failing {
        LoopStep::Rerun
    } else {
        LoopStep::Wait { failing: failed }
    }
}

/// What follows on an outcome: a run that could not be started ends the loop,
/// and nothing else does.
pub fn after_outcome(outcome: RunOutcome, was_failing: bool) -> (r: LoopStep)
    ensures
        r == step_on(outcome, was_failing),
{
    match outcome {
        RunOutcome::NotStarted => LoopStep::Exit { code: INTERNAL_ERROR },
        RunOutcome::Ended(code) => after_run(run_failed(code), was_failing),
    }
}

/// What is shown before waiting for a change.
pub fn wait_lines(failing: bool, root: &str) -> (r: Vec<Line>)
    ensures
        shown(r@) == wait_view(failing, root@),
{
    let mut out = no_lines();
    if failing {
        emit(&mut out, center_with("LOOPONFAILING", '#'), Style::Bold);
    }
    emit(&mut out, center_with("waiting for changes", '#'), Style::Bold);
    let mut line: String = "### Watching:   ".to_owned();
    line.append(root);
    emit(&mut out, line, Style::Plain);
    assert(shown(out@) =~= wait_view(failing, root@));
    out
}

/// What to do with an entry of a watched directory: hidden ones are left out,
/// and so are compiled files.
pub fn watch_entry(name: &str, is_dir: bool, is_file: bool, extension: Option<&str>) -> (r: Watch)
    ensures
        r == (if "."@.is_prefix_of(name@) {
            Watch::Skip
        } else if is_dir {
            Watch::Descend
        } else if is_file && !(extension matches Some(e) && e@ == "pyc"@) {
            Watch::Record
        } else {
            Watch::Skip
        }),
{
    if starts_with(name, ".") {
        return Watch::Skip;
    }
    if is_dir {
        return Watch::Descend;
    }
    let compiled = match extension {
        Some(e) => same(e, "pyc"),
        None => false,
    };
    if is_file && !compiled {
        Watch::Record
    } else {
        Watch::Skip
    }
}

// ---------------------------------------------------------------------------
// Laws
// ---------------------------------------------------------------------------

/// A run that passes after one that failed is followed by one whole run, and
/// not by another one without a change.
pub proof fn fixed_tests_run_once_more(failed: bool)
    ensures
        step_after(false, true) == LoopStep::Rerun,
        step_after(failed, failing_after(LoopStep::Rerun)) != LoopStep::Rerun,
{
}

/// The loop ends just where a run cannot be started, and then with a failing
/// exit code.
pub proof fn failed_start_ends_the_loop(outcome: RunOutcome, was_failing: bool)
    ensures
        step_on(outcome, was_failing) is Exit <==> outcome is NotStarted,
        step_on(outcome, was_failing) matches LoopStep::Exit { code } ==> code != 0,
{
}

/// No argument of a run asks for the loop, and no other one is lost.
pub proof fn runs_do_not_loop(args: Seq<Seq<char>>, arg: Seq<char>)
    ensures
        run_args(args).contains(arg) <==> args.contains(arg) && !asks_for_loop(arg),
    decreases args.len(),
{
    if args.len() > 0 {
        runs_do_not_loop(args.drop_last(), arg);
        crate::lists::contains_split(args, arg);
        let before = run_args(args.drop_last());
        let after = run_args(args);
        if !asks_for_loop(args.last()) {
            crate::lists::contains_split(after, arg);
            assert(after.drop_last() =~= before);
        }
    }
}

/// A run gets all arguments but those that ask for the loop, in their order.
pub proof fn arguments_are_passed_on(args: Seq<Seq<char>>, last: Seq<char>)
    ensures
        run_args(Seq::empty()).len() == 0,
        last == "-f"@ || last == "--looponfail"@ ==> run_args(args.push(last)) == run_args(args),
        last != "-f"@ && last != "--looponfail"@ ==> run_args(args.push(last)) == run_args(
            args,
        ).push(last),
{
    assert(args.push(last).drop_last() =~= args);
}

/// What follows a run: where tests failed, or none had before, a change is waited for;
/// where failed tests pass now, all run once more; a run that could not be started ends
/// the loop. Only the code for failed tests means that tests failed.
pub proof fn runs_are_followed_up(code: Option<i32>, was_failing: bool)
    ensures
        code == Some(1i32) ==> step_on(RunOutcome::Ended(code), was_failing) == (LoopStep::Wait {
            failing: true,
        }),
        code != Some(1i32) && was_failing ==> step_on(RunOutcome::Ended(code), was_failing)
            == LoopStep::Rerun,
        code != Some(1i32) && !was_failing ==> step_on(RunOutcome::Ended(code), was_failing) == (
        LoopStep::Wait { failing: false }),
        step_on(RunOutcome::NotStarted, was_failing) == (LoopStep::Exit { code: 3 }),
        failing_after((LoopStep::Wait { failing: was_failing })) == was_failing,
        !failing_after(LoopStep::Rerun),
{
}

/// While it waits the loop says so, and what it watches; that tests fail comes first.
pub proof fn waiting_is_told(root: Seq<char>)
    ensures
        ({
            let quiet = wait_view(false, root);
            let failing = wait_view(true, root);
            &&& quiet.len() == 2 && failing.len() == 3
            &&& quiet[0] == bold(banner_of("waiting for changes"@, '#'))
            &&& quiet[1].text == "### Watching:   "@ + root
            &&& failing[0] == bold(banner_of("LOOPONFAILING"@, '#'))
            &&& failing[1] == quiet[0] && failing[2] == quiet[1]
        }),
{
}

/// A snapshot holds for each file when it was changed last and its size: the last
/// entry for a path counts, and another time or size makes a difference.
pub proof fn snapshots_hold_stamps(files: Seq<FileStamp>, f: FileStamp, path: Seq<char>)
    ensures
        stamps_of(files.push(f)).dom().contains(f.path@),
        stamps_of(files.push(f))[f.path@].modified == f.modified,
        stamps_of(files.push(f))[f.path@].size == f.size,
        path != f.path@ ==> (stamps_of(files.push(f)).dom().contains(path) <==> stamps_of(
            files,
        ).dom().contains(path)) && stamps_of(files.push(f))[path] == stamps_of(files)[path],
{
    assert(files.push(f).drop_last() =~= files);
}

} // verus!
