//! What is said and done when collection is over: the count of items, the
//! errors that abort the session, and `--collect-only`.

use vstd::prelude::*;

use crate::banner::{banner_of, center_with};
use crate::item::TestItem;
use crate::lists::{next_step, no_step, staircase};
use crate::nodeid::{file_part_of, file_stands_before_the_rest, parts_of};
use crate::report::{
    collection_report, Elapsed, Outcome, Phase, TestReport, INTERRUPTED, NO_TESTS_COLLECTED, OK,
    TESTS_FAILED, USAGE_ERROR,
};
use crate::session::finish::{stopping_after, stopping_text};
use crate::terminal::line::{emit, no_lines, plain, shown, Line, LineView, Style};
use crate::terminal::summary::{crash_line, message_unless_syntax};
use crate::text::{
    decimal, decimal_of, head_of, opt_text, plural, plural_of, plural_of_counts, same,
};

verus! {

/// The facts that decide how collection errors are handled.
#[derive(Debug, Clone, Copy, PartialEq, Eq, Structural)]
pub struct ErrorFacts {
    /// The number of collection errors.
    pub errors: usize,
    /// `--maxfail`.
    pub maxfail: Option<usize>,
    /// `--continue-on-collection-errors`.
    pub continue_on_errors: bool,
    pub collect_only: bool,
    /// The workers of a distributed run.
    pub workers: Option<usize>,
    /// Nodeids of the command line were not found.
    pub not_found: bool,
    pub no_terminal: bool,
    pub quiet: bool,
    pub no_summary: bool,
    pub custom_reporter: bool,
    pub is_worker: bool,
}

/// What the application does when collection errors abort the session.
#[derive(Debug, Clone, Copy, PartialEq, Eq, Structural)]
pub enum AbortStep {
    /// Apply `-k` and `-m`.
    ApplySelection,
    ReporterCollectionFinish,
    DistBanner(usize),
    CountLine,
    Errors,
    SaveCache,
    JunitXml,
    ShortSummary,
    Banner,
    SummaryLine,
    FireSessionFinish,
    ReporterFinish,
}

/// The facts that decide what is said after collection.
#[derive(Debug, Clone, Copy, PartialEq, Eq, Structural)]
pub struct CountFacts {
    pub custom_reporter: bool,
    pub quiet: bool,
    pub no_terminal: bool,
    pub collect_only: bool,
    /// The number of items that are left to run.
    pub items: usize,
    /// The verbosity of test cases.
    pub verbosity: i32,
}

/// What the application does when the items are counted.
#[derive(Debug, Clone, Copy, PartialEq, Eq, Structural)]
pub enum CountStep {
    ReporterCollectionFinish,
    CountLine,
    /// What the cache says of the items it chose, then of `--stepwise`.
    CacheLines,
    /// What `pytest_report_collectionfinish` hooks say.
    HookLines,
    Blank,
}

/// The facts that decide what `--collect-only` shows.
#[derive(Debug, Clone, Copy, PartialEq, Eq, Structural)]
pub struct CollectOnlyFacts {
    /// The terminal was switched off by an option.
    pub no_terminal: bool,
    pub custom_reporter: bool,
    /// The number of collection errors.
    pub errors: usize,
    pub items: usize,
    /// The verbosity of test cases.
    pub verbosity: i32,
}

/// What the application does for `--collect-only`.
#[derive(Debug, Clone, Copy, PartialEq, Eq, Structural)]
pub enum CollectOnlyStep {
    Items(Layout),
    FireSessionFinish(i32),
    ReporterFinish(i32),
    Errors,
    ShortSummary,
    Banner,
    /// The closing line.
    Summary,
}

/// How `--collect-only` shows the items.
#[derive(Debug, Clone, Copy, PartialEq, Eq, Structural)]
pub enum Layout {
    /// The number of items of each file.
    Counts,
    /// The nodeids.
    Nodeids,
    /// The tree.
    Tree,
    /// The tree with docstrings.
    TreeWithDocs,
}

// ---------------------------------------------------------------------------
// Model
// ---------------------------------------------------------------------------

/// Collection errors used up `--maxfail`.
pub open spec fn budget_spent(f: ErrorFacts) -> bool {
    f.maxfail matches Some(m) && f.errors >= m
}

/// Collection errors abort the session.
pub open spec fn aborts(f: ErrorFacts) -> bool {
    f.errors > 0 && !f.continue_on_errors && !f.collect_only
}

/// The workers of an aborted session; once the budget is spent there are none.
pub open spec fn workers_of(f: ErrorFacts) -> Option<usize> {
    if budget_spent(f) {
        None
    } else {
        f.workers
    }
}

/// The exit code of a session that collection errors aborted.
pub open spec fn abort_code_of(f: ErrorFacts) -> i32 {
    if f.not_found {
        USAGE_ERROR
    } else if budget_spent(f) || workers_of(f) is Some {
        TESTS_FAILED
    } else {
        INTERRUPTED
    }
}

/// What is said of collection errors that interrupted the session.
pub open spec fn interrupted_text(errors: nat) -> Seq<char> {
    "Interrupted: "@ + decimal_of(errors) + " error"@ + plural_of(errors) + " during collection"@
}

/// The banner of an aborted session; a distributed one has none.
pub open spec fn abort_banner_of(f: ErrorFacts) -> Option<Seq<char>> {
    if budget_spent(f) {
        Some(stopping_text(f.errors as nat))
    } else if workers_of(f) is Some {
        None
    } else {
        Some(interrupted_text(f.errors as nat))
    }
}

/// A step that is taken under a condition.
pub open spec fn abort_when(b: bool, step: AbortStep) -> Seq<AbortStep> {
    if b {
        seq![step]
    } else {
        seq![]
    }
}

/// What is done when collection errors abort the session.
pub open spec fn abort_order(f: ErrorFacts) -> Seq<AbortStep> {
    let alone = workers_of(f) is None;
    let terminal = !f.no_terminal;
    abort_when(f.custom_reporter, AbortStep::ApplySelection) + abort_when(
        f.custom_reporter,
        AbortStep::ReporterCollectionFinish,
    ) + (match workers_of(f) {
        Some(n) => abort_when(terminal, AbortStep::DistBanner(n)),
        None => seq![],
    }) + abort_when(terminal && alone && !f.quiet, AbortStep::ApplySelection) + abort_when(
        terminal && alone && !f.quiet,
        AbortStep::CountLine,
    ) + abort_when(terminal && !f.no_summary, AbortStep::Errors) + seq![
        AbortStep::SaveCache,
        AbortStep::JunitXml,
    ] + abort_when(terminal && !f.no_summary, AbortStep::ShortSummary) + abort_when(
        terminal && alone,
        AbortStep::Banner,
    ) + abort_when(terminal, AbortStep::SummaryLine) + abort_when(
        !f.is_worker,
        AbortStep::FireSessionFinish,
    ) + abort_when(!f.is_worker && f.custom_reporter, AbortStep::ReporterFinish)
}

/// A step of the count that is taken under a condition.
pub open spec fn count_when(b: bool, step: CountStep) -> Seq<CountStep> {
    if b {
        seq![step]
    } else {
        seq![]
    }
}

/// A blank line follows the count: only where items are shown below, and not
/// at a negative verbosity of test cases.
pub open spec fn blank_follows(items: nat, collect_only: bool, verbosity: int) -> bool {
    items > 0 && (collect_only || verbosity >= 0)
}

/// What is done when the items are counted.
pub open spec fn count_order(f: CountFacts) -> Seq<CountStep> {
    let shown = !f.quiet && !f.no_terminal;
    count_when(f.custom_reporter, CountStep::ReporterCollectionFinish) + count_when(
        shown,
        CountStep::CountLine,
    ) + count_when(shown, CountStep::CacheLines) + count_when(shown, CountStep::HookLines)
        + count_when(
        shown && blank_follows(f.items as nat, f.collect_only, f.verbosity as int),
        CountStep::Blank,
    )
}

/// What is done for `--collect-only`: the items are shown, then a custom
/// reporter closes the session, or the errors and the closing line do.
pub open spec fn collect_only_order(f: CollectOnlyFacts) -> Seq<CollectOnlyStep> {
    let items = CollectOnlyStep::Items(layout_of(f.verbosity as int));
    if f.no_terminal {
        seq![]
    } else if f.custom_reporter {
        let code = collect_only_code_of(0, f.items as nat);
        seq![items, CollectOnlyStep::FireSessionFinish(code), CollectOnlyStep::ReporterFinish(code)]
    } else if f.errors > 0 {
        seq![
            items,
            CollectOnlyStep::Errors,
            CollectOnlyStep::ShortSummary,
            CollectOnlyStep::Banner,
            CollectOnlyStep::Summary,
        ]
    } else {
        seq![items, CollectOnlyStep::Summary]
    }
}

/// A count with its noun.
pub open spec fn counted_text(n: nat, noun: Seq<char>) -> Seq<char> {
    decimal_of(n) + noun + plural_of(n)
}

/// A part of the count line, where there is something to count.
pub open spec fn part_if(n: nat, text: Seq<char>) -> Seq<char> {
    if n > 0 {
        text
    } else {
        seq![]
    }
}

/// The line that counts the items of an aborted session.
pub open spec fn aborted_count_text(selected: nat, deselected: nat, errors: nat) -> Seq<char> {
    "collected "@ + counted_text(selected + deselected, " item"@) + " / "@ + counted_text(
        errors,
        " error"@,
    ) + part_if(
        deselected,
        " / "@ + decimal_of(deselected) + " deselected / "@ + decimal_of(selected) + " selected"@,
    )
}

/// The line that counts the items.
pub open spec fn count_text(
    collected: nat,
    errors: nat,
    skips: nat,
    deselected: nat,
    items: nat,
    verbose: bool,
) -> Seq<char> {
    (if verbose {
        "collecting ... "@
    } else {
        ""@
    }) + "collected "@ + counted_text(collected, " item"@) + part_if(
        errors,
        " / "@ + counted_text(errors, " error"@),
    ) + part_if(skips, " / "@ + decimal_of(skips) + " skipped"@) + part_if(
        deselected,
        " / "@ + decimal_of(deselected) + " deselected / "@ + decimal_of(items) + " selected"@,
    )
}

/// A file with the number of its items.
pub struct FileCountView {
    pub file: Seq<char>,
    pub count: nat,
}

/// One more item of a file.
pub open spec fn counted_file(counts: Seq<FileCountView>, file: Seq<char>) -> Seq<FileCountView>
    decreases counts.len(),
{
    if counts.len() == 0 {
        seq![FileCountView { file, count: 1 }]
    } else if counts[0].file == file {
        seq![FileCountView { file, count: counts[0].count + 1 }] + counts.skip(1)
    } else {
        seq![counts[0]] + counted_file(counts.skip(1), file)
    }
}

/// The files of the first `n` items with the numbers of their items.
pub open spec fn file_counts_of(items: Seq<TestItem>, n: int) -> Seq<FileCountView>
    decreases n,
{
    if n <= 0 {
        seq![]
    } else {
        counted_file(file_counts_of(items, n - 1), file_part_of(items[n - 1].nodeid@))
    }
}

/// The layout of `--collect-only` at a verbosity.
pub open spec fn layout_of(verbosity: int) -> Layout {
    if verbosity < -1 {
        Layout::Counts
    } else if verbosity == -1 {
        Layout::Nodeids
    } else if verbosity == 0 {
        Layout::Tree
    } else {
        Layout::TreeWithDocs
    }
}

/// The exit code of `--collect-only`.
pub open spec fn collect_only_code_of(errors: nat, items: nat) -> i32 {
    if errors > 0 {
        INTERRUPTED
    } else if items == 0 {
        NO_TESTS_COLLECTED
    } else {
        OK
    }
}

// ---------------------------------------------------------------------------
// Executable functions
// ---------------------------------------------------------------------------

/// The report on a collection error.
pub fn error_report(nodeid: &str, error: &str) -> (r: TestReport)
    ensures
        collection_report(r, nodeid@, Outcome::Failed, error@),
        r.location is None,
        opt_text(r.reprcrash_message) == message_unless_syntax(error@),
{
    TestReport {
        nodeid: nodeid.to_owned(),
        phase: Phase::Setup,
        outcome: Outcome::Failed,
        duration: Elapsed { secs: 0, nanos: 0 },
        longrepr: Some(error.to_owned()),
        location: None,
        subtest_desc: None,
        sections: Vec::new(),
        rerun: false,
        xfail_longrepr: None,
        reprcrash_message: crash_line(error),
        head_line: None,
    }
}

/// The reports on collection errors, given as nodeids and messages: one for
/// each, in order.
pub fn error_reports(errors: &[(String, String)]) -> (r: Vec<TestReport>)
    ensures
        r@.len() == errors@.len(),
        forall|i: int|
            0 <= i < errors@.len() ==> collection_report(
                #[trigger] r@[i],
                errors@[i].0@,
                Outcome::Failed,
                errors@[i].1@,
            ) && r@[i].location is None && opt_text(r@[i].reprcrash_message)
                == message_unless_syntax(errors@[i].1@),
{
    let mut r: Vec<TestReport> = Vec::new();
    let mut k: usize = 0;
    while k < errors.len()
        invariant
            k <= errors@.len(),
            r@.len() == k,
            forall|i: int|
                0 <= i < k ==> collection_report(
                    #[trigger] r@[i],
                    errors@[i].0@,
                    Outcome::Failed,
                    errors@[i].1@,
                ) && r@[i].location is None && opt_text(r@[i].reprcrash_message)
                    == message_unless_syntax(errors@[i].1@),
        decreases errors@.len() - k,
    {
        r.push(error_report(errors[k].0.as_str(), errors[k].1.as_str()));
        k += 1;
    }
    r
}

/// The report on a file that was skipped at collection time.
pub fn skip_report(nodeid: &str, reason: &str) -> (r: TestReport)
    ensures
        collection_report(r, nodeid@, Outcome::Skipped, reason@),
        r.location matches Some(s) && s@ == nodeid@ + ":1"@,
        r.reprcrash_message is None,
{
    let mut location: String = nodeid.to_owned();
    location.append(":1");
    TestReport {
        nodeid: nodeid.to_owned(),
        phase: Phase::Setup,
        outcome: Outcome::Skipped,
        duration: Elapsed { secs: 0, nanos: 0 },
        longrepr: Some(reason.to_owned()),
        location: Some(location),
        subtest_desc: None,
        sections: Vec::new(),
        rerun: false,
        xfail_longrepr: None,
        reprcrash_message: None,
        head_line: None,
    }
}

/// Whether collection errors used up `--maxfail`.
pub fn maxfail_hit(f: &ErrorFacts) -> (r: bool)
    ensures
        r == budget_spent(*f),
{
    match f.maxfail {
        Some(m) => f.errors >= m,
        None => false,
    }
}

/// The workers of an aborted session.
fn abort_workers(f: &ErrorFacts) -> (r: Option<usize>)
    ensures
        r == workers_of(*f),
{
    if maxfail_hit(f) {
        None
    } else {
        f.workers
    }
}

/// Whether collection errors abort the session: any does, unless the session
/// goes on in spite of them or only collects.
pub fn should_abort(f: &ErrorFacts) -> (r: bool)
    ensures
        r == aborts(*f),
{
    f.errors > 0 && !f.continue_on_errors && !f.collect_only
}

/// The exit code of a session that collection errors aborted.
pub fn abort_code(f: &ErrorFacts) -> (r: i32)
    ensures
        r == abort_code_of(*f),
{
    if f.not_found {
        USAGE_ERROR
    } else if maxfail_hit(f) || abort_workers(f).is_some() {
        TESTS_FAILED
    } else {
        INTERRUPTED
    }
}

/// What is said of collection errors that interrupted the session.
pub fn interrupted_banner(errors: usize) -> (r: String)
    ensures
        r@ == interrupted_text(errors as nat),
{
    let mut r: String = "Interrupted: ".to_owned();
    r.append(decimal(errors).as_str());
    r.append(" error");
    r.append(plural(errors));
    r.append(" during collection");
    r
}

/// The banner of an aborted session.
pub fn abort_banner(f: &ErrorFacts) -> (r: Option<String>)
    ensures
        opt_text(r) == abort_banner_of(*f),
{
    if maxfail_hit(f) {
        Some(stopping_after(f.errors))
    } else if abort_workers(f).is_some() {
        None
    } else {
        Some(interrupted_banner(f.errors))
    }
}

fn push_abort(steps: &mut Vec<AbortStep>, b: bool, step: AbortStep)
    ensures
        final(steps)@ == old(steps)@ + abort_when(b, step),
{
    let ghost start = steps@;
    if b {
        steps.push(step);
    }
    assert(steps@ =~= start + abort_when(b, step));
}

fn push_saving(steps: &mut Vec<AbortStep>)
    ensures
        final(steps)@ == old(steps)@ + seq![AbortStep::SaveCache, AbortStep::JunitXml],
{
    steps.push(AbortStep::SaveCache);
    steps.push(AbortStep::JunitXml);
}

/// What is done when collection errors abort the session.
pub fn abort_steps(f: &ErrorFacts) -> (r: Vec<AbortStep>)
    ensures
        r@ == abort_order(*f),
{
    let workers = abort_workers(f);
    let alone = workers.is_none();
    let terminal = !f.no_terminal;
    let mut steps: Vec<AbortStep> = Vec::new();
    push_abort(&mut steps, f.custom_reporter, AbortStep::ApplySelection);
    assert(steps@ =~= abort_when(f.custom_reporter, AbortStep::ApplySelection));
    push_abort(&mut steps, f.custom_reporter, AbortStep::ReporterCollectionFinish);
    let ghost a = steps@;
    match workers {
        Some(n) => {
            push_abort(&mut steps, terminal, AbortStep::DistBanner(n));
        },
        None => {
            assert(a + Seq::<AbortStep>::empty() =~= a);
        },
    }
    push_abort(&mut steps, terminal && alone && !f.quiet, AbortStep::ApplySelection);
    push_abort(&mut steps, terminal && alone && !f.quiet, AbortStep::CountLine);
    push_abort(&mut steps, terminal && !f.no_summary, AbortStep::Errors);
    push_saving(&mut steps);
    push_abort(&mut steps, terminal && !f.no_summary, AbortStep::ShortSummary);
    push_abort(&mut steps, terminal && alone, AbortStep::Banner);
    push_abort(&mut steps, terminal, AbortStep::SummaryLine);
    push_abort(&mut steps, !f.is_worker, AbortStep::FireSessionFinish);
    push_abort(&mut steps, !f.is_worker && f.custom_reporter, AbortStep::ReporterFinish);
    steps
}

/// Appends a count with its noun.
fn append_count(line: &mut String, n: usize, noun: &str)
    ensures
        final(line)@ == old(line)@ + counted_text(n as nat, noun@),
{
    let ghost start = line@;
    line.append(decimal(n).as_str());
    line.append(noun);
    line.append(plural(n));
    assert(line@ =~= start + counted_text(n as nat, noun@));
}

/// Appends the part on deselected items, where there are any.
fn append_deselected(line: &mut String, deselected: usize, selected: usize)
    ensures
        final(line)@ == old(line)@ + part_if(
            deselected as nat,
            " / "@ + decimal_of(deselected as nat) + " deselected / "@ + decimal_of(
                selected as nat,
            ) + " selected"@,
        ),
{
    let ghost start = line@;
    if deselected > 0 {
        let mut part: String = " / ".to_owned();
        part.append(decimal(deselected).as_str());
        part.append(" deselected / ");
        part.append(decimal(selected).as_str());
        part.append(" selected");
        line.append(part.as_str());
    } else {
        assert(start + Seq::<char>::empty() =~= start);
    }
}

/// The line that counts the items of an aborted session.
pub fn aborted_count_line(selected: usize, deselected: usize, errors: usize) -> (r: String)
    requires
        selected + deselected <= usize::MAX,
    ensures
        r@ == aborted_count_text(selected as nat, deselected as nat, errors as nat),
{
    let mut line: String = "collected ".to_owned();
    append_count(&mut line, selected + deselected, " item");
    line.append(" / ");
    append_count(&mut line, errors, " error");
    append_deselected(&mut line, deselected, selected);
    line
}

/// The line that counts the items; `-v` shows it after "collecting ...".
pub fn count_line(
    collected: usize,
    errors: usize,
    skips: usize,
    deselected: usize,
    items: usize,
    verbose: i32,
) -> (r: String)
    ensures
        r@ == count_text(
            collected as nat,
            errors as nat,
            skips as nat,
            deselected as nat,
            items as nat,
            verbose > 0,
        ),
{
    let mut line: String = if verbose > 0 {
        "collecting ... ".to_owned()
    } else {
        "".to_owned()
    };
    line.append("collected ");
    append_count(&mut line, collected, " item");
    let ghost a = line@;
    if errors > 0 {
        let mut part: String = " / ".to_owned();
        append_count(&mut part, errors, " error");
        line.append(part.as_str());
    } else {
        assert(a + Seq::<char>::empty() =~= a);
    }
    let ghost b = line@;
    if skips > 0 {
        let mut part: String = " / ".to_owned();
        part.append(decimal(skips).as_str());
        part.append(" skipped");
        line.append(part.as_str());
    } else {
        assert(b + Seq::<char>::empty() =~= b);
    }
    append_deselected(&mut line, deselected, items);
    line
}

/// Whether a blank line follows the count.
pub fn blank_after_count(items: usize, collect_only: bool, verbosity: i32) -> (r: bool)
    ensures
        r == blank_follows(items as nat, collect_only, verbosity as int),
{
    items > 0 && (collect_only || verbosity >= 0)
}

fn push_count(steps: &mut Vec<CountStep>, b: bool, step: CountStep)
    ensures
        final(steps)@ == old(steps)@ + count_when(b, step),
{
    let ghost start = steps@;
    if b {
        steps.push(step);
    }
    assert(steps@ =~= start + count_when(b, step));
}

/// What is done when the items are counted.
pub fn count_steps(f: &CountFacts) -> (r: Vec<CountStep>)
    ensures
        r@ == count_order(*f),
{
    let shown = !f.quiet && !f.no_terminal;
    let blank = shown && blank_after_count(f.items, f.collect_only, f.verbosity);
    let mut steps: Vec<CountStep> = Vec::new();
    push_count(&mut steps, f.custom_reporter, CountStep::ReporterCollectionFinish);
    assert(steps@ =~= count_when(f.custom_reporter, CountStep::ReporterCollectionFinish));
    push_count(&mut steps, shown, CountStep::CountLine);
    push_count(&mut steps, shown, CountStep::CacheLines);
    push_count(&mut steps, shown, CountStep::HookLines);
    push_count(&mut steps, blank, CountStep::Blank);
    steps
}

/// What is done for `--collect-only`.
pub fn collect_only_steps(f: &CollectOnlyFacts) -> (r: Vec<CollectOnlyStep>)
    ensures
        r@ == collect_only_order(*f),
{
    let mut steps: Vec<CollectOnlyStep> = Vec::new();
    if f.no_terminal {
        return steps;
    }
    steps.push(CollectOnlyStep::Items(collect_layout(f.verbosity)));
    if f.custom_reporter {
        let code: i32 = collect_only_code(0, f.items);
        steps.push(CollectOnlyStep::FireSessionFinish(code));
        steps.push(CollectOnlyStep::ReporterFinish(code));
    } else {
        if f.errors > 0 {
            steps.push(CollectOnlyStep::Errors);
            steps.push(CollectOnlyStep::ShortSummary);
            steps.push(CollectOnlyStep::Banner);
        }
        steps.push(CollectOnlyStep::Summary);
    }
    assert(steps@ =~= collect_only_order(*f));
    steps
}

/// The layout of `--collect-only` at a verbosity of test cases.
pub fn collect_layout(verbosity: i32) -> (r: Layout)
    ensures
        r == layout_of(verbosity as int),
{
    if verbosity < -1 {
        Layout::Counts
    } else if verbosity == -1 {
        Layout::Nodeids
    } else if verbosity == 0 {
        Layout::Tree
    } else {
        Layout::TreeWithDocs
    }
}

/// A file with the number of its items.
struct FileCount {
    file: String,
    count: usize,
}

spec fn count_views(v: Seq<FileCount>) -> Seq<FileCountView> {
    Seq::new(v.len(), |i: int| FileCountView { file: v[i].file@, count: v[i].count as nat })
}

/// Counts one more item of a file.
fn add_file(counts: &mut Vec<FileCount>, file: String, Ghost(bound): Ghost<nat>)
    requires
        bound < usize::MAX,
        forall|i: int| 0 <= i < old(counts)@.len() ==> #[trigger] old(counts)@[i].count <= bound,
    ensures
        count_views(final(counts)@) == counted_file(count_views(old(counts)@), file@),
        forall|i: int|
            0 <= i < final(counts)@.len() ==> #[trigger] final(counts)@[i].count <= bound + 1,
{
    let ghost start = counts@;
    let ghost all = count_views(start);
    let mut i: usize = 0;
    assert(all.skip(0) =~= all);
    assert(all.take(0) + counted_file(all.skip(0), file@) =~= counted_file(all, file@));
    while i < counts.len()
        invariant
            i <= counts@.len(),
            counts@ == start,
            start == old(counts)@,
            all == count_views(start),
            bound < usize::MAX,
            forall|k: int| 0 <= k < counts@.len() ==> #[trigger] counts@[k].count <= bound,
            all.take(i as int) + counted_file(all.skip(i as int), file@) == counted_file(
                all,
                file@,
            ),
        decreases counts@.len() - i,
    {
        let ghost rest = all.skip(i as int);
        assert(rest.skip(1) =~= all.skip(i + 1));
        assert(rest[0] == all[i as int]);
        if same(counts[i].file.as_str(), file.as_str()) {
            assert(counts@[i as int].count <= bound);
            let count: usize = counts[i].count + 1;
            counts.set(i, FileCount { file, count });
            assert(count_views(counts@) =~= all.take(i as int) + counted_file(rest, file@));
            return;
        }
        assert(all.take(i as int) + counted_file(rest, file@) =~= all.take(i + 1) + counted_file(
            all.skip(i + 1),
            file@,
        ));
        i += 1;
    }
    assert(all.take(i as int) =~= all);
    counts.push(FileCount { file, count: 1 });
    assert(count_views(counts@) =~= all + counted_file(all.skip(i as int), file@));
}

/// The lines of the layout that counts: "file: number", in order of
/// appearance.
pub fn file_count_lines(items: &[TestItem]) -> (r: Vec<Line>)
    ensures
        ({
            let counts = file_counts_of(items@, items@.len() as int);
            shown(r@) == Seq::new(
                counts.len(),
                |i: int| plain(counts[i].file + ": "@ + decimal_of(counts[i].count)),
            )
        }),
{
    let n: usize = items.len();
    let mut counts: Vec<FileCount> = Vec::new();
    let mut i: usize = 0;
    assert(count_views(counts@) =~= seq![]);
    while i < n
        invariant
            i <= n == items@.len(),
            count_views(counts@) == file_counts_of(items@, i as int),
            forall|k: int| 0 <= k < counts@.len() ==> #[trigger] counts@[k].count <= i,
        decreases n - i,
    {
        let parts = parts_of(items[i].nodeid.as_str());
        let file: String = parts[0].clone();
        add_file(&mut counts, file, Ghost(i as nat));
        i += 1;
    }
    let ghost views = file_counts_of(items@, items@.len() as int);
    let ghost all = Seq::new(
        views.len(),
        |i: int| plain(views[i].file + ": "@ + decimal_of(views[i].count)),
    );
    let mut out = no_lines();
    let mut k: usize = 0;
    assert(shown(out@) =~= all.take(0));
    while k < counts.len()
        invariant
            k <= counts@.len(),
            count_views(counts@) == views,
            all == Seq::new(
                views.len(),
                |i: int| plain(views[i].file + ": "@ + decimal_of(views[i].count)),
            ),
            shown(out@) == all.take(k as int),
        decreases counts@.len() - k,
    {
        let mut line: String = counts[k].file.clone();
        line.append(": ");
        line.append(decimal(counts[k].count).as_str());
        assert(views[k as int] == (FileCountView {
            file: counts@[k as int].file@,
            count: counts@[k as int].count as nat,
        }));
        emit(&mut out, line, Style::Plain);
        assert(shown(out@) =~= all.take(k + 1));
        k += 1;
    }
    assert(all.take(k as int) =~= all);
    out
}

/// The lines of the layout that lists nodeids.
pub fn nodeid_lines(items: &[TestItem]) -> (r: Vec<Line>)
    ensures
        shown(r@) == Seq::new(items@.len(), |i: int| plain(items@[i].nodeid@)),
{
    let ghost all = Seq::new(items@.len(), |i: int| plain(items@[i].nodeid@));
    let mut out = no_lines();
    let mut i: usize = 0;
    assert(shown(out@) =~= all.take(0));
    while i < items.len()
        invariant
            i <= items@.len(),
            all == Seq::new(items@.len(), |i: int| plain(items@[i].nodeid@)),
            shown(out@) == all.take(i as int),
        decreases items@.len() - i,
    {
        emit(&mut out, items[i].nodeid.clone(), Style::Plain);
        assert(shown(out@) =~= all.take(i + 1));
        i += 1;
    }
    assert(all.take(i as int) =~= all);
    out
}

/// The banner of `--collect-only` on collection errors.
pub fn collect_only_banner(errors: usize) -> (r: Vec<Line>)
    ensures
        shown(r@) == (if errors > 0 {
            seq![
                LineView {
                    text: banner_of(interrupted_text(errors as nat), '!'),
                    style: Style::Red,
                },
            ]
        } else {
            Seq::<LineView>::empty()
        }),
{
    let mut out = no_lines();
    if errors > 0 {
        let text = interrupted_banner(errors);
        emit(&mut out, center_with(text.as_str(), '!'), Style::Red);
        assert(shown(out@).len() == 1);
    }
    out
}

/// The exit code of `--collect-only`.
pub fn collect_only_code(errors: usize, items: usize) -> (r: i32)
    ensures
        r == collect_only_code_of(errors as nat, items as nat),
{
    if errors > 0 {
        INTERRUPTED
    } else if items == 0 {
        NO_TESTS_COLLECTED
    } else {
        OK
    }
}

// ---------------------------------------------------------------------------
// Laws
// ---------------------------------------------------------------------------

/// Collection errors that abort a session make it fail.
pub proof fn aborted_sessions_fail(f: ErrorFacts)
    requires
        aborts(f),
    ensures
        abort_code_of(f) != 0,
        f.not_found ==> abort_code_of(f) == USAGE_ERROR,
{
}

/// Counting items by file misses none: the counts add up to the number of
/// items.
pub proof fn file_counts_add_up(items: Seq<TestItem>, n: int)
    requires
        0 <= n <= items.len(),
    ensures
        file_total(file_counts_of(items, n)) == n,
    decreases n,
{
    if n > 0 {
        file_counts_add_up(items, n - 1);
        counted_file_total(file_counts_of(items, n - 1), file_part_of(items[n - 1].nodeid@));
    }
}

/// The sum of the counts.
pub open spec fn file_total(counts: Seq<FileCountView>) -> nat
    decreases counts.len(),
{
    if counts.len() == 0 {
        0
    } else {
        counts[0].count + file_total(counts.skip(1))
    }
}

proof fn counted_file_total(counts: Seq<FileCountView>, file: Seq<char>)
    ensures
        file_total(counted_file(counts, file)) == file_total(counts) + 1,
    decreases counts.len(),
{
    let after = counted_file(counts, file);
    if counts.len() == 0 {
        assert(after.skip(1) =~= seq![]);
        assert(file_total(after.skip(1)) == 0);
    } else if counts[0].file == file {
        assert(after.skip(1) =~= counts.skip(1));
    } else {
        counted_file_total(counts.skip(1), file);
        assert(after.skip(1) =~= counted_file(counts.skip(1), file));
    }
}

/// Where a step of an abort stands; the selection is applied before two others.
pub open spec fn abort_place(step: AbortStep) -> int {
    match step {
        AbortStep::ApplySelection => -1,
        AbortStep::ReporterCollectionFinish => 0,
        AbortStep::DistBanner(_) => 1,
        AbortStep::CountLine => 2,
        AbortStep::Errors => 3,
        AbortStep::SaveCache => 4,
        AbortStep::JunitXml => 5,
        AbortStep::ShortSummary => 6,
        AbortStep::Banner => 7,
        AbortStep::SummaryLine => 8,
        AbortStep::FireSessionFinish => 9,
        AbortStep::ReporterFinish => 10,
    }
}

/// What happens when errors of the collection end the session, and in which
/// order: a replacement reporter is told of the collection; the terminal gets
/// the number of items, the errors, the short summary, the reason and the final
/// line; the cache and the XML file are written in between; at the end the
/// session's end is announced, except by a worker. Workers take the place of the
/// number of items and of the reason, unless the budget of failures is spent.
pub proof fn aborts_go_in_order(f: ErrorFacts, x: AbortStep)
    ensures
        staircase(abort_order(f), |s: AbortStep| abort_place(s), 11),
        ({
            let spent = f.maxfail is Some && f.errors >= f.maxfail->0;
            let dist = f.workers is Some && !spent;
            let terminal = !f.no_terminal;
            abort_order(f).contains(x) <==> match x {
                AbortStep::ApplySelection => f.custom_reporter || terminal && !dist && !f.quiet,
                AbortStep::ReporterCollectionFinish => f.custom_reporter,
                AbortStep::DistBanner(n) => terminal && dist && f.workers == Some(n),
                AbortStep::CountLine => terminal && !dist && !f.quiet,
                AbortStep::Errors => terminal && !f.no_summary,
                AbortStep::SaveCache => true,
                AbortStep::JunitXml => true,
                AbortStep::ShortSummary => terminal && !f.no_summary,
                AbortStep::Banner => terminal && !dist,
                AbortStep::SummaryLine => terminal,
                AbortStep::FireSessionFinish => !f.is_worker,
                AbortStep::ReporterFinish => !f.is_worker && f.custom_reporter,
            }
        }),
{
    let place = |s: AbortStep| abort_place(s);
    let none = Seq::<AbortStep>::empty();
    let alone = workers_of(f) is None;
    let terminal = !f.no_terminal;
    let b1 = f.custom_reporter;
    let b4 = terminal && alone && !f.quiet;
    let b6 = terminal && !f.no_summary;
    no_step(place, x);
    next_step(none, place, 0, b1, AbortStep::ApplySelection, x);
    let l1 = abort_when(b1, AbortStep::ApplySelection);
    assert(none + l1 == l1) by {
        assert(none + l1 =~= l1);
    }
    next_step(l1, place, 0, b1, AbortStep::ReporterCollectionFinish, x);
    let l2 = l1 + abort_when(b1, AbortStep::ReporterCollectionFinish);
    let n = workers_of(f)->0;
    next_step(l2, place, 1, !alone && terminal, AbortStep::DistBanner(n), x);
    let dist = match workers_of(f) {
        Some(n) => abort_when(terminal, AbortStep::DistBanner(n)),
        None => seq![],
    };
    assert(dist == abort_when(!alone && terminal, AbortStep::DistBanner(n)));
    let l3 = l2 + dist;
    next_step(l3, place, 2, b4, AbortStep::ApplySelection, x);
    let l4 = l3 + abort_when(b4, AbortStep::ApplySelection);
    next_step(l4, place, 2, b4, AbortStep::CountLine, x);
    let l5 = l4 + abort_when(b4, AbortStep::CountLine);
    next_step(l5, place, 3, b6, AbortStep::Errors, x);
    let l6 = l5 + abort_when(b6, AbortStep::Errors);
    next_step(l6, place, 4, true, AbortStep::SaveCache, x);
    let l7 = l6 + seq![AbortStep::SaveCache];
    next_step(l7, place, 5, true, AbortStep::JunitXml, x);
    let l8 = l6 + seq![AbortStep::SaveCache, AbortStep::JunitXml];
    assert(l7 + seq![AbortStep::JunitXml] =~= l8);
    next_step(l8, place, 6, b6, AbortStep::ShortSummary, x);
    let l9 = l8 + abort_when(b6, AbortStep::ShortSummary);
    next_step(l9, place, 7, terminal && alone, AbortStep::Banner, x);
    let l10 = l9 + abort_when(terminal && alone, AbortStep::Banner);
    next_step(l10, place, 8, terminal, AbortStep::SummaryLine, x);
    let l11 = l10 + abort_when(terminal, AbortStep::SummaryLine);
    next_step(l11, place, 9, !f.is_worker, AbortStep::FireSessionFinish, x);
    let l12 = l11 + abort_when(!f.is_worker, AbortStep::FireSessionFinish);
    next_step(l12, place, 10, !f.is_worker && b1, AbortStep::ReporterFinish, x);
    let l13 = l12 + abort_when(!f.is_worker && b1, AbortStep::ReporterFinish);
    assert(l13 == abort_order(f));
}

/// When errors of the collection end the session, with which code and what
/// reason: not where they are to be passed over or tests are only listed. An
/// argument that was not found is a usage error; a spent budget of failures, or
/// workers, a failure; anything else an interruption.
pub proof fn aborts_tell_why(f: ErrorFacts)
    ensures
        aborts(f) <==> f.errors > 0 && !f.continue_on_errors && !f.collect_only,
        budget_spent(f) <==> f.maxfail is Some && f.errors >= f.maxfail->0,
        ({
            let spent = f.maxfail is Some && f.errors >= f.maxfail->0;
            let code = abort_code_of(f);
            let banner = abort_banner_of(f);
            &&& f.not_found ==> code == 4
            &&& !f.not_found && spent ==> code == 1
            &&& !f.not_found && !spent && f.workers is Some ==> code == 1
            &&& !f.not_found && !spent && f.workers is None ==> code == 2
            &&& spent ==> banner == Some(
                "stopping after "@ + decimal_of(f.errors as nat) + " failures"@,
            )
            &&& !spent && f.workers is Some ==> banner is None
            &&& !spent && f.workers is None && f.errors == 1 ==> banner == Some(
                "Interrupted: "@ + decimal_of(1) + " error"@ + " during collection"@,
            )
            &&& !spent && f.workers is None && f.errors != 1 ==> banner == Some(
                "Interrupted: "@ + decimal_of(f.errors as nat) + " error"@ + "s"@
                    + " during collection"@,
            )
        }),
{
    reveal_strlit("");
    plural_of_counts(f.errors as nat);
    assert("Interrupted: "@ + decimal_of(1) + " error"@ + ""@ =~= "Interrupted: "@ + decimal_of(1)
        + " error"@);
}

/// Where a step of the count stands.
pub open spec fn count_place(step: CountStep) -> int {
    match step {
        CountStep::ReporterCollectionFinish => 0,
        CountStep::CountLine => 1,
        CountStep::CacheLines => 2,
        CountStep::HookLines => 3,
        CountStep::Blank => 4,
    }
}

/// What follows the collection: a replacement reporter is told; unless the
/// session is quiet or has no terminal, the number of items, what the cache and
/// the hooks have to say, and an empty line where there are items and the list or
/// the tests are to come.
pub proof fn counts_go_in_order(f: CountFacts, x: CountStep)
    ensures
        staircase(count_order(f), |s: CountStep| count_place(s), 5),
        count_order(f).contains(x) <==> match x {
            CountStep::ReporterCollectionFinish => f.custom_reporter,
            CountStep::CountLine => !f.quiet && !f.no_terminal,
            CountStep::CacheLines => !f.quiet && !f.no_terminal,
            CountStep::HookLines => !f.quiet && !f.no_terminal,
            CountStep::Blank => !f.quiet && !f.no_terminal && f.items > 0 && (f.collect_only
                || f.verbosity >= 0),
        },
{
    let place = |s: CountStep| count_place(s);
    let none = Seq::<CountStep>::empty();
    let shown = !f.quiet && !f.no_terminal;
    no_step(place, x);
    next_step(none, place, 0, f.custom_reporter, CountStep::ReporterCollectionFinish, x);
    let l1 = count_when(f.custom_reporter, CountStep::ReporterCollectionFinish);
    assert(none + l1 == l1) by {
        assert(none + l1 =~= l1);
    }
    next_step(l1, place, 1, shown, CountStep::CountLine, x);
    let l2 = l1 + count_when(shown, CountStep::CountLine);
    next_step(l2, place, 2, shown, CountStep::CacheLines, x);
    let l3 = l2 + count_when(shown, CountStep::CacheLines);
    next_step(l3, place, 3, shown, CountStep::HookLines, x);
    let l4 = l3 + count_when(shown, CountStep::HookLines);
    let b = shown && blank_follows(f.items as nat, f.collect_only, f.verbosity as int);
    next_step(l4, place, 4, b, CountStep::Blank, x);
    assert(l4 + count_when(b, CountStep::Blank) == count_order(f));
}

/// What listing the tests does: nothing without a terminal; else the tests come
/// first, in the layout for the verbosity. A replacement reporter then hears of
/// the end, with the code; otherwise errors, with the short summary and the
/// reason, come before the summary, which is always there.
pub proof fn listing_goes_in_order(f: CollectOnlyFacts)
    ensures
        ({
            let list = collect_only_order(f);
            let layout = if f.verbosity < -1 {
                Layout::Counts
            } else if f.verbosity == -1 {
                Layout::Nodeids
            } else if f.verbosity == 0 {
                Layout::Tree
            } else {
                Layout::TreeWithDocs
            };
            let code: i32 = if f.items == 0 {
                5
            } else {
                0
            };
            &&& f.no_terminal ==> list.len() == 0
            &&& !f.no_terminal ==> list.len() > 0 && list[0] == CollectOnlyStep::Items(layout)
            &&& !f.no_terminal && f.custom_reporter ==> list.len() == 3 && list[1]
                == CollectOnlyStep::FireSessionFinish(code) && list[2]
                == CollectOnlyStep::ReporterFinish(code)
            &&& !f.no_terminal && !f.custom_reporter ==> list.last() == CollectOnlyStep::Summary
            &&& !f.no_terminal && !f.custom_reporter && f.errors == 0 ==> list.len() == 2
            &&& !f.no_terminal && !f.custom_reporter && f.errors > 0 ==> list.len() == 5
                && list[1] == CollectOnlyStep::Errors && list[2] == CollectOnlyStep::ShortSummary
                && list[3] == CollectOnlyStep::Banner
        }),
{
}

/// The code of a session that only lists: 2 with errors, 5 without a test, else
/// 0.
pub proof fn listing_tells_its_code(errors: nat, items: nat)
    ensures
        errors > 0 ==> collect_only_code_of(errors, items) == 2,
        errors == 0 && items == 0 ==> collect_only_code_of(errors, items) == 5,
        errors == 0 && items > 0 ==> collect_only_code_of(errors, items) == 0,
{
}

/// The line with the number of items, part by part: a part for a number that is
/// zero is left out, and one item has no plural.
pub proof fn count_line_says_what_there_is(
    collected: nat,
    errors: nat,
    skips: nat,
    deselected: nat,
    items: nat,
)
    ensures
        count_text(collected, 0, 0, 0, items, false) == "collected "@ + decimal_of(collected)
            + " item"@ + plural_of(collected),
        count_text(collected, errors, skips, deselected, items, true) == "collecting ... "@
            + count_text(collected, errors, skips, deselected, items, false),
        errors > 0 ==> count_text(collected, errors, 0, 0, items, false) == count_text(
            collected,
            0,
            0,
            0,
            items,
            false,
        ) + " / "@ + decimal_of(errors) + " error"@ + plural_of(errors),
        skips > 0 ==> count_text(collected, errors, skips, 0, items, false) == count_text(
            collected,
            errors,
            0,
            0,
            items,
            false,
        ) + " / "@ + decimal_of(skips) + " skipped"@,
        deselected > 0 ==> count_text(collected, errors, skips, deselected, items, false)
            == count_text(collected, errors, skips, 0, items, false) + " / "@ + decimal_of(
            deselected,
        ) + " deselected / "@ + decimal_of(items) + " selected"@,
{
    reveal_strlit("");
    let base = count_text(collected, 0, 0, 0, items, false);
    let none = Seq::<char>::empty();
    assert(base =~= "collected "@ + decimal_of(collected) + " item"@ + plural_of(collected));
    assert(count_text(collected, errors, skips, deselected, items, true) =~= "collecting ... "@
        + count_text(collected, errors, skips, deselected, items, false));
    if errors > 0 {
        assert(count_text(collected, errors, 0, 0, items, false) =~= base + " / "@ + decimal_of(
            errors,
        ) + " error"@ + plural_of(errors));
    }
    if skips > 0 {
        assert(count_text(collected, errors, skips, 0, items, false) =~= count_text(
            collected,
            errors,
            0,
            0,
            items,
            false,
        ) + " / "@ + decimal_of(skips) + " skipped"@);
    }
    if deselected > 0 {
        assert(count_text(collected, errors, skips, deselected, items, false) =~= count_text(
            collected,
            errors,
            skips,
            0,
            items,
            false,
        ) + " / "@ + decimal_of(deselected) + " deselected / "@ + decimal_of(items)
            + " selected"@);
    }
}

/// Every file with an item is counted: one more item of a file makes its count
/// one higher and changes no other.
pub proof fn each_item_counts_for_its_file(items: Seq<TestItem>, n: int, i: int)
    requires
        0 <= i < n <= items.len(),
    ensures
        exists|k: int|
            0 <= k < file_counts_of(items, n).len() && (#[trigger] file_counts_of(items, n)[k]).file
                == head_of(items[i].nodeid@, "::"@) && file_counts_of(items, n)[k].count >= 1,
        file_counts_of(items, n - 1).len() <= file_counts_of(items, n).len(),
        forall|k: int|
            0 <= k < file_counts_of(items, n - 1).len() ==> {
                let before = #[trigger] file_counts_of(items, n - 1)[k];
                let after = file_counts_of(items, n)[k];
                &&& after.file == before.file
                &&& after.count == before.count || before.file == head_of(
                    items[n - 1].nodeid@,
                    "::"@,
                ) && after.count == before.count + 1
            },
    decreases n,
{
    let before = file_counts_of(items, n - 1);
    let file = head_of(items[n - 1].nodeid@, "::"@);
    file_stands_before_the_rest(items[n - 1].nodeid@);
    counted_file_facts(before, file);
    let all = file_counts_of(items, n);
    assert(all == counted_file(before, file));
    if i < n - 1 {
        each_item_counts_for_its_file(items, n - 1, i);
        let k = choose|k: int|
            0 <= k < before.len() && (#[trigger] before[k]).file == head_of(
                items[i].nodeid@,
                "::"@,
            ) && before[k].count >= 1;
        assert(all[k].file == before[k].file && all[k].count >= 1);
    } else {
        let k = choose|k: int|
            0 <= k < all.len() && (#[trigger] all[k]).file == file && all[k].count >= 1;
        assert(all[k].file == file);
    }
}

proof fn counted_file_facts(counts: Seq<FileCountView>, file: Seq<char>)
    ensures
        counts.len() <= counted_file(counts, file).len(),
        exists|k: int|
            0 <= k < counted_file(counts, file).len() && (#[trigger] counted_file(
                counts,
                file,
            )[k]).file == file && counted_file(counts, file)[k].count >= 1,
        forall|k: int|
            0 <= k < counts.len() ==> {
                let before = #[trigger] counts[k];
                let after = counted_file(counts, file)[k];
                &&& after.file == before.file
                &&& after.count == before.count || before.file == file && after.count
                    == before.count + 1
            },
    decreases counts.len(),
{
    let all = counted_file(counts, file);
    if counts.len() == 0 || counts[0].file == file {
        assert(all[0].file == file && all[0].count >= 1);
        assert forall|k: int| 0 <= k < counts.len() implies {
            let before = #[trigger] counts[k];
            let after = all[k];
            &&& after.file == before.file
            &&& after.count == before.count || before.file == file && after.count == before.count
                + 1
        } by {
            if k > 0 {
                assert(all[k] == counts.skip(1)[k - 1]);
            }
        }
    } else {
        let rest = counts.skip(1);
        let more = counted_file(rest, file);
        counted_file_facts(rest, file);
        let at = choose|at: int|
            0 <= at < more.len() && (#[trigger] more[at]).file == file && more[at].count >= 1;
        assert(all[at + 1] == more[at]);
        assert forall|k: int| 0 <= k < counts.len() implies {
            let before = #[trigger] counts[k];
            let after = all[k];
            &&& after.file == before.file
            &&& after.count == before.count || before.file == file && after.count == before.count
                + 1
        } by {
            if k > 0 {
                assert(all[k] == more[k - 1]);
                assert(rest[k - 1] == counts[k]);
            }
        }
    }
}

/// The line with the number of items of an aborted session: all items, whether they were
/// selected or not, and the errors; what was deselected comes last, where there is any.
pub proof fn aborted_count_says_what_there_is(selected: nat, deselected: nat, errors: nat)
    ensures
        aborted_count_text(selected, 0, errors) == "collected "@ + decimal_of(selected) + " item"@
            + plural_of(selected) + " / "@ + decimal_of(errors) + " error"@ + plural_of(errors),
        deselected > 0 ==> aborted_count_text(selected, deselected, errors) == "collected "@
            + decimal_of(selected + deselected) + " item"@ + plural_of(selected + deselected)
            + " / "@ + decimal_of(errors) + " error"@ + plural_of(errors) + " / "@ + decimal_of(
            deselected,
        ) + " deselected / "@ + decimal_of(selected) + " selected"@,
{
    assert(aborted_count_text(selected, 0, errors) =~= "collected "@ + decimal_of(selected)
        + " item"@ + plural_of(selected) + " / "@ + decimal_of(errors) + " error"@ + plural_of(
        errors,
    ));
    if deselected > 0 {
        assert(aborted_count_text(selected, deselected, errors) =~= "collected "@ + decimal_of(
            selected + deselected,
        ) + " item"@ + plural_of(selected + deselected) + " / "@ + decimal_of(errors) + " error"@
            + plural_of(errors) + " / "@ + decimal_of(deselected) + " deselected / "@ + decimal_of(
            selected,
        ) + " selected"@);
    }
}

} // verus!
