//! What is collected besides test modules: doctests of other modules and of
//! text files, and the files of custom collectors.

use vstd::prelude::*;

use crate::collect::files::{
    skip_at, unimportable, unimportable_text, ImportEffect,
};
use crate::item::TestItem;
use crate::lists::{chosen, chosen_keeps_order, partition};
use crate::paths::{has_path, paths_of};
use crate::report::{Outcome, SkippedModule};
use crate::session::collected::skip_report;
use crate::text::{opt_text, texts};

verus! {

/// What the application does, in order.
#[derive(Debug, Clone, Copy, PartialEq, Eq, Structural)]
pub enum ExtraStep {
    /// Collect the doctests of the Python files that are no test files.
    Modules,
    /// Collect the doctests of text files.
    TextFiles,
    /// Let hooks collect files.
    CustomFiles,
    /// Close the log phase of collection.
    CloseLog,
}

// ---------------------------------------------------------------------------
// Model
// ---------------------------------------------------------------------------

/// A step that is taken under a condition.
pub open spec fn extra_when(b: bool, step: ExtraStep) -> Seq<ExtraStep> {
    if b {
        seq![step]
    } else {
        seq![]
    }
}

/// What is collected besides test modules.
pub open spec fn extra_order(doctest_modules: bool, has_file_hook: bool) -> Seq<ExtraStep> {
    extra_when(doctest_modules, ExtraStep::Modules) + seq![ExtraStep::TextFiles] + extra_when(
        has_file_hook,
        ExtraStep::CustomFiles,
    ) + seq![ExtraStep::CloseLog]
}

/// What follows where the doctests of a module cannot be collected: the module
/// is skipped where import errors are ignored, else it has an error.
pub open spec fn module_effect_of(
    x: ImportEffect,
    ignore_errors: bool,
    nodeid: Seq<char>,
    shown: Seq<char>,
    rendered: Seq<char>,
) -> bool {
    &&& x.fatal is None
    &&& if ignore_errors {
        let reason = unimportable_text(shown);
        let place = nodeid + ":1"@;
        &&& x.error is None
        &&& x.skipped_module matches Some(m) && m.nodeid@ == nodeid && m.reason@ == reason
            && m.location@ == place
        &&& x.reports@.len() == 1
        &&& skip_at(x.reports@[0], nodeid, reason, place)
        &&& opt_text(x.recorded_skip) == Some(reason)
    } else {
        &&& opt_text(x.error) == Some(rendered)
        &&& x.skipped_module is None
        &&& x.reports@.len() == 0
        &&& x.recorded_skip is None
    }
}

/// Which of the paths are new: `known` lacks them.
pub open spec fn unknown_marks(paths: Seq<Seq<Seq<char>>>, known: Seq<Seq<Seq<char>>>) -> Seq<
    bool,
> {
    Seq::new(paths.len(), |i: int| !known.contains(paths[i]))
}

/// Which items are in none of the files.
pub open spec fn outside_marks(items: Seq<TestItem>, files: Seq<Seq<Seq<char>>>) -> Seq<bool> {
    Seq::new(items.len(), |i: int| !files.contains(texts(items[i].path@)))
}

// ---------------------------------------------------------------------------
// Executable functions
// ---------------------------------------------------------------------------

/// What is collected besides test modules, in order.
pub fn extra_steps(doctest_modules: bool, has_file_hook: bool) -> (r: Vec<ExtraStep>)
    ensures
        r@ == extra_order(doctest_modules, has_file_hook),
{
    let mut r: Vec<ExtraStep> = Vec::new();
    if doctest_modules {
        r.push(ExtraStep::Modules);
    }
    r.push(ExtraStep::TextFiles);
    if has_file_hook {
        r.push(ExtraStep::CustomFiles);
    }
    r.push(ExtraStep::CloseLog);
    assert(r@ =~= extra_order(doctest_modules, has_file_hook));
    r
}

/// What follows where the doctests of a module cannot be collected; `rendered`
/// is the exception.
pub fn module_failure(ignore_errors: bool, nodeid: &str, shown: &str, rendered: &str) -> (x:
    ImportEffect)
    ensures
        module_effect_of(x, ignore_errors, nodeid@, shown@, rendered@),
{
    let mut x = ImportEffect {
        fatal: None,
        error: None,
        skipped_module: None,
        reports: Vec::new(),
        recorded_skip: None,
    };
    if ignore_errors {
        let reason = unimportable(shown);
        let mut place: String = nodeid.to_owned();
        place.append(":1");
        x.reports.push(skip_report(nodeid, reason.as_str()));
        x.skipped_module = Some(
            SkippedModule { nodeid: nodeid.to_owned(), reason: reason.clone(), location: place },
        );
        x.recorded_skip = Some(reason);
    } else {
        x.error = Some(rendered.to_owned());
    }
    x
}

/// The text files that were not collected as arguments already.
pub fn new_text_files(found: Vec<Vec<String>>, files: &[Vec<String>]) -> (r: Vec<Vec<String>>)
    ensures
        r@ == chosen(found@, unknown_marks(paths_of(found@), paths_of(files@)), true),
{
    let n: usize = found.len();
    let mut marks: Vec<bool> = Vec::new();
    let mut i: usize = 0;
    while i < n
        invariant
            n == found@.len(),
            i <= n,
            marks@.len() == i,
            forall|k: int|
                0 <= k < i ==> #[trigger] marks@[k] == !paths_of(files@).contains(
                    paths_of(found@)[k],
                ),
        decreases n - i,
    {
        assert(paths_of(found@)[i as int] == texts(found@[i as int]@));
        marks.push(!has_path(files, found[i].as_slice()));
        i += 1;
    }
    assert(marks@ =~= unknown_marks(paths_of(found@), paths_of(files@)));
    let (fresh, _known) = partition(found, marks.as_slice());
    fresh
}

/// The items that are not in a file that a custom collector skipped.
pub fn drop_skipped(items: Vec<TestItem>, skipped: &[Vec<String>]) -> (r: Vec<TestItem>)
    ensures
        r@ == chosen(items@, outside_marks(items@, paths_of(skipped@)), true),
{
    let n: usize = items.len();
    let mut marks: Vec<bool> = Vec::new();
    let mut i: usize = 0;
    while i < n
        invariant
            n == items@.len(),
            i <= n,
            marks@.len() == i,
            forall|k: int|
                0 <= k < i ==> #[trigger] marks@[k] == !paths_of(skipped@).contains(
                    texts(items@[k].path@),
                ),
        decreases n - i,
    {
        marks.push(!has_path(skipped, items[i].path.as_slice()));
        i += 1;
    }
    assert(marks@ =~= outside_marks(items@, paths_of(skipped@)));
    let (kept, _dropped) = partition(items, marks.as_slice());
    kept
}

// ---------------------------------------------------------------------------
// Laws
// ---------------------------------------------------------------------------

/// No item of a skipped file is kept.
pub proof fn skipped_files_have_no_items(
    items: Seq<TestItem>,
    all: Seq<TestItem>,
    skipped: Seq<Seq<Seq<char>>>,
)
    requires
        items.is_prefix_of(all),
    ensures
        forall|i: int|
            0 <= i < chosen(items, outside_marks(all, skipped), true).len() ==> !skipped.contains(
                texts((#[trigger] chosen(items, outside_marks(all, skipped), true)[i]).path@),
            ),
    decreases items.len(),
{
    if items.len() > 0 {
        skipped_files_have_no_items(items.drop_last(), all, skipped);
        assert(items.last() == all[items.len() - 1]);
    }
}

/// What is collected besides modules, and in which order: doctests of modules where
/// they are asked for, text files, what hooks collect from files where there are
/// such hooks; the log is closed last.
pub proof fn extra_goes_in_order(doctest_modules: bool, has_file_hook: bool)
    ensures
        ({
            let list = extra_order(doctest_modules, has_file_hook);
            let n: int = if doctest_modules {
                1
            } else {
                0
            };
            &&& list.len() == n + 2 + (if has_file_hook {
                1int
            } else {
                0
            })
            &&& doctest_modules ==> list[0] == ExtraStep::Modules
            &&& list[n] == ExtraStep::TextFiles
            &&& has_file_hook ==> list[n + 1] == ExtraStep::CustomFiles
            &&& list.last() == ExtraStep::CloseLog
        }),
{
}

/// A module that cannot be imported for its doctests is an error, or a skip where
/// such errors are to be passed over.
pub proof fn doctest_modules_fail_or_skip(
    x: ImportEffect,
    ignore_errors: bool,
    nodeid: Seq<char>,
    shown: Seq<char>,
    rendered: Seq<char>,
)
    requires
        module_effect_of(x, ignore_errors, nodeid, shown, rendered),
    ensures
        x.fatal is None,
        !ignore_errors ==> x.error is Some && x.error->0@ == rendered && x.reports@.len() == 0
            && x.skipped_module is None && x.recorded_skip is None,
        ignore_errors ==> x.error is None && x.reports@.len() == 1 && x.reports@[0].outcome
            == Outcome::Skipped && x.skipped_module is Some && x.skipped_module->0.nodeid@ == nodeid
            && x.skipped_module->0.location@ == nodeid + ":1"@ && x.recorded_skip is Some
            && x.recorded_skip->0@ == "unable to import module PosixPath('"@ + shown + "')"@,
{
}

/// Text files that are collected already are not collected again; the new ones keep
/// their order.
pub proof fn text_files_are_collected_once(
    found: Seq<Vec<String>>,
    files: Seq<Vec<String>>,
) -> (at: Seq<int>)
    ensures
        ({
            let new = chosen(found, unknown_marks(paths_of(found), paths_of(files)), true);
            &&& at.len() == new.len()
            &&& forall|k: int|
                0 <= k < at.len() ==> 0 <= #[trigger] at[k] < found.len() && new[k] == found[at[k]]
                    && !paths_of(files).contains(texts(found[at[k]]@))
            &&& forall|j: int, k: int| 0 <= j < k < at.len() ==> #[trigger] at[j] < #[trigger] at[k]
            &&& forall|i: int|
                0 <= i < found.len() && !paths_of(files).contains(texts((#[trigger] found[i])@))
                    ==> at.contains(i)
        }),
{
    let marks = unknown_marks(paths_of(found), paths_of(files));
    let at = chosen_keeps_order(found, marks, true);
    assert forall|i: int|
        0 <= i < found.len() && !paths_of(files).contains(
            texts((#[trigger] found[i])@),
        ) implies at.contains(i) by {
        assert(marks[i]);
    }
    at
}

/// The items of skipped files are dropped, all others stay in their order.
pub proof fn other_items_stay(items: Seq<TestItem>, skipped: Seq<Seq<Seq<char>>>) -> (at: Seq<int>)
    ensures
        ({
            let kept = chosen(items, outside_marks(items, skipped), true);
            &&& at.len() == kept.len()
            &&& forall|k: int|
                0 <= k < at.len() ==> 0 <= #[trigger] at[k] < items.len() && kept[k] == items[at[k]]
                    && !skipped.contains(texts(items[at[k]].path@))
            &&& forall|j: int, k: int| 0 <= j < k < at.len() ==> #[trigger] at[j] < #[trigger] at[k]
            &&& forall|i: int|
                0 <= i < items.len() && !skipped.contains(texts((#[trigger] items[i]).path@))
                    ==> at.contains(i)
        }),
{
    let marks = outside_marks(items, skipped);
    let at = chosen_keeps_order(items, marks, true);
    assert forall|i: int|
        0 <= i < items.len() && !skipped.contains(
            texts((#[trigger] items[i]).path@),
        ) implies at.contains(i) by {
        assert(marks[i]);
    }
    at
}

} // verus!
