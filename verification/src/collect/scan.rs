//! The search for `pytest_plugins` in conftests that are not at the top.

use vstd::prelude::*;

use crate::fixture::{precedes, text_before, text_order_total, text_order_transitive};
use crate::lists::{contains_split, contains_sum, copy_texts, texts_prefix};
use crate::paths::{has_path, paths_of, same_path};
use crate::sorting::{ints, is_order, sort, sorted, sorting_orders};
use crate::text::{contains, join, joined, occurs, same, starts_with, texts};

verus! {

/// An entry of a directory.
pub struct Child {
    pub name: String,
    pub is_dir: bool,
}

/// What to do with an entry of a directory.
#[derive(Debug, Clone, Copy, PartialEq, Eq, Structural)]
pub enum Visit {
    /// Search the directory.
    Descend(usize),
    /// Read the conftest.
    Inspect(usize),
}

// ---------------------------------------------------------------------------
// Model
// ---------------------------------------------------------------------------

/// The order of the entries by name.
pub open spec fn name_order(children: Seq<Child>) -> spec_fn(int, int) -> bool {
    |a: int, b: int| text_before(children[a].name@, children[b].name@)
}

/// The first `n` entries, by name.
pub open spec fn by_name(children: Seq<Child>, n: int) -> Seq<int> {
    sorted(name_order(children), n)
}

/// A directory that is not searched.
pub open spec fn is_skipped_dir(name: Seq<char>) -> bool {
    ||| "."@.is_prefix_of(name)
    ||| name == "__pycache__"@
    ||| name == "node_modules"@
}

/// What to do with the entry `k` of `dir`. The conftest of the root directory
/// and those that are loaded already may have plugins.
pub open spec fn visit_of(
    dir: Seq<Seq<char>>,
    children: Seq<Child>,
    root: Seq<Seq<char>>,
    loaded: Seq<Seq<Seq<char>>>,
    k: int,
) -> Seq<Visit> {
    let c = children[k];
    if c.is_dir {
        if is_skipped_dir(c.name@) {
            seq![]
        } else {
            seq![Visit::Descend(k as usize)]
        }
    } else if c.name@ == "conftest.py"@ && dir != root && !loaded.contains(dir.push(c.name@)) {
        seq![Visit::Inspect(k as usize)]
    } else {
        seq![]
    }
}

/// What to do with the entries `ixs` of `dir`.
pub open spec fn visits_of(
    dir: Seq<Seq<char>>,
    children: Seq<Child>,
    root: Seq<Seq<char>>,
    loaded: Seq<Seq<Seq<char>>>,
    ixs: Seq<int>,
) -> Seq<Visit>
    decreases ixs.len(),
{
    if ixs.len() == 0 {
        seq![]
    } else {
        visits_of(dir, children, root, loaded, ixs.drop_last()) + visit_of(
            dir,
            children,
            root,
            loaded,
            ixs.last(),
        )
    }
}

/// `path` as seen from the root directory, where it lies in it.
pub open spec fn seen_from(path: Seq<Seq<char>>, root: Seq<Seq<char>>) -> Seq<Seq<char>> {
    if root.is_prefix_of(path) {
        path.skip(root.len() as int)
    } else {
        path
    }
}

/// What is said of a conftest with this content, where it names plugins.
pub open spec fn plugins_error(
    path: Seq<Seq<char>>,
    root: Seq<Seq<char>>,
    content: Seq<char>,
) -> Option<Seq<char>> {
    if occurs(content, "pytest_plugins"@) {
        Some(
            "Defining 'pytest_plugins' in a non-top-level conftest is no longer supported: please remove it from "@
                + joined(seen_from(path, root), "/"@),
        )
    } else {
        None
    }
}

// ---------------------------------------------------------------------------
// Executable functions
// ---------------------------------------------------------------------------

/// The entries of a directory by name.
fn sort_children(children: &[Child]) -> (r: Vec<usize>)
    ensures
        ints(r@) == by_name(children@, children@.len() as int),
        forall|i: int| 0 <= i < r@.len() ==> #[trigger] r@[i] < children@.len(),
{
    let n: usize = children.len();
    let ghost order = name_order(children@);
    let by = |a: usize, b: usize| -> (r: bool)
        requires
            a < children@.len(),
            b < children@.len(),
        ensures
            r == name_order(children@)(a as int, b as int),
        { precedes(children[a].name.as_str(), children[b].name.as_str()) };
    sort(n, &by, Ghost(order))
}

fn skipped_dir(name: &str) -> (r: bool)
    ensures
        r == is_skipped_dir(name@),
{
    starts_with(name, ".") || same(name, "__pycache__") || same(name, "node_modules")
}

/// `dir` with `name` below it.
fn below(dir: &[String], name: &str) -> (r: Vec<String>)
    ensures
        texts(r@) == texts(dir@).push(name@),
{
    let mut r = copy_texts(dir);
    let s: String = name.to_owned();
    r.push(s);
    assert(texts(r@) =~= texts(dir@).push(name@));
    r
}

/// What to do with the entries of `dir`, by name: `loaded` are the conftests
/// that may have plugins.
pub fn visits(dir: &[String], children: &[Child], root: &[String], loaded: &[Vec<String>]) -> (r:
    Vec<Visit>)
    ensures
        r@ == visits_of(
            texts(dir@),
            children@,
            texts(root@),
            paths_of(loaded@),
            by_name(children@, children@.len() as int),
        ),
{
    let order = sort_children(children);
    let ghost ixs = ints(order@);
    let at_root = same_path(dir, root);
    let n: usize = order.len();
    let mut r: Vec<Visit> = Vec::new();
    let mut i: usize = 0;
    assert(ixs.take(0) =~= seq![]);
    while i < n
        invariant
            n == order@.len(),
            i <= n,
            ixs == ints(order@),
            at_root == (texts(dir@) == texts(root@)),
            forall|k: int| 0 <= k < n ==> #[trigger] order@[k] < children@.len(),
            r@ == visits_of(
                texts(dir@),
                children@,
                texts(root@),
                paths_of(loaded@),
                ixs.take(i as int),
            ),
        decreases n - i,
    {
        let k: usize = order[i];
        let ghost before = r@;
        assert(ixs.take(i + 1).drop_last() =~= ixs.take(i as int));
        assert(ixs.take(i + 1).last() == k as int);
        let c = &children[k];
        if c.is_dir {
            if !skipped_dir(c.name.as_str()) {
                r.push(Visit::Descend(k));
            }
        } else if same(c.name.as_str(), "conftest.py") && !at_root {
            let path = below(dir, c.name.as_str());
            if !has_path(loaded, path.as_slice()) {
                r.push(Visit::Inspect(k));
            }
        }
        assert(r@ =~= before + visit_of(
            texts(dir@),
            children@,
            texts(root@),
            paths_of(loaded@),
            k as int,
        ));
        i += 1;
    }
    assert(ixs.take(n as int) =~= ixs);
    r
}

/// What is said of a conftest with this content, where it names plugins.
pub fn inspect_conftest(path: &[String], root: &[String], content: &str) -> (r: Option<String>)
    ensures
        match r {
            Some(m) => plugins_error(texts(path@), texts(root@), content@) == Some(m@),
            None => plugins_error(texts(path@), texts(root@), content@) is None,
        },
{
    if !contains(content, "pytest_plugins") {
        return None;
    }
    let shown = if texts_prefix(root, path) {
        let mut all = copy_texts(path);
        let n: usize = root.len();
        assert(texts(root@).len() == n && texts(path@).len() == path@.len());
        let rest = all.split_off(n);
        assert(texts(rest@) =~= texts(path@).skip(n as int));
        rest
    } else {
        copy_texts(path)
    };
    let place = join(shown.as_slice(), "/");
    let mut m: String =
        "Defining 'pytest_plugins' in a non-top-level conftest is no longer supported: please remove it from ".to_owned();
    m.append(place.as_str());
    Some(m)
}

// ---------------------------------------------------------------------------
// Laws
// ---------------------------------------------------------------------------

/// The names at these positions stand in order.
pub open spec fn names_in_order(children: Seq<Child>, ixs: Seq<int>) -> bool {
    forall|i: int, j: int|
        0 <= i < j < ixs.len() ==> !text_before(
            (#[trigger] children[ixs[j]]).name@,
            (#[trigger] children[ixs[i]]).name@,
        )
}

proof fn names_have_an_order(children: Seq<Child>)
    ensures
        is_order(name_order(children)),
{
    let before = name_order(children);
    assert forall|a: int, b: int| #[trigger] before(a, b) implies !before(b, a) by {
        text_order_total(children[a].name@, children[b].name@);
    }
    assert forall|a: int, b: int, c: int|
        !#[trigger] before(a, b) && !#[trigger] before(b, c) implies !before(a, c) by {
        let (x, y, z) = (children[a].name@, children[b].name@, children[c].name@);
        text_order_total(x, y);
        text_order_total(y, z);
        text_order_total(x, z);
        if x != y && y != z {
            text_order_transitive(z, y, x);
        }
    }
}

/// The entries of a directory are visited by name, each once.
pub proof fn children_are_visited_by_name(children: Seq<Child>, n: int)
    requires
        0 <= n <= children.len(),
    ensures
        names_in_order(children, by_name(children, n)),
        by_name(children, n).to_multiset() == Seq::new(n as nat, |i: int| i).to_multiset(),
{
    let ixs = by_name(children, n);
    names_have_an_order(children);
    sorting_orders(name_order(children), n);
    assert forall|i: int, j: int| 0 <= i < j < ixs.len() implies !text_before(
        (#[trigger] children[ixs[j]]).name@,
        (#[trigger] children[ixs[i]]).name@,
    ) by {
        let before = name_order(children);
        assert(before(ixs[i], ixs[j]) || !before(ixs[j], ixs[i]));
    }
}

/// What is visited of a directory: every subdirectory but hidden ones and those of
/// compiled and of foreign code, and below the root a conftest that is not loaded.
pub proof fn directories_are_visited(
    dir: Seq<Seq<char>>,
    children: Seq<Child>,
    root: Seq<Seq<char>>,
    loaded: Seq<Seq<Seq<char>>>,
    ixs: Seq<int>,
    k: usize,
)
    requires
        forall|i: int| 0 <= i < ixs.len() ==> 0 <= #[trigger] ixs[i] < children.len(),
        children.len() <= usize::MAX,
    ensures
        visits_of(dir, children, root, loaded, ixs).contains(Visit::Descend(k)) <==> ixs.contains(
            k as int,
        ) && children[k as int].is_dir && !"."@.is_prefix_of(children[k as int].name@)
            && children[k as int].name@ != "__pycache__"@ && children[k as int].name@
            != "node_modules"@,
        visits_of(dir, children, root, loaded, ixs).contains(Visit::Inspect(k)) <==> ixs.contains(
            k as int,
        ) && !children[k as int].is_dir && children[k as int].name@ == "conftest.py"@ && dir != root
            && !loaded.contains(dir.push("conftest.py"@)),
    decreases ixs.len(),
{
    if ixs.len() > 0 {
        let init = ixs.drop_last();
        let before = visits_of(dir, children, root, loaded, init);
        let last = visit_of(dir, children, root, loaded, ixs.last());
        assert forall|i: int| 0 <= i < init.len() implies 0 <= #[trigger] init[i]
            < children.len() by {
            assert(ixs[i] == init[i]);
        }
        directories_are_visited(dir, children, root, loaded, init, k);
        contains_sum(before, last, Visit::Descend(k));
        contains_sum(before, last, Visit::Inspect(k));
        contains_split(ixs, k as int);
        assert(0 <= ixs[ixs.len() - 1] < children.len());
        if last.len() == 1 {
            assert(last.contains(last[0]));
        }
    }
}

/// Plugins are not to be named in a conftest below the root; the message names the
/// conftest, seen from the root.
pub proof fn plugins_are_named_at_the_root(
    path: Seq<Seq<char>>,
    root: Seq<Seq<char>>,
    rest: Seq<Seq<char>>,
    content: Seq<char>,
)
    ensures
        plugins_error(path, root, content) is Some <==> occurs(content, "pytest_plugins"@),
        occurs(content, "pytest_plugins"@) ==> plugins_error(root + rest, root, content) == Some(
            "Defining 'pytest_plugins' in a non-top-level conftest is no longer supported: please remove it from "@
                + joined(rest, "/"@),
        ),
{
    let p = root + rest;
    assert(root =~= p.subrange(0, root.len() as int));
    assert(p.skip(root.len() as int) =~= rest);
}

} // verus!
