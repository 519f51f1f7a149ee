//! Reading items back after `pytest_collection_modifyitems`: hooks reorder
//! and drop nodes and change their marks, the items follow.

use vstd::prelude::*;

use crate::item::{MarkData, TestItem};
use crate::lists::{contains_split, takeable};
use crate::object::Handle;
use crate::parametrize::copy_marks;

verus! {

/// A node as the hooks left it.
pub struct NodeState {
    pub nodeid: String,
    pub marks: Vec<MarkData>,
}

/// A node and the item that it stands for, by their positions.
pub struct Pair {
    pub node: int,
    pub item: int,
}

/// The item is already taken.
pub open spec fn is_taken(pairs: Seq<Pair>, item: int) -> bool {
    exists|k: int| 0 <= k < pairs.len() && (#[trigger] pairs[k]).item == item
}

/// The first item at or after `from` with this nodeid that is not taken.
pub open spec fn first_free(
    items: Seq<TestItem>,
    nodeid: Seq<char>,
    pairs: Seq<Pair>,
    from: int,
) -> Option<int>
    decreases items.len() - from,
{
    if from < 0 || from >= items.len() {
        None
    } else if items[from].nodeid@ == nodeid && !is_taken(pairs, from) {
        Some(from)
    } else {
        first_free(items, nodeid, pairs, from + 1)
    }
}

/// Each of the first `n` nodes takes the first item of its nodeid that is
/// left; one without such an item takes none.
pub open spec fn pairs_upto(items: Seq<TestItem>, nodes: Seq<NodeState>, n: int) -> Seq<Pair>
    decreases n,
{
    if n <= 0 {
        seq![]
    } else {
        let before = pairs_upto(items, nodes, n - 1);
        match first_free(items, nodes[n - 1].nodeid@, before, 0) {
            Some(item) => before.push(Pair { node: n - 1, item }),
            None => before,
        }
    }
}

/// `r` is the item with these marks in place of its own.
pub open spec fn remarked(item: TestItem, marks: Seq<MarkData>, r: TestItem) -> bool {
    r == (TestItem { marks: r.marks, ..item }) && r.marks@ == marks
}

/// The position of the first item that a node takes.
fn find_free(
    boxed: &Vec<Option<TestItem>>,
    nodeid: &String,
    Ghost(items): Ghost<Seq<TestItem>>,
    Ghost(pairs): Ghost<Seq<Pair>>,
) -> (r: Option<usize>)
    requires
        boxed@.len() == items.len(),
        forall|i: int|
            0 <= i < items.len() ==> #[trigger] boxed@[i] == (if is_taken(pairs, i) {
                None
            } else {
                Some(items[i])
            }),
    ensures
        match first_free(items, nodeid@, pairs, 0) {
            Some(i) => r matches Some(k) && k == i && k < items.len() && !is_taken(pairs, i),
            None => r is None,
        },
{
    let mut i: usize = 0;
    while i < boxed.len()
        invariant
            i <= boxed@.len(),
            boxed@.len() == items.len(),
            forall|i: int|
                0 <= i < items.len() ==> #[trigger] boxed@[i] == (if is_taken(pairs, i) {
                    None
                } else {
                    Some(items[i])
                }),
            first_free(items, nodeid@, pairs, 0) == first_free(items, nodeid@, pairs, i as int),
        decreases boxed@.len() - i,
    {
        assert(boxed@[i as int] == (if is_taken(pairs, i as int) {
            None
        } else {
            Some(items[i as int])
        }));
        match &boxed[i] {
            Some(item) => {
                if item.nodeid == *nodeid {
                    return Some(i);
                }
            },
            None => {},
        }
        i += 1;
    }
    None
}

/// The items in the order of the nodes, with the marks of the nodes. Items
/// with the same nodeid are matched first come, first served; an item whose
/// node is gone is dropped.
pub fn read_back(items: Vec<TestItem>, nodes: &[NodeState]) -> (r: Vec<TestItem>)
    ensures
        ({
            let pairs = pairs_upto(items@, nodes@, nodes@.len() as int);
            &&& r@.len() == pairs.len()
            &&& forall|k: int|
                0 <= k < pairs.len() ==> remarked(
                    items@[pairs[k].item],
                    nodes@[pairs[k].node].marks@,
                    #[trigger] r@[k],
                )
        }),
{
    let ghost all = items@;
    let mut boxed = takeable(items);
    let mut r: Vec<TestItem> = Vec::new();
    let mut n: usize = 0;
    while n < nodes.len()
        invariant
            n <= nodes@.len(),
            boxed@.len() == all.len(),
            r@.len() == pairs_upto(all, nodes@, n as int).len(),
            forall|i: int|
                0 <= i < all.len() ==> #[trigger] boxed@[i] == (if is_taken(
                    pairs_upto(all, nodes@, n as int),
                    i,
                ) {
                    None
                } else {
                    Some(all[i])
                }),
            forall|k: int|
                0 <= k < r@.len() ==> remarked(
                    all[pairs_upto(all, nodes@, n as int)[k].item],
                    nodes@[pairs_upto(all, nodes@, n as int)[k].node].marks@,
                    #[trigger] r@[k],
                ),
        decreases nodes@.len() - n,
    {
        let ghost pairs = pairs_upto(all, nodes@, n as int);
        let ghost next = pairs_upto(all, nodes@, n + 1);
        match find_free(&boxed, &nodes[n].nodeid, Ghost(all), Ghost(pairs)) {
            Some(i) => {
                let mut slot: Option<TestItem> = None;
                assert(boxed@[i as int] == Some(all[i as int]));
                core::mem::swap(&mut slot, &mut boxed[i]);
                let mut item = slot.unwrap();
                item.marks = copy_marks(nodes[n].marks.as_slice());
                let ghost before = r@;
                r.push(item);
                proof {
                    assert(next == pairs.push(Pair { node: n as int, item: i as int }));
                    assert forall|j: int| 0 <= j < all.len() implies #[trigger] boxed@[j] == (
                    if is_taken(next, j) {
                        None
                    } else {
                        Some(all[j])
                    }) by {
                        taken_push(pairs, Pair { node: n as int, item: i as int }, j);
                    }
                    assert forall|k: int| 0 <= k < r@.len() implies remarked(
                        all[next[k].item],
                        nodes@[next[k].node].marks@,
                        #[trigger] r@[k],
                    ) by {
                        if k < before.len() {
                            assert(r@[k] == before[k]);
                            assert(next[k] == pairs[k]);
                        }
                    }
                }
            },
            None => {},
        }
        n += 1;
    }
    r
}

proof fn taken_push(pairs: Seq<Pair>, p: Pair, j: int)
    ensures
        is_taken(pairs.push(p), j) <==> is_taken(pairs, j) || p.item == j,
{
    let more = pairs.push(p);
    if is_taken(pairs, j) {
        let k = choose|k: int| 0 <= k < pairs.len() && (#[trigger] pairs[k]).item == j;
        assert(more[k].item == j);
    }
    if p.item == j {
        assert(more[pairs.len() as int].item == j);
    }
    if is_taken(more, j) {
        let k = choose|k: int| 0 <= k < more.len() && (#[trigger] more[k]).item == j;
        if k < pairs.len() {
            assert(pairs[k].item == j);
        }
    }
}

/// Classes in order of appearance, each once.
pub open spec fn distinct_upto(classes: Seq<Option<Handle>>, n: int) -> Seq<Handle>
    decreases n,
{
    if n <= 0 {
        seq![]
    } else {
        let before = distinct_upto(classes, n - 1);
        match classes[n - 1] {
            Some(c) => if before.contains(c) {
                before
            } else {
                before.push(c)
            },
            None => before,
        }
    }
}

/// The classes of the items, in order of appearance, each once: the order in
/// which their collectors are announced.
pub fn distinct_classes(classes: &[Option<Handle>]) -> (r: Vec<Handle>)
    ensures
        r@ == distinct_upto(classes@, classes@.len() as int),
{
    let mut r: Vec<Handle> = Vec::new();
    let mut i: usize = 0;
    while i < classes.len()
        invariant
            i <= classes@.len(),
            r@ == distinct_upto(classes@, i as int),
        decreases classes@.len() - i,
    {
        match classes[i] {
            Some(c) => {
                let mut found = false;
                let mut k: usize = 0;
                while k < r.len()
                    invariant
                        k <= r@.len(),
                        found == r@.take(k as int).contains(c),
                    decreases r@.len() - k,
                {
                    proof {
                        crate::lists::take_next(r@, k as int);
                        crate::lists::contains_split(r@.take(k + 1), c);
                        assert(r@.take(k + 1).drop_last() =~= r@.take(k as int));
                    }
                    if r[k] == c {
                        found = true;
                    }
                    k += 1;
                }
                assert(r@.take(k as int) =~= r@);
                if !found {
                    r.push(c);
                }
            },
            None => {},
        }
        i += 1;
    }
    r
}

// ---------------------------------------------------------------------------
// Laws
// ---------------------------------------------------------------------------

/// What a node takes is an item of its nodeid that was left.
proof fn first_free_facts(
    items: Seq<TestItem>,
    nodeid: Seq<char>,
    pairs: Seq<Pair>,
    from: int,
)
    requires
        0 <= from,
    ensures
        match first_free(items, nodeid, pairs, from) {
            Some(i) => {
                &&& from <= i < items.len()
                &&& items[i].nodeid@ == nodeid
                &&& !is_taken(pairs, i)
                &&& forall|j: int|
                    from <= j < i && (#[trigger] items[j]).nodeid@ == nodeid ==> is_taken(pairs, j)
            },
            None => forall|j: int|
                from <= j < items.len() && (#[trigger] items[j]).nodeid@ == nodeid ==> is_taken(
                    pairs,
                    j,
                ),
        },
    decreases items.len() - from,
{
    if from < items.len() && !(items[from].nodeid@ == nodeid && !is_taken(pairs, from)) {
        first_free_facts(items, nodeid, pairs, from + 1);
    }
}

/// Reading back never uses an item twice and never swaps nodeids.
pub proof fn no_item_twice(items: Seq<TestItem>, nodes: Seq<NodeState>, n: int)
    requires
        0 <= n <= nodes.len(),
    ensures
        ({
            let pairs = pairs_upto(items, nodes, n);
            &&& forall|k: int|
                0 <= k < pairs.len() ==> {
                    &&& 0 <= (#[trigger] pairs[k]).item < items.len()
                    &&& 0 <= pairs[k].node < n
                    &&& items[pairs[k].item].nodeid@ == nodes[pairs[k].node].nodeid@
                }
            &&& forall|j: int, k: int|
                0 <= j < k < pairs.len() ==> (#[trigger] pairs[j]).item != (
                #[trigger] pairs[k]).item
        }),
    decreases n,
{
    if n > 0 {
        no_item_twice(items, nodes, n - 1);
        let before = pairs_upto(items, nodes, n - 1);
        first_free_facts(items, nodes[n - 1].nodeid@, before, 0);
        if let Some(i) = first_free(items, nodes[n - 1].nodeid@, before, 0) {
            assert forall|j: int| 0 <= j < before.len() implies (#[trigger] before[j]).item != i by {
                if before[j].item == i {
                    assert(is_taken(before, i));
                }
            }
        }
    }
}

/// Hooks that leave the nodes as they are leave the items in their order,
/// even where nodeids repeat.
pub proof fn untouched_nodes_keep_order(items: Seq<TestItem>, nodes: Seq<NodeState>, n: int)
    requires
        nodes.len() == items.len(),
        forall|i: int| 0 <= i < items.len() ==> (#[trigger] nodes[i]).nodeid@ == items[i].nodeid@,
        0 <= n <= items.len(),
    ensures
        pairs_upto(items, nodes, n).len() == n,
        forall|k: int|
            0 <= k < n ==> (#[trigger] pairs_upto(items, nodes, n)[k]).item == k && pairs_upto(
                items,
                nodes,
                n,
            )[k].node == k,
    decreases n,
{
    if n > 0 {
        untouched_nodes_keep_order(items, nodes, n - 1);
        let before = pairs_upto(items, nodes, n - 1);
        let id = nodes[n - 1].nodeid@;
        first_free_facts(items, id, before, 0);
        assert(items[n - 1].nodeid@ == id);
        assert(!is_taken(before, n - 1)) by {
            if is_taken(before, n - 1) {
                let k = choose|k: int| 0 <= k < before.len() && (#[trigger] before[k]).item == n - 1;
                assert(before[k].item == k);
            }
        }
        if let Some(i) = first_free(items, id, before, 0) {
            if i < n - 1 {
                assert(before[i].item == i);
                assert(is_taken(before, i));
            }
        }
    }
}

/// What the hooks left of the nodes is read back node by node: a node gets the first
/// item with its nodeid that no earlier node got, and none where there is no such
/// item.
pub proof fn nodes_get_their_items(items: Seq<TestItem>, nodes: Seq<NodeState>, n: int)
    requires
        0 < n <= nodes.len(),
    ensures
        pairs_upto(items, nodes, 0).len() == 0,
        ({
            let before = pairs_upto(items, nodes, n - 1);
            let all = pairs_upto(items, nodes, n);
            let nodeid = nodes[n - 1].nodeid@;
            ||| all == before && forall|j: int|
                0 <= j < items.len() && (#[trigger] items[j]).nodeid@ == nodeid ==> is_taken(
                    before,
                    j,
                )
            ||| all.len() == before.len() + 1 && all.drop_last() == before && all.last().node == n
                - 1 && 0 <= all.last().item < items.len() && items[all.last().item].nodeid@
                == nodeid && !is_taken(before, all.last().item) && forall|j: int|
                0 <= j < all.last().item && (#[trigger] items[j]).nodeid@ == nodeid ==> is_taken(
                    before,
                    j,
                )
        }),
{
    let before = pairs_upto(items, nodes, n - 1);
    first_free_is(items, nodes[n - 1].nodeid@, before, 0);
    let all = pairs_upto(items, nodes, n);
    if first_free(items, nodes[n - 1].nodeid@, before, 0) is Some {
        assert(all.drop_last() =~= before);
    }
}

proof fn first_free_is(items: Seq<TestItem>, nodeid: Seq<char>, pairs: Seq<Pair>, from: int)
    requires
        0 <= from <= items.len(),
    ensures
        match first_free(items, nodeid, pairs, from) {
            Some(k) => from <= k < items.len() && items[k].nodeid@ == nodeid && !is_taken(pairs, k)
                && forall|j: int|
                from <= j < k && (#[trigger] items[j]).nodeid@ == nodeid ==> is_taken(pairs, j),
            None => forall|j: int|
                from <= j < items.len() && (#[trigger] items[j]).nodeid@ == nodeid ==> is_taken(
                    pairs,
                    j,
                ),
        },
    decreases items.len() - from,
{
    if from < items.len() {
        first_free_is(items, nodeid, pairs, from + 1);
    }
}

/// An item that is read back has the marks of its node, and is otherwise what it was.
pub proof fn items_get_the_marks(item: TestItem, marks: Seq<MarkData>, r: TestItem)
    requires
        remarked(item, marks, r),
    ensures
        r.marks@ == marks,
        r.nodeid == item.nodeid && r.path == item.path && r.module_name == item.module_name,
        r.func == item.func && r.func_name == item.func_name && r.cls == item.cls,
        r.fixture_names == item.fixture_names && r.callspec == item.callspec,
        r.extra_fixture_names == item.extra_fixture_names,
        r.max_param_scope == item.max_param_scope && r.scope_sort_keys == item.scope_sort_keys,
        r.is_coroutine == item.is_coroutine && r.is_doctest == item.is_doctest,
{
}

/// Each class comes up once, in the order in which the classes appear first.
pub proof fn classes_come_up_once(classes: Seq<Option<Handle>>, n: int, cls: Handle)
    requires
        0 <= n <= classes.len(),
    ensures
        distinct_upto(classes, n).no_duplicates(),
        distinct_upto(classes, n).contains(cls) <==> exists|i: int|
            0 <= i < n && #[trigger] classes[i] == Some(cls),
        n > 0 ==> distinct_upto(classes, n - 1).is_prefix_of(distinct_upto(classes, n)),
    decreases n,
{
    if n > 0 {
        classes_come_up_once(classes, n - 1, cls);
        let before = distinct_upto(classes, n - 1);
        let all = distinct_upto(classes, n);
        assert(before =~= all.subrange(0, before.len() as int));
        if let Some(c) = classes[n - 1] {
            if !before.contains(c) {
                contains_split(all, cls);
                assert(all.drop_last() =~= before);
            }
        }
        if exists|i: int| 0 <= i < n && #[trigger] classes[i] == Some(cls) {
            let i = choose|i: int| 0 <= i < n && #[trigger] classes[i] == Some(cls);
            if i < n - 1 {
                assert(before.contains(cls));
            }
        }
        if all.contains(cls) && !before.contains(cls) {
            assert(classes[n - 1] == Some(cls));
        }
    }
}

} // verus!
