//! Items that share the value of their widest parameter stand together, whatever
//! narrower parameters they have.

use vstd::prelude::*;

use crate::collect::grouping::{set_loose, users_exact, with_new_apart};
use crate::collect::param_scope::{
    all_slots_ok, all_users, boundary, every_key_is_a_wide_parameter,
    every_wide_parameter_is_a_key, grouped_as, grouping_order,
    item_keys, key_of, lists_belong, slot_means_key,
    slots_ok, stands_for, table_facts, table_of, upto, KeyView,
};
use crate::collect::reorder::{
    among, among_facts, arranged, arranged_facts, below, covered, distinct_below, in_bounds,
    listed, lower, open_slots, open_slots_facts, part_of, rearrangement,
    reordering_keeps_every_item, sweep_state, sweeps, swept, swept_facts, touched, touched_all, uses,
    with_new, with_new_facts, without, without_facts, Slot, Sweep,
};
use crate::fixture::Scope;
use crate::item::TestItem;
use crate::lists::contains_sum;

verus! {

// ---------------------------------------------------------------------------
// The lists of the keys hold nothing but users
// ---------------------------------------------------------------------------

/// Every item in the list of a key uses the key.
pub open spec fn members(of_item: Seq<Seq<Slot>>, of_key: Seq<Seq<usize>>) -> bool {
    forall|k: int, x: usize|
        0 <= k < of_key.len() && #[trigger] of_key[k].contains(x) ==> x < of_item.len() && uses(
            of_item,
            x,
            k,
        )
}

proof fn touched_keeps_members(of_item: Seq<Seq<Slot>>, of_key: Seq<Seq<usize>>, items: Seq<usize>)
    requires
        members(of_item, of_key),
        below(items, of_item.len()),
    ensures
        members(of_item, touched_all(of_item, of_key, items)),
        touched_all(of_item, of_key, items).len() == of_key.len(),
    decreases items.len(),
{
    if items.len() > 0 {
        let rest = items.skip(1);
        assert forall|i: int| 0 <= i < rest.len() implies #[trigger] rest[i] < of_item.len() by {
            assert(rest[i] == items[i + 1]);
        }
        touched_keeps_members(of_item, of_key, rest);
        let before = touched_all(of_item, of_key, rest);
        let item = items[0];
        let after = touched(of_item, before, item);
        assert forall|k: int, x: usize|
            0 <= k < after.len() && #[trigger] after[k].contains(x) implies x < of_item.len()
            && uses(of_item, x, k) by {
            if uses(of_item, item, k) {
                without_facts(before[k], item);
                contains_sum(seq![item], without(before[k], item), x);
                if x != item {
                    assert(before[k].contains(x));
                }
            } else {
                assert(before[k].contains(x));
            }
        }
    }
}

proof fn swept_keeps_members(
    of_item: Seq<Seq<Slot>>,
    of_key: Seq<Seq<usize>>,
    items: Seq<usize>,
    scope: Scope,
    sliced: Seq<usize>,
    done: Seq<usize>,
    loose: Seq<usize>,
    waiting: Seq<usize>,
)
    requires
        members(of_item, of_key),
        below(items, of_item.len()),
    ensures
        members(
            of_item,
            swept(of_item, of_key, items, scope, sliced, done, loose, waiting).of_key,
        ),
    decreases waiting.len(),
{
    if waiting.len() > 0 {
        let item = waiting[0];
        let rest = waiting.skip(1);
        let open = open_slots(of_item[item as int], scope, sliced);
        if done.contains(item) || loose.contains(item) {
            swept_keeps_members(of_item, of_key, items, scope, sliced, done, loose, rest);
        } else if open.len() == 0 {
            swept_keeps_members(of_item, of_key, items, scope, sliced, done, loose.push(item), rest);
        } else {
            let list = of_key[open.last().key as int];
            let same = among(list, items);
            among_facts(list, items);
            assert forall|i: int| 0 <= i < same.len() implies #[trigger] same[i] < of_item.len() by {
                assert(same.contains(same[i]));
                let p = choose|p: int| 0 <= p < items.len() && items[p] == same[i];
                assert(items[p] < of_item.len());
            }
            touched_keeps_members(of_item, of_key, same);
        }
    }
}

/// What holds between two sweeps.
spec fn between_sweeps(
    of_item: Seq<Seq<Slot>>,
    of_key: Seq<Seq<usize>>,
    items: Seq<usize>,
    sliced: Seq<usize>,
    done: Seq<usize>,
    waiting: Seq<usize>,
) -> bool {
    &&& of_key.len() <= usize::MAX
    &&& sweep_state(of_item, of_key, items, done, seq![], waiting)
    &&& members(of_item, of_key)
    &&& done.no_duplicates()
    &&& part_of(done, items)
    &&& sliced.no_duplicates()
    &&& below(sliced, of_key.len())
}

/// One sweep, and the items that it sets loose arranged at the next scope.
proof fn one_sweep(
    of_item: Seq<Seq<Slot>>,
    of_key: Seq<Seq<usize>>,
    items: Seq<usize>,
    scope: Scope,
    sliced: Seq<usize>,
    done: Seq<usize>,
    waiting: Seq<usize>,
)
    requires
        scope != Scope::Function,
        between_sweeps(of_item, of_key, items, sliced, done, waiting),
    ensures
        ({
            let s = swept(of_item, of_key, items, scope, sliced, done, seq![], waiting);
            let (order, after) = arranged(
                of_item,
                s.of_key,
                s.loose,
                lower(scope),
                of_key.len(),
            );
            &&& rearrangement(order, s.loose)
            &&& after.len() == of_key.len()
            &&& members(of_item, after)
            &&& with_new(done, order) == done + order
            &&& part_of(s.loose, items)
            &&& s.slicing matches Some(key) ==> between_sweeps(
                of_item,
                after,
                items,
                sliced.push(key),
                done + order,
                s.waiting,
            )
        }),
    decreases scope.width(), 0int, 0int,
{
    let keys = of_key.len();
    swept_facts(of_item, of_key, items, scope, sliced, done, seq![], waiting);
    swept_keeps_members(of_item, of_key, items, scope, sliced, done, seq![], waiting);
    let s = swept(of_item, of_key, items, scope, sliced, done, seq![], waiting);
    assert forall|i: int| 0 <= i < s.loose.len() implies #[trigger] s.loose[i] < of_item.len() by {
        assert(s.loose.contains(s.loose[i]));
        let p = choose|p: int| 0 <= p < items.len() && items[p] == s.loose[i];
        assert(items[p] < of_item.len());
    }
    arranged_facts(of_item, s.of_key, s.loose, lower(scope), keys);
    arranged_keeps_members(of_item, s.of_key, s.loose, lower(scope));
    let (order, after) = arranged(of_item, s.of_key, s.loose, lower(scope), keys);
    assert forall|i: int| 0 <= i < order.len() implies !done.contains(#[trigger] order[i]) by {
        assert(order.contains(order[i]));
        assert(s.loose.contains(order[i]));
    }
    with_new_apart(done, order);
    with_new_facts(done, order);
    let done2 = done + order;
    assert forall|x: usize| #[trigger] done2.contains(x) <==> done.contains(x) || s.loose.contains(
        x,
    ) by {
        contains_sum(done, order, x);
        assert(order.contains(x) <==> s.loose.contains(x));
    }
    if let Some(key) = s.slicing {
        let more = sliced.push(key);
        assert(more.no_duplicates());
        assert(below(more, keys));
        assert(part_of(done2, items));
        assert(covered(items, done2, seq![], s.waiting)) by {
            assert forall|x: usize| #[trigger] items.contains(x) implies done2.contains(x)
                || Seq::<usize>::empty().contains(x) || s.waiting.contains(x) by {
                assert(done.contains(x) || s.loose.contains(x) || s.waiting.contains(x));
            }
        }
    }
}

proof fn sweeps_keep_members(
    of_item: Seq<Seq<Slot>>,
    of_key: Seq<Seq<usize>>,
    items: Seq<usize>,
    scope: Scope,
    sliced: Seq<usize>,
    done: Seq<usize>,
    waiting: Seq<usize>,
)
    requires
        scope != Scope::Function,
        between_sweeps(of_item, of_key, items, sliced, done, waiting),
    ensures
        members(
            of_item,
            sweeps(of_item, of_key, items, scope, sliced, done, waiting, of_key.len()).1,
        ),
    decreases scope.width(), 1int, of_key.len() + 1 - sliced.len(),
{
    distinct_below(sliced, of_key.len());
    if waiting.len() > 0 {
        one_sweep(of_item, of_key, items, scope, sliced, done, waiting);
        let s = swept(of_item, of_key, items, scope, sliced, done, seq![], waiting);
        let (order, after) = arranged(of_item, s.of_key, s.loose, lower(scope), of_key.len());
        if let Some(key) = s.slicing {
            sweeps_keep_members(
                of_item,
                after,
                items,
                scope,
                sliced.push(key),
                done + order,
                s.waiting,
            );
        }
    }
}

proof fn arranged_keeps_members(
    of_item: Seq<Seq<Slot>>,
    of_key: Seq<Seq<usize>>,
    items: Seq<usize>,
    scope: Scope,
)
    requires
        of_key.len() <= usize::MAX,
        in_bounds(of_item, of_key.len()),
        listed(of_item, of_key),
        members(of_item, of_key),
        below(items, of_item.len()),
        items.no_duplicates(),
    ensures
        members(of_item, arranged(of_item, of_key, items, scope, of_key.len()).1),
    decreases scope.width(), 2int, 0int,
{
    if scope != Scope::Function && items.len() >= 3 {
        assert(covered(items, seq![], seq![], items));
        sweeps_keep_members(of_item, of_key, items, scope, seq![], seq![], items);
    }
}

// ---------------------------------------------------------------------------
// Items with one key of the widest scope
// ---------------------------------------------------------------------------

/// One of the slots is at the scope.
spec fn has_slot_at(list: Seq<Slot>, scope: Scope) -> bool {
    exists|j: int| 0 <= j < list.len() && (#[trigger] list[j]).scope == scope
}

/// Every item has a slot at the scope, and all its slots there are for one key,
/// which is the item's rank.
spec fn ranked(of_item: Seq<Seq<Slot>>, rank: Seq<usize>, scope: Scope) -> bool {
    &&& rank.len() == of_item.len()
    &&& forall|i: int, j: int|
        0 <= i < of_item.len() && 0 <= j < of_item[i].len() && (
        #[trigger] of_item[i][j]).scope == scope ==> of_item[i][j].key == rank[i]
    &&& forall|i: int|
        0 <= i < of_item.len() ==> has_slot_at(#[trigger] of_item[i], scope)
    &&& forall|i: int, j: int, x: int|
        0 <= i < of_item.len() && 0 <= j < of_item[i].len() && 0 <= x < rank.len()
            && #[trigger] of_item[i][j].key == #[trigger] rank[x] ==> of_item[i][j].scope == scope
}

/// No slot is at a scope that is wider than `low` and no wider than `high`.
spec fn unused_between(of_item: Seq<Seq<Slot>>, low: Scope, high: Scope) -> bool {
    forall|i: int, j: int|
        0 <= i < of_item.len() && 0 <= j < of_item[i].len() ==> !(low.width() < (
        #[trigger] of_item[i][j]).scope.width() <= high.width())
}

/// The items are ranked at a narrower scope as well, the next one that is used.
spec fn nested(of_item: Seq<Seq<Slot>>, inner: Seq<usize>, narrow: Scope, scope: Scope) -> bool {
    &&& narrow != Scope::Function
    &&& narrow.width() < scope.width()
    &&& ranked(of_item, inner, narrow)
    &&& unused_between(of_item, narrow, lower(scope))
}

proof fn open_slot_stays(list: Seq<Slot>, scope: Scope, sliced: Seq<usize>, j: int)
    requires
        0 <= j < list.len(),
        list[j].scope == scope,
        !sliced.contains(list[j].key),
    ensures
        open_slots(list, scope, sliced).len() > 0,
    decreases list.len(),
{
    if j < list.len() - 1 {
        assert(list.drop_last()[j] == list[j]);
        open_slot_stays(list.drop_last(), scope, sliced, j);
    }
}

/// An item has an open slot as long as it was not sliced by its rank.
proof fn open_by_rank(
    of_item: Seq<Seq<Slot>>,
    rank: Seq<usize>,
    scope: Scope,
    sliced: Seq<usize>,
    x: int,
)
    requires
        ranked(of_item, rank, scope),
        0 <= x < of_item.len(),
    ensures
        open_slots(of_item[x], scope, sliced).len() == 0 <==> sliced.contains(rank[x]),
        open_slots(of_item[x], scope, sliced).len() > 0 ==> open_slots(
            of_item[x],
            scope,
            sliced,
        ).last().key == rank[x],
{
    let open = open_slots(of_item[x], scope, sliced);
    open_slots_facts(of_item[x], scope, sliced);
    if open.len() > 0 {
        let s = open[open.len() - 1];
        let i = choose|i: int| 0 <= i < of_item[x].len() && of_item[x][i] == s;
        assert(of_item[x][i].key == rank[x]);
    }
    let j = choose|j: int| 0 <= j < of_item[x].len() && (#[trigger] of_item[x][j]).scope == scope;
    assert(of_item[x][j].key == rank[x]);
    if !sliced.contains(rank[x]) {
        open_slot_stays(of_item[x], scope, sliced, j);
    }
}

/// The list of a rank holds the items of that rank.
proof fn listed_by_rank(
    of_item: Seq<Seq<Slot>>,
    of_key: Seq<Seq<usize>>,
    rank: Seq<usize>,
    scope: Scope,
    x: int,
    y: usize,
)
    requires
        ranked(of_item, rank, scope),
        in_bounds(of_item, of_key.len()),
        listed(of_item, of_key),
        members(of_item, of_key),
        0 <= x < of_item.len(),
        y < of_item.len(),
    ensures
        rank[x] < of_key.len(),
        of_key[rank[x] as int].contains(y) <==> rank[y as int] == rank[x],
{
    let j = choose|j: int| 0 <= j < of_item[x].len() && (#[trigger] of_item[x][j]).scope == scope;
    assert(of_item[x][j].key == rank[x]);
    let k = rank[x] as int;
    if of_key[k].contains(y) {
        let i = choose|i: int|
            0 <= i < of_item[y as int].len() && #[trigger] of_item[y as int][i].key == k;
        assert(of_item[y as int][i].key == rank[x]);
        assert(of_item[y as int][i].scope == scope);
        assert(of_item[y as int][i].key == rank[y as int]);
    }
    if rank[y as int] == rank[x] {
        let i = choose|i: int|
            0 <= i < of_item[y as int].len() && (#[trigger] of_item[y as int][i]).scope == scope;
        assert(of_item[y as int][i].key == rank[y as int]);
        assert(of_key[of_item[y as int][i].key as int].contains(y));
    }
}

/// The first `m` that wait have the rank `key`, and all such items are among them.
spec fn leads(items: Seq<usize>, rank: Seq<usize>, waiting: Seq<usize>, key: usize, m: int) -> bool {
    &&& 0 <= m <= waiting.len()
    &&& forall|i: int| 0 <= i < m ==> rank[#[trigger] waiting[i] as int] == key
    &&& forall|x: usize| #[trigger]
        items.contains(x) && rank[x as int] == key ==> waiting.take(m).contains(x)
}

/// The items that were sliced by before the `current` rank are done.
spec fn done_before(
    items: Seq<usize>,
    rank: Seq<usize>,
    sliced: Seq<usize>,
    done: Seq<usize>,
    current: Option<usize>,
) -> bool {
    forall|x: usize| #[trigger]
        done.contains(x) <==> items.contains(x) && sliced.contains(rank[x as int]) && current
            != Some(rank[x as int])
}

/// A sweep sets loose the items of the current rank, then slices by another rank.
proof fn sweep_takes_a_rank(
    of_item: Seq<Seq<Slot>>,
    of_key: Seq<Seq<usize>>,
    items: Seq<usize>,
    rank: Seq<usize>,
    scope: Scope,
    sliced: Seq<usize>,
    done: Seq<usize>,
    loose: Seq<usize>,
    waiting: Seq<usize>,
    current: Option<usize>,
    m: int,
) -> (lead: int)
    requires
        ranked(of_item, rank, scope),
        in_bounds(of_item, of_key.len()),
        listed(of_item, of_key),
        members(of_item, of_key),
        below(items, of_item.len()),
        part_of(waiting, items),
        done_before(items, rank, sliced, done, current),
        current matches Some(k) ==> sliced.contains(k),
        0 <= m <= waiting.len(),
        forall|i: int| 0 <= i < m ==> current == Some(rank[#[trigger] waiting[i] as int]),
        forall|x: usize| #[trigger]
            loose.contains(x) ==> items.contains(x) && current == Some(rank[x as int]),
        forall|x: usize| #[trigger]
            items.contains(x) && current == Some(rank[x as int]) ==> loose.contains(x)
                || waiting.take(m).contains(x),
    ensures
        ({
            let s = swept(of_item, of_key, items, scope, sliced, done, loose, waiting);
            &&& forall|x: usize| #[trigger]
                s.loose.contains(x) <==> items.contains(x) && current == Some(rank[x as int])
            &&& s.slicing matches Some(key) ==> leads(items, rank, s.waiting, key, lead)
                && !sliced.contains(key)
        }),
    decreases waiting.len(),
{
    if waiting.len() == 0 {
        assert forall|x: usize| #[trigger]
            items.contains(x) && current == Some(rank[x as int]) implies loose.contains(x) by {
            assert(!waiting.take(m).contains(x));
        }
        0
    } else {
        let item = waiting[0];
        let rest = waiting.skip(1);
        assert(waiting.contains(item));
        assert(items.contains(item));
        let p = choose|p: int| 0 <= p < items.len() && items[p] == item;
        assert(items[p] < of_item.len());
        assert(part_of(rest, items)) by {
            assert forall|x: usize| #[trigger] rest.contains(x) implies items.contains(x) by {
                let i = choose|i: int| 0 <= i < rest.len() && rest[i] == x;
                assert(waiting[i + 1] == x);
                assert(waiting.contains(x));
            }
        }
        open_by_rank(of_item, rank, scope, sliced, item as int);
        let open = open_slots(of_item[item as int], scope, sliced);
        let m2: int = if m > 0 {
            m - 1
        } else {
            0
        };
        assert forall|i: int| 0 <= i < m2 implies current == Some(
            rank[#[trigger] rest[i] as int],
        ) by {
            assert(rest[i] == waiting[i + 1]);
        }
        assert forall|x: usize| #[trigger] waiting.take(m).contains(x) implies x == item
            || rest.take(m2).contains(x) by {
            let i = choose|i: int| 0 <= i < m && waiting.take(m)[i] == x;
            if i > 0 {
                assert(rest.take(m2)[i - 1] == x);
            }
        }
        if done.contains(item) || loose.contains(item) {
            if m > 0 {
                assert(current == Some(rank[waiting[0] as int]));
            } else {
                assert forall|x: usize| #[trigger]
                    items.contains(x) && current == Some(rank[x as int]) implies loose.contains(
                    x,
                ) by {
                    assert(!waiting.take(m).contains(x));
                }
            }
            sweep_takes_a_rank(
                of_item,
                of_key,
                items,
                rank,
                scope,
                sliced,
                done,
                loose,
                rest,
                current,
                m2,
            )
        } else if open.len() == 0 {
            assert(current == Some(rank[item as int]));
            let more = loose.push(item);
            assert forall|x: usize| #[trigger] more.contains(x) <==> loose.contains(x) || x
                == item by {
                contains_sum(loose, seq![item], x);
                assert(more =~= loose + seq![item]);
                assert(seq![item][0] == item);
            }
            sweep_takes_a_rank(
                of_item,
                of_key,
                items,
                rank,
                scope,
                sliced,
                done,
                more,
                rest,
                current,
                m2,
            )
        } else {
            let key = open.last().key;
            assert(key == rank[item as int]);
            if m > 0 {
                assert(current == Some(rank[waiting[0] as int]));
            }
            assert forall|x: usize| #[trigger]
                items.contains(x) && current == Some(rank[x as int]) implies loose.contains(x) by {
                assert(!waiting.take(0).contains(x));
            }
            let list = of_key[key as int];
            let same = among(list, items);
            among_facts(list, items);
            let next = same + rest;
            let lead = same.len() as int;
            assert(next.take(lead) =~= same);
            assert forall|x: usize| #[trigger] items.contains(x) implies (same.contains(x)
                <==> rank[x as int] == key) by {
                let q = choose|q: int| 0 <= q < items.len() && items[q] == x;
                assert(items[q] < of_item.len());
                listed_by_rank(of_item, of_key, rank, scope, item as int, x);
            }
            assert forall|i: int| 0 <= i < lead implies rank[#[trigger] next[i] as int] == key by {
                assert(next[i] == same[i]);
                assert(same.contains(same[i]));
            }
            lead
        }
    }
}

/// Items of one rank stand together in the list.
spec fn ranks_together(rank: Seq<usize>, order: Seq<usize>) -> bool {
    forall|p: int, q: int, r: int|
        0 <= p <= q <= r < order.len() && rank[#[trigger] order[p] as int]
            == rank[#[trigger] order[r] as int] ==> rank[#[trigger] order[q] as int]
            == rank[order[p] as int]
}

/// Items of one rank that have one inner rank too stand together in the list.
spec fn pairs_together(rank: Seq<usize>, inner: Seq<usize>, order: Seq<usize>) -> bool {
    forall|p: int, q: int, r: int|
        0 <= p <= q <= r < order.len() && rank[#[trigger] order[p] as int]
            == rank[#[trigger] order[r] as int] && inner[order[p] as int] == inner[order[r] as int]
            ==> rank[#[trigger] order[q] as int] == rank[order[p] as int]
            && inner[order[q] as int] == inner[order[p] as int]
}

proof fn sweeps_keep_ranks_together(
    of_item: Seq<Seq<Slot>>,
    of_key: Seq<Seq<usize>>,
    items: Seq<usize>,
    rank: Seq<usize>,
    scope: Scope,
    inner: Seq<usize>,
    narrow: Scope,
    sliced: Seq<usize>,
    done: Seq<usize>,
    waiting: Seq<usize>,
    current: Option<usize>,
    m: int,
)
    requires
        scope != Scope::Function,
        between_sweeps(of_item, of_key, items, sliced, done, waiting),
        ranked(of_item, rank, scope),
        done_before(items, rank, sliced, done, current),
        ranks_together(rank, done),
        nested(of_item, inner, narrow, scope) ==> pairs_together(rank, inner, done),
        current is None ==> m == 0,
        current matches Some(k) ==> sliced.contains(k) && leads(items, rank, waiting, k, m),
    ensures
        ranks_together(
            rank,
            sweeps(of_item, of_key, items, scope, sliced, done, waiting, of_key.len()).0,
        ),
        nested(of_item, inner, narrow, scope) ==> pairs_together(
            rank,
            inner,
            sweeps(of_item, of_key, items, scope, sliced, done, waiting, of_key.len()).0,
        ),
    decreases scope.width(), 0int, of_key.len() + 1 - sliced.len(),
{
    distinct_below(sliced, of_key.len());
    if waiting.len() > 0 {
        let none = Seq::<usize>::empty();
        one_sweep(of_item, of_key, items, scope, sliced, done, waiting);
        let lead = sweep_takes_a_rank(
            of_item,
            of_key,
            items,
            rank,
            scope,
            sliced,
            done,
            none,
            waiting,
            current,
            m,
        );
        let s = swept(of_item, of_key, items, scope, sliced, done, none, waiting);
        let (order, after) = arranged(of_item, s.of_key, s.loose, lower(scope), of_key.len());
        let done2 = done + order;
        assert forall|x: usize| #[trigger] done2.contains(x) <==> done.contains(x)
            || s.loose.contains(x) by {
            contains_sum(done, order, x);
            assert(order.contains(x) <==> s.loose.contains(x));
        }
        assert forall|i: int| 0 <= i < done2.len() implies current == Some(
            rank[#[trigger] done2[i] as int],
        ) <==> i >= done.len() by {
            if i < done.len() {
                assert(done2[i] == done[i]);
                assert(done.contains(done[i]));
            } else {
                assert(done2[i] == order[i - done.len()]);
                assert(order.contains(order[i - done.len()]));
                assert(s.loose.contains(done2[i]));
            }
        }
        assert forall|p: int, q: int, r: int|
            0 <= p <= q <= r < done2.len() && rank[#[trigger] done2[p] as int]
                == rank[#[trigger] done2[r] as int] implies rank[#[trigger] done2[q] as int]
            == rank[done2[p] as int] by {
            if r < done.len() {
                assert(done2[p] == done[p] && done2[q] == done[q] && done2[r] == done[r]);
            }
        }
        if nested(of_item, inner, narrow, scope) {
            arranged_inside(
                of_item,
                of_key,
                items,
                scope,
                inner,
                narrow,
                sliced,
                done,
                waiting,
            );
            assert forall|p: int, q: int, r: int|
                0 <= p <= q <= r < done2.len() && rank[#[trigger] done2[p] as int]
                    == rank[#[trigger] done2[r] as int] && inner[done2[p] as int]
                    == inner[done2[r] as int] implies rank[#[trigger] done2[q] as int]
                == rank[done2[p] as int] && inner[done2[q] as int] == inner[done2[p] as int] by {
                let n = done.len() as int;
                if r < n {
                    assert(done2[p] == done[p] && done2[q] == done[q] && done2[r] == done[r]);
                } else {
                    assert(p >= n);
                    assert(done2[p] == order[p - n] && done2[q] == order[q - n] && done2[r]
                        == order[r - n]);
                }
            }
        }
        if let Some(key) = s.slicing {
            let more = sliced.push(key);
            assert forall|k: usize| #[trigger] more.contains(k) <==> sliced.contains(k) || k
                == key by {
                contains_sum(sliced, seq![key], k);
                assert(more =~= sliced + seq![key]);
                assert(seq![key][0] == key);
            }
            assert(done_before(items, rank, more, done2, Some(key))) by {
                assert forall|x: usize| #[trigger] done2.contains(x) <==> items.contains(x)
                    && more.contains(rank[x as int]) && Some(key) != Some(rank[x as int]) by {
                    assert(done.contains(x) <==> items.contains(x) && sliced.contains(
                        rank[x as int],
                    ) && current != Some(rank[x as int]));
                    assert(s.loose.contains(x) <==> items.contains(x) && current == Some(
                        rank[x as int],
                    ));
                }
            }
            sweeps_keep_ranks_together(
                of_item,
                after,
                items,
                rank,
                scope,
                inner,
                narrow,
                more,
                done2,
                s.waiting,
                Some(key),
                lead,
            );
        }
    }
}

/// What a sweep sets loose is arranged by the inner rank.
proof fn arranged_inside(
    of_item: Seq<Seq<Slot>>,
    of_key: Seq<Seq<usize>>,
    items: Seq<usize>,
    scope: Scope,
    inner: Seq<usize>,
    narrow: Scope,
    sliced: Seq<usize>,
    done: Seq<usize>,
    waiting: Seq<usize>,
)
    requires
        scope != Scope::Function,
        between_sweeps(of_item, of_key, items, sliced, done, waiting),
        nested(of_item, inner, narrow, scope),
    ensures
        ({
            let s = swept(of_item, of_key, items, scope, sliced, done, seq![], waiting);
            ranks_together(
                inner,
                arranged(of_item, s.of_key, s.loose, lower(scope), of_key.len()).0,
            )
        }),
    decreases scope.width(), 0int, 0int,
{
    swept_facts(of_item, of_key, items, scope, sliced, done, seq![], waiting);
    swept_keeps_members(of_item, of_key, items, scope, sliced, done, seq![], waiting);
    let s = swept(of_item, of_key, items, scope, sliced, done, seq![], waiting);
    assert forall|i: int| 0 <= i < s.loose.len() implies #[trigger] s.loose[i] < of_item.len() by {
        assert(s.loose.contains(s.loose[i]));
        let p = choose|p: int| 0 <= p < items.len() && items[p] == s.loose[i];
        assert(items[p] < of_item.len());
    }
    arranged_keeps_ranks_together(
        of_item,
        s.of_key,
        s.loose,
        inner,
        narrow,
        inner,
        narrow,
        lower(scope),
    );
}

proof fn arranged_keeps_ranks_together(
    of_item: Seq<Seq<Slot>>,
    of_key: Seq<Seq<usize>>,
    items: Seq<usize>,
    rank: Seq<usize>,
    scope: Scope,
    inner: Seq<usize>,
    narrow: Scope,
    at: Scope,
)
    requires
        of_key.len() <= usize::MAX,
        scope != Scope::Function,
        at.width() >= scope.width(),
        in_bounds(of_item, of_key.len()),
        listed(of_item, of_key),
        members(of_item, of_key),
        below(items, of_item.len()),
        items.no_duplicates(),
        ranked(of_item, rank, scope),
        unused_between(of_item, scope, at),
    ensures
        ranks_together(rank, arranged(of_item, of_key, items, at, of_key.len()).0),
        nested(of_item, inner, narrow, scope) ==> pairs_together(
            rank,
            inner,
            arranged(of_item, of_key, items, at, of_key.len()).0,
        ),
    decreases at.width(), 1int, 0int,
{
    let none = Seq::<usize>::empty();
    if items.len() >= 3 {
        if at == scope {
            assert(covered(items, none, none, items));
            sweeps_keep_ranks_together(
                of_item,
                of_key,
                items,
                rank,
                scope,
                inner,
                narrow,
                none,
                none,
                items,
                None,
                0,
            );
        } else {
            assert forall|i: int| 0 <= i < items.len() implies !none.contains(#[trigger] items[i])
                && !none.contains(items[i]) && open_slots(
                of_item[items[i] as int],
                at,
                none,
            ).len() == 0 by {
                let x = items[i] as int;
                let open = open_slots(of_item[x], at, none);
                open_slots_facts(of_item[x], at, none);
                if open.len() > 0 {
                    let slot = open[0];
                    let j = choose|j: int| 0 <= j < of_item[x].len() && of_item[x][j] == slot;
                    assert(of_item[x][j].scope == at);
                }
            }
            set_loose(of_item, of_key, items, at, none, none, none, items, none);
            assert(items + none =~= items);
            assert(none + items =~= items);
            let sweep = swept(of_item, of_key, items, at, none, none, none, items);
            assert(sweep == (Sweep { loose: items, waiting: none, of_key, slicing: None }));
            reordering_keeps_every_item(of_item, of_key, items, lower(at));
            let order = arranged(of_item, of_key, items, lower(at), of_key.len()).0;
            with_new_apart(none, order);
            assert(none + order =~= order);
            arranged_keeps_ranks_together(
                of_item,
                of_key,
                items,
                rank,
                scope,
                inner,
                narrow,
                lower(at),
            );
        }
    }
}

// ---------------------------------------------------------------------------
// Items and their parameters
// ---------------------------------------------------------------------------

/// Parameter `k` is the only one of the item at the scope.
pub open spec fn sole(item: TestItem, scope: Scope, k: int) -> bool {
    &&& 0 <= k < item.scope_sort_keys@.len()
    &&& item.scope_sort_keys@[k].scope == scope
    &&& forall|j: int|
        0 <= j < item.scope_sort_keys@.len() && j != k ==> (
        #[trigger] item.scope_sort_keys@[j]).scope != scope
}

/// The items share the value of their only parameter at the scope: it has the same
/// name and index, and both lie in one place that a value of the scope spans.
pub open spec fn share_value(a: TestItem, b: TestItem, scope: Scope) -> bool {
    exists|i: int, j: int|
        #[trigger] sole(a, scope, i) && #[trigger] sole(b, scope, j)
            && a.scope_sort_keys@[i].arg@ == b.scope_sort_keys@[j].arg@
            && a.scope_sort_keys@[i].index == b.scope_sort_keys@[j].index && boundary(
            a.nodeid@,
            scope,
        ) == boundary(b.nodeid@, scope)
}

/// The slots of an item are at the scopes of its parameters.
proof fn slot_has_a_parameter(item: TestItem, mine: Seq<Slot>, table: Seq<KeyView>, j: int)
    requires
        slots_ok(item, mine, table),
        0 <= j < mine.len(),
    ensures
        mine[j].key < table.len(),
        table[mine[j].key as int].scope == mine[j].scope,
        exists|t: int|
            0 <= t < item.scope_sort_keys@.len() && (#[trigger] item.scope_sort_keys@[t]).scope
                == mine[j].scope && table[mine[j].key as int] == key_of(
                item.nodeid@,
                item.scope_sort_keys@[t],
            ),
{
    let keys = item_keys(item.nodeid@, item.scope_sort_keys@);
    assert(stands_for(mine[j], keys[j], table));
    assert(keys.contains(keys[j]));
    every_key_is_a_wide_parameter(item.nodeid@, item.scope_sort_keys@, keys[j]);
}

proof fn slots_of_sole(item: TestItem, mine: Seq<Slot>, table: Seq<KeyView>, scope: Scope, k: int)
    requires
        slots_ok(item, mine, table),
        scope != Scope::Function,
        sole(item, scope, k),
    ensures
        forall|j: int|
            0 <= j < mine.len() ==> {
                let slot = #[trigger] mine[j];
                &&& slot.key < table.len()
                &&& table[slot.key as int].scope == slot.scope
                &&& slot.scope == scope ==> table[slot.key as int] == key_of(
                    item.nodeid@,
                    item.scope_sort_keys@[k],
                )
            },
        has_slot_at(mine, scope),
{
    let params = item.scope_sort_keys@;
    let keys = item_keys(item.nodeid@, params);
    assert forall|j: int| 0 <= j < mine.len() implies {
        let slot = #[trigger] mine[j];
        &&& slot.key < table.len()
        &&& table[slot.key as int].scope == slot.scope
        &&& slot.scope == scope ==> table[slot.key as int] == key_of(item.nodeid@, params[k])
    } by {
        slot_has_a_parameter(item, mine, table, j);
    }
    every_wide_parameter_is_a_key(item.nodeid@, params, k);
    let j = choose|j: int| 0 <= j < keys.len() && keys[j] == key_of(item.nodeid@, params[k]);
    assert(stands_for(mine[j], keys[j], table));
    assert(mine[j].scope == scope);
}

proof fn users_are_members(items: Seq<TestItem>, of_item: Seq<Seq<Slot>>)
    requires
        items.len() <= usize::MAX,
        all_slots_ok(items, of_item, table_of(items)),
    ensures
        members(of_item, all_users(items, table_of(items))),
{
    let table = table_of(items);
    let lists = all_users(items, table);
    table_facts(items, items.len() as int);
    assert forall|k: int, x: usize|
        0 <= k < lists.len() && #[trigger] lists[k].contains(x) implies x < of_item.len() && uses(
        of_item,
        x,
        k,
    ) by {
        users_exact(items, items.len() as int, table[k]);
        let p = choose|p: int| 0 <= p < lists[k].len() && lists[k][p] == x;
        assert(lists[k][p] < items.len());
        slot_means_key(items[x as int], of_item[x as int], table, k);
    }
}

/// The key of a slot at the scope.
spec fn rank_at(mine: Seq<Slot>, scope: Scope) -> usize {
    mine[choose|j: int| 0 <= j < mine.len() && (#[trigger] mine[j]).scope == scope].key
}

/// The rank of every item at the scope.
spec fn ranks_at(of_item: Seq<Seq<Slot>>, scope: Scope) -> Seq<usize> {
    Seq::new(of_item.len(), |i: int| rank_at(of_item[i], scope))
}

/// Every item has just one parameter at the scope.
pub open spec fn all_sole(items: Seq<TestItem>, scope: Scope) -> bool {
    forall|i: int|
        0 <= i < items.len() ==> exists|k: int| #[trigger] sole(#[trigger] items[i], scope, k)
}

/// Items with one parameter at a scope are ranked by it.
proof fn ranked_by_parameter(items: Seq<TestItem>, of_item: Seq<Seq<Slot>>, scope: Scope)
    requires
        items.len() <= usize::MAX,
        scope != Scope::Function,
        all_slots_ok(items, of_item, table_of(items)),
        all_sole(items, scope),
    ensures
        ranked(of_item, ranks_at(of_item, scope), scope),
        forall|x: int, y: int|
            0 <= x < items.len() && 0 <= y < items.len() ==> (#[trigger] ranks_at(
                of_item,
                scope,
            )[x] == #[trigger] ranks_at(of_item, scope)[y] <==> share_value(
                items[x],
                items[y],
                scope,
            )),
{
    let table = table_of(items);
    let rank = ranks_at(of_item, scope);
    table_facts(items, items.len() as int);
    assert forall|i: int, k: int|
        0 <= i < items.len() && #[trigger] sole(items[i], scope, k) implies rank[i] < table.len()
        && table[rank[i] as int] == key_of(items[i].nodeid@, items[i].scope_sort_keys@[k]) by {
        assert(slots_ok(items[i], of_item[i], table));
        slots_of_sole(items[i], of_item[i], table, scope, k);
    }
    assert forall|i: int| 0 <= i < of_item.len() implies {
        &&& #[trigger] rank[i] < table.len()
        &&& table[rank[i] as int].scope == scope
        &&& has_slot_at(of_item[i], scope)
        &&& forall|j: int|
            0 <= j < of_item[i].len() ==> {
                let slot = #[trigger] of_item[i][j];
                &&& slot.key < table.len()
                &&& table[slot.key as int].scope == slot.scope
                &&& slot.scope == scope ==> slot.key == rank[i]
            }
    } by {
        let k = choose|k: int| #[trigger] sole(items[i], scope, k);
        assert(sole(items[i], scope, k));
        assert(slots_ok(items[i], of_item[i], table));
        slots_of_sole(items[i], of_item[i], table, scope, k);
    }
    assert forall|i: int| 0 <= i < of_item.len() implies has_slot_at(
        #[trigger] of_item[i],
        scope,
    ) by {
        assert(rank[i] < table.len());
    }
    assert forall|i: int, j: int|
        0 <= i < of_item.len() && 0 <= j < of_item[i].len() implies {
        let slot = #[trigger] of_item[i][j];
        &&& slot.key < table.len()
        &&& table[slot.key as int].scope == slot.scope
        &&& slot.scope == scope ==> slot.key == rank[i]
    } by {
        assert(rank[i] < table.len());
    }
    assert forall|i: int, j: int, x: int|
        0 <= i < of_item.len() && 0 <= j < of_item[i].len() && 0 <= x < rank.len()
            && #[trigger] of_item[i][j].key == #[trigger] rank[x] implies of_item[i][j].scope
        == scope by {
        assert(table[rank[x] as int].scope == scope);
    }
    assert forall|x: int, y: int|
        0 <= x < items.len() && 0 <= y < items.len() implies (#[trigger] rank[x]
        == #[trigger] rank[y] <==> share_value(items[x], items[y], scope)) by {
        let i = choose|i: int| #[trigger] sole(items[x], scope, i);
        let j = choose|j: int| #[trigger] sole(items[y], scope, j);
        assert(sole(items[x], scope, i) && sole(items[y], scope, j));
        assert(table[rank[x] as int] == key_of(items[x].nodeid@, items[x].scope_sort_keys@[i]));
        assert(table[rank[y] as int] == key_of(items[y].nodeid@, items[y].scope_sort_keys@[j]));
        assert(rank[x] == rank[y] <==> table[rank[x] as int] == table[rank[y] as int]);
        if share_value(items[x], items[y], scope) {
            let (a, b) = choose|a: int, b: int|
                #[trigger] sole(items[x], scope, a) && #[trigger] sole(items[y], scope, b)
                    && items[x].scope_sort_keys@[a].arg@ == items[y].scope_sort_keys@[b].arg@
                    && items[x].scope_sort_keys@[a].index == items[y].scope_sort_keys@[b].index
                    && boundary(items[x].nodeid@, scope) == boundary(items[y].nodeid@, scope);
            assert(a == i && b == j);
        }
    }
}

/// Scopes that no parameter has, no slot is at.
proof fn unused_by_parameters(
    items: Seq<TestItem>,
    of_item: Seq<Seq<Slot>>,
    low: Scope,
    high: Scope,
)
    requires
        all_slots_ok(items, of_item, table_of(items)),
        forall|i: int, t: int|
            0 <= i < items.len() && 0 <= t < items[i].scope_sort_keys@.len() ==> !(low.width() < (
            #[trigger] items[i].scope_sort_keys@[t]).scope.width() <= high.width()),
    ensures
        unused_between(of_item, low, high),
{
    assert forall|i: int, j: int|
        0 <= i < of_item.len() && 0 <= j < of_item[i].len() implies !(low.width() < (
    #[trigger] of_item[i][j]).scope.width() <= high.width()) by {
        assert(slots_ok(items[i], of_item[i], table_of(items)));
        slot_has_a_parameter(items[i], of_item[i], table_of(items), j);
        let t = choose|t: int|
            0 <= t < items[i].scope_sort_keys@.len() && (
            #[trigger] items[i].scope_sort_keys@[t]).scope == of_item[i][j].scope;
        assert(!(low.width() < items[i].scope_sort_keys@[t].scope.width() <= high.width()));
    }
}

/// No parameter of the items is wider than the scope.
pub open spec fn none_wider(items: Seq<TestItem>, scope: Scope) -> bool {
    forall|i: int, t: int|
        0 <= i < items.len() && 0 <= t < items[i].scope_sort_keys@.len() ==> (
        #[trigger] items[i].scope_sort_keys@[t]).scope.width() <= scope.width()
}

/// No parameter of the items lies between the two scopes.
pub open spec fn none_between(items: Seq<TestItem>, narrow: Scope, scope: Scope) -> bool {
    forall|i: int, t: int|
        0 <= i < items.len() && 0 <= t < items[i].scope_sort_keys@.len() ==> !(narrow.width() < (
        #[trigger] items[i].scope_sort_keys@[t]).scope.width() < scope.width())
}

/// What reordering is for, where items have several parameters: if every item has
/// one parameter of a scope, and its others are narrower, then the items that
/// share the value of that parameter stand next to each other afterwards.
pub proof fn widest_values_stand_together(
    before: Seq<TestItem>,
    after: Seq<TestItem>,
    order: Seq<usize>,
    scope: Scope,
)
    requires
        before.len() <= usize::MAX,
        table_of(before).len() <= usize::MAX,
        scope != Scope::Function,
        all_sole(before, scope),
        none_wider(before, scope),
        grouped_as(before, after, order),
    ensures
        forall|p: int, q: int, r: int|
            0 <= p <= q <= r < after.len() && share_value(
                #[trigger] after[p],
                #[trigger] after[r],
                scope,
            ) ==> share_value(after[p], #[trigger] after[q], scope),
{
    let of_item = arranged_by_ranks(before, order, scope, scope);
    let rank = ranks_at(of_item, scope);
    assert forall|p: int, q: int, r: int|
        0 <= p <= q <= r < after.len() && share_value(
            #[trigger] after[p],
            #[trigger] after[r],
            scope,
        ) implies share_value(after[p], #[trigger] after[q], scope) by {
        let (x, y, z) = (order[p] as int, order[q] as int, order[r] as int);
        assert(after[p] == before[x] && after[q] == before[y] && after[r] == before[z]);
        assert(rank[x] == rank[z]);
        assert(rank[y] == rank[x]);
    }
}

/// Parameters nest: where every item has one parameter of a scope and one of the
/// next narrower scope that is used, the items that share both values stand next to
/// each other, inside those that share the wider one.
pub proof fn nested_values_stand_together(
    before: Seq<TestItem>,
    after: Seq<TestItem>,
    order: Seq<usize>,
    scope: Scope,
    narrow: Scope,
)
    requires
        before.len() <= usize::MAX,
        table_of(before).len() <= usize::MAX,
        narrow != Scope::Function,
        narrow.width() < scope.width(),
        all_sole(before, scope),
        all_sole(before, narrow),
        none_wider(before, scope),
        none_between(before, narrow, scope),
        grouped_as(before, after, order),
    ensures
        forall|p: int, q: int, r: int|
            0 <= p <= q <= r < after.len() && share_value(
                #[trigger] after[p],
                #[trigger] after[r],
                scope,
            ) && share_value(after[p], after[r], narrow) ==> share_value(
                after[p],
                #[trigger] after[q],
                scope,
            ) && share_value(after[p], after[q], narrow),
{
    let of_item = arranged_by_ranks(before, order, scope, narrow);
    let rank = ranks_at(of_item, scope);
    let inner = ranks_at(of_item, narrow);
    assert forall|p: int, q: int, r: int|
        0 <= p <= q <= r < after.len() && share_value(
            #[trigger] after[p],
            #[trigger] after[r],
            scope,
        ) && share_value(after[p], after[r], narrow) implies share_value(
        after[p],
        #[trigger] after[q],
        scope,
    ) && share_value(after[p], after[q], narrow) by {
        let (x, y, z) = (order[p] as int, order[q] as int, order[r] as int);
        assert(after[p] == before[x] && after[q] == before[y] && after[r] == before[z]);
        assert(rank[x] == rank[z] && inner[x] == inner[z]);
        assert(rank[y] == rank[x] && inner[y] == inner[x]);
    }
}

proof fn arranged_by_ranks(
    items: Seq<TestItem>,
    order: Seq<usize>,
    scope: Scope,
    narrow: Scope,
) -> (of_item: Seq<Seq<Slot>>)
    requires
        items.len() <= usize::MAX,
        table_of(items).len() <= usize::MAX,
        scope != Scope::Function,
        narrow != Scope::Function,
        narrow.width() <= scope.width(),
        all_sole(items, scope),
        all_sole(items, narrow),
        none_wider(items, scope),
        none_between(items, narrow, scope),
        grouping_order(items, order),
    ensures
        ranks_at(of_item, scope).len() == items.len(),
        forall|x: int, y: int|
            0 <= x < items.len() && 0 <= y < items.len() ==> (#[trigger] ranks_at(
                of_item,
                scope,
            )[x] == #[trigger] ranks_at(of_item, scope)[y] <==> share_value(
                items[x],
                items[y],
                scope,
            )),
        forall|x: int, y: int|
            0 <= x < items.len() && 0 <= y < items.len() ==> (#[trigger] ranks_at(
                of_item,
                narrow,
            )[x] == #[trigger] ranks_at(of_item, narrow)[y] <==> share_value(
                items[x],
                items[y],
                narrow,
            )),
        ranks_together(ranks_at(of_item, scope), order),
        narrow.width() < scope.width() ==> pairs_together(
            ranks_at(of_item, scope),
            ranks_at(of_item, narrow),
            order,
        ),
{
    let table = table_of(items);
    let lists = all_users(items, table);
    let of_item = choose|of_item: Seq<Seq<Slot>>| #[trigger]
        all_slots_ok(items, of_item, table) && order == arranged(
            of_item,
            lists,
            upto(items.len()),
            Scope::Session,
            table.len(),
        ).0;
    lists_belong(items, of_item);
    users_are_members(items, of_item);
    ranked_by_parameter(items, of_item, scope);
    ranked_by_parameter(items, of_item, narrow);
    unused_by_parameters(items, of_item, scope, Scope::Session);
    if narrow.width() < scope.width() {
        unused_by_parameters(items, of_item, narrow, lower(scope));
    }
    assert(upto(items.len()).no_duplicates());
    assert(below(upto(items.len()), of_item.len()));
    arranged_keeps_ranks_together(
        of_item,
        lists,
        upto(items.len()),
        ranks_at(of_item, scope),
        scope,
        ranks_at(of_item, narrow),
        narrow,
        Scope::Session,
    );
    of_item
}

} // verus!
