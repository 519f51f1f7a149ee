//! What reordering is for: items that share a parameter value stand together.

use vstd::prelude::*;

use crate::collect::param_scope::{
    all_slots_ok, all_users, boundary, grouped_as, grouping_order, item_keys, key_of, key_table,
    lists_belong, slot_means_key, slots_ok, stands_for, table_facts, table_of, upto, users_of,
    wide_keys, with_keys, KeyView,
};
use crate::collect::reorder::{
    among, arranged, below, distinct_below, has_key, in_bounds, listed, lower, open_slots,
    reordering_keeps_every_item, sweeps, swept, touched, touched_all, uses, with_new, without, Slot,
    Sweep,
};
use crate::fixture::Scope;
use crate::item::{SortKey, TestItem};
use crate::lists::{contains_split, contains_sum};

verus! {

// ---------------------------------------------------------------------------
// Model
// ---------------------------------------------------------------------------

/// The position of the first `key`, or the number of keys if there is none.
pub open spec fn first_with<K>(keys: Seq<Option<K>>, key: Option<K>) -> int
    decreases keys.len(),
{
    if keys.len() == 0 || keys[0] == key {
        0
    } else {
        1 + first_with(keys.skip(1), key)
    }
}

/// Entries with the same key stand together in this order.
pub open spec fn contiguous<K>(keys: Seq<Option<K>>, order: Seq<usize>) -> bool {
    forall|p: int, q: int, r: int|
        0 <= p <= q <= r < order.len() && keys[#[trigger] order[p] as int] is Some
            && keys[order[p] as int] == keys[#[trigger] order[r] as int]
            ==> keys[#[trigger] order[q] as int] == keys[order[p] as int]
}

/// Entries with the same key keep their order.
pub open spec fn stable<K>(keys: Seq<Option<K>>, order: Seq<usize>) -> bool {
    forall|p: int, q: int|
        0 <= p < q < order.len() && keys[#[trigger] order[p] as int] is Some
            && keys[order[p] as int] == keys[#[trigger] order[q] as int] ==> order[p] < order[q]
}

/// Different keys come in the order in which they appear first.
pub open spec fn by_first_use<K>(keys: Seq<Option<K>>, order: Seq<usize>) -> bool {
    forall|p: int, q: int|
        0 <= p < q < order.len() && keys[#[trigger] order[p] as int] is Some
            && keys[#[trigger] order[q] as int] is Some && keys[order[p] as int]
            != keys[order[q] as int] ==> first_with(keys, keys[order[p] as int]) < first_with(
            keys,
            keys[order[q] as int],
        )
}

/// The order groups entries by key.
pub open spec fn groups<K>(keys: Seq<Option<K>>, order: Seq<usize>) -> bool {
    contiguous(keys, order) && stable(keys, order) && by_first_use(keys, order)
}

/// The parameter key of an item that has just one.
pub open spec fn sole_key(item: TestItem) -> Option<KeyView> {
    let keys = item_keys(item.nodeid@, item.scope_sort_keys@);
    if keys.len() == 1 {
        Some(keys[0])
    } else {
        None
    }
}

/// The parameter keys of items that have one at most.
pub open spec fn sole_keys(items: Seq<TestItem>) -> Seq<Option<KeyView>> {
    Seq::new(items.len(), |i: int| sole_key(items[i]))
}

/// Every item has one key at most, and the keys are of this scope.
pub open spec fn single_keyed(items: Seq<TestItem>, scope: Scope) -> bool {
    forall|i: int|
        0 <= i < items.len() ==> {
            let keys = #[trigger] item_keys(items[i].nodeid@, items[i].scope_sort_keys@);
            keys.len() <= 1 && (keys.len() == 1 ==> keys[0].scope == scope)
        }
}

/// The key of an item by its only slot.
spec fn slot_key(mine: Seq<Slot>) -> Option<usize> {
    if mine.len() == 1 {
        Some(mine[0].key)
    } else {
        None
    }
}

spec fn slot_keys(of_item: Seq<Seq<Slot>>) -> Seq<Option<usize>> {
    Seq::new(of_item.len(), |i: int| slot_key(of_item[i]))
}

/// Every item has one slot at most, at this scope.
spec fn single(of_item: Seq<Seq<Slot>>, scope: Scope) -> bool {
    forall|i: int|
        0 <= i < of_item.len() ==> (#[trigger] of_item[i]).len() <= 1 && (of_item[i].len() == 1
            ==> of_item[i][0].scope == scope)
}

/// The entries increase.
pub open spec fn increasing(list: Seq<usize>) -> bool {
    forall|i: int, j: int| 0 <= i < j < list.len() ==> #[trigger] list[i] < #[trigger] list[j]
}

/// The list of each key holds just the items with that key, in order.
spec fn exact_lists(of_item: Seq<Seq<Slot>>, of_key: Seq<Seq<usize>>) -> bool {
    &&& forall|k: int| 0 <= k < of_key.len() ==> increasing(#[trigger] of_key[k])
    &&& forall|k: int| 0 <= k < of_key.len() ==> below(#[trigger] of_key[k], of_item.len())
    &&& forall|k: usize, i: usize|
        k < of_key.len() && i < of_item.len() ==> (#[trigger] of_key[k as int].contains(i)
            <==> slot_keys(of_item)[i as int] == Some(k))
}

/// The setting: `n` items with one slot at most, and the lists of their keys.
spec fn setting(of_item: Seq<Seq<Slot>>, of_key: Seq<Seq<usize>>, scope: Scope) -> bool {
    &&& of_item.len() <= usize::MAX
    &&& of_key.len() <= usize::MAX
    &&& scope != Scope::Function
    &&& single(of_item, scope)
    &&& in_bounds(of_item, of_key.len())
    &&& listed(of_item, of_key)
    &&& exact_lists(of_item, of_key)
}

/// The entries from `m` up to `e` without a key.
spec fn keyless(keys: Seq<Option<usize>>, m: int, e: int) -> Seq<usize>
    decreases e - m,
{
    if m >= e {
        seq![]
    } else if keys[m] is None {
        seq![m as usize] + keyless(keys, m + 1, e)
    } else {
        keyless(keys, m + 1, e)
    }
}

/// The items that the last sliced key brought forward.
spec fn brought(of_key: Seq<Seq<usize>>, sliced: Seq<usize>) -> Seq<usize> {
    if sliced.len() > 0 {
        of_key[sliced.last() as int]
    } else {
        seq![]
    }
}

/// The key was sliced by before the last one.
spec fn spent(sliced: Seq<usize>, k: usize) -> bool {
    exists|j: int| 0 <= j < sliced.len() - 1 && #[trigger] sliced[j] == k
}

/// Between two sweeps: the items below `m` have been seen, the keys of those
/// have been sliced by in the order of their first use, and the items of all
/// but the last of these keys are done, in groups.
spec fn between_sweeps(
    of_item: Seq<Seq<Slot>>,
    of_key: Seq<Seq<usize>>,
    sliced: Seq<usize>,
    done: Seq<usize>,
    m: int,
) -> bool {
    let keys = slot_keys(of_item);
    &&& 0 <= m <= of_item.len()
    &&& sliced.no_duplicates()
    &&& below(sliced, of_key.len())
    &&& below(done, of_item.len())
    &&& done.no_duplicates()
    &&& forall|i: int| 0 <= i < m && (#[trigger] keys[i]) is Some ==> sliced.contains(keys[i]->0)
    &&& forall|p: int|
        0 <= p < done.len() ==> (match keys[#[trigger] done[p] as int] {
            None => done[p] < m,
            Some(k) => spent(sliced, k),
        })
    &&& forall|x: usize|
        x < of_item.len() && (#[trigger] keys[x as int]) is Some && spent(sliced, keys[x as int]->0)
            ==> done.contains(x)
    &&& forall|j: int| 0 <= j < sliced.len() ==> first_with(keys, Some(#[trigger] sliced[j])) < m
    &&& forall|i: int, j: int|
        0 <= i < j < sliced.len() ==> first_with(keys, Some(#[trigger] sliced[i])) < first_with(
            keys,
            Some(#[trigger] sliced[j]),
        )
    &&& groups(keys, done)
}

// ---------------------------------------------------------------------------
// Proofs
// ---------------------------------------------------------------------------

/// The first use of a key is a use of it, and no use comes before.
proof fn first_with_facts<K>(keys: Seq<Option<K>>, key: Option<K>, i: int)
    requires
        0 <= i < keys.len(),
        keys[i] == key,
    ensures
        0 <= first_with(keys, key) <= i,
        keys[first_with(keys, key)] == key,
    decreases keys.len(),
{
    if keys[0] != key {
        first_with_facts(keys.skip(1), key, i - 1);
    }
}

/// A position without a use before it is that of the first use.
proof fn first_with_at<K>(keys: Seq<Option<K>>, key: Option<K>, i: int)
    requires
        0 <= i < keys.len(),
        keys[i] == key,
        forall|j: int| 0 <= j < i ==> #[trigger] keys[j] != key,
    ensures
        first_with(keys, key) == i,
{
    first_with_facts(keys, key, i);
    let f = first_with(keys, key);
    if f < i {
        assert(keys[f] != key);
    }
}

proof fn no_open_slot(of_item: Seq<Seq<Slot>>, x: int, scope: Scope, sliced: Seq<usize>)
    requires
        of_item[x].len() <= 1,
        of_item[x].len() == 1 ==> of_item[x][0].scope != scope || sliced.contains(
            of_item[x][0].key,
        ),
    ensures
        open_slots(of_item[x], scope, sliced).len() == 0,
{
    reveal_with_fuel(open_slots, 3);
}

proof fn one_open_slot(of_item: Seq<Seq<Slot>>, x: int, scope: Scope, sliced: Seq<usize>)
    requires
        of_item[x].len() == 1,
        of_item[x][0].scope == scope,
        !sliced.contains(of_item[x][0].key),
    ensures
        open_slots(of_item[x], scope, sliced).len() == 1,
        open_slots(of_item[x], scope, sliced).last() == of_item[x][0],
{
    reveal_with_fuel(open_slots, 3);
    assert(of_item[x].drop_last() =~= seq![]);
}

proof fn without_missing(list: Seq<usize>, item: usize)
    requires
        !list.contains(item),
    ensures
        without(list, item) == list,
    decreases list.len(),
{
    if list.len() > 0 {
        contains_split(list, item);
        without_missing(list.drop_last(), item);
        assert(list =~= list.drop_last().push(list.last()));
    } else {
        assert(without(list, item) =~= list);
    }
}

proof fn among_all(list: Seq<usize>, items: Seq<usize>)
    requires
        forall|i: int| 0 <= i < list.len() ==> items.contains(#[trigger] list[i]),
    ensures
        among(list, items) == list,
    decreases list.len(),
{
    if list.len() > 0 {
        assert(items.contains(list[list.len() - 1]));
        assert forall|i: int| 0 <= i < list.drop_last().len() implies items.contains(
            #[trigger] list.drop_last()[i],
        ) by {
            assert(items.contains(list[i]));
        }
        among_all(list.drop_last(), items);
        assert(list =~= list.drop_last().push(list.last()));
    } else {
        assert(among(list, items) =~= list);
    }
}

/// New entries are appended.
pub proof fn with_new_apart(list: Seq<usize>, more: Seq<usize>)
    requires
        more.no_duplicates(),
        forall|i: int| 0 <= i < more.len() ==> !list.contains(#[trigger] more[i]),
    ensures
        with_new(list, more) == list + more,
    decreases more.len(),
{
    if more.len() > 0 {
        let init = more.drop_last();
        with_new_apart(list, init);
        let x = more.last();
        assert(!list.contains(more[more.len() - 1]));
        contains_sum(list, init, x);
        if init.contains(x) {
            let k = choose|k: int| 0 <= k < init.len() && init[k] == x;
            assert(more[k] == more[more.len() - 1]);
        }
        assert(list + more =~= (list + init).push(x));
    } else {
        assert(list + more =~= list);
    }
}

/// Moving all items of a key to the front, the last one first, leaves the
/// list of the key as it was.
proof fn touched_by_its_items(
    of_item: Seq<Seq<Slot>>,
    of_key: Seq<Seq<usize>>,
    scope: Scope,
    k: usize,
    j: int,
)
    requires
        setting(of_item, of_key, scope),
        k < of_key.len(),
        0 <= j <= of_key[k as int].len(),
    ensures
        ({
            let list = of_key[k as int];
            let after = touched_all(of_item, of_key, list.skip(j));
            &&& after.len() == of_key.len()
            &&& after[k as int] == list.skip(j) + list.take(j)
            &&& forall|o: int| 0 <= o < of_key.len() && o != k ==> #[trigger] after[o] == of_key[o]
        }),
    decreases of_key[k as int].len() - j,
{
    let list = of_key[k as int];
    let tail = list.skip(j);
    assert(increasing(of_key[k as int]) && below(of_key[k as int], of_item.len()));
    if j == list.len() {
        assert(tail.len() == 0);
        assert(list.skip(j) + list.take(j) =~= list);
    } else {
        touched_by_its_items(of_item, of_key, scope, k, j + 1);
        assert(tail.skip(1) =~= list.skip(j + 1));
        let before = touched_all(of_item, of_key, list.skip(j + 1));
        let item = list[j];
        assert(tail[0] == item);
        let after = touched(of_item, before, item);
        assert(list.contains(item));
        assert(of_key[k as int].contains(item));
        assert(slot_keys(of_item)[item as int] == Some(k));
        let mine = of_item[item as int];
        assert(mine.len() == 1 && mine[0].key == k);
        assert(has_key(mine, mine.len() as int, k as int)) by {
            assert(mine[0].key == k as int);
        }
        assert(uses(of_item, item, k as int));
        let rotated = before[k as int];
        assert(rotated =~= (list.skip(j + 1) + list.take(j)).push(item)) by {
            assert(list.take(j + 1) =~= list.take(j).push(item));
        }
        let kept = list.skip(j + 1) + list.take(j);
        assert(!kept.contains(item)) by {
            if kept.contains(item) {
                let i = choose|i: int| 0 <= i < kept.len() && kept[i] == item;
                if i < list.skip(j + 1).len() {
                    assert(list[j] < list[j + 1 + i]);
                } else {
                    assert(list[i - list.skip(j + 1).len()] < list[j]);
                }
            }
        }
        assert(rotated.drop_last() =~= kept);
        assert(rotated.last() == item);
        without_missing(kept, item);
        assert(without(rotated, item) == kept);
        assert(after[k as int] =~= list.skip(j) + list.take(j));
        assert forall|o: int| 0 <= o < of_key.len() && o != k implies #[trigger] after[o]
            == of_key[o] by {
            assert(!uses(of_item, item, o));
            assert(before[o] == of_key[o]);
        }
    }
}

/// Items without an open slot are set loose one after the other.
pub proof fn set_loose(
    of_item: Seq<Seq<Slot>>,
    of_key: Seq<Seq<usize>>,
    items: Seq<usize>,
    scope: Scope,
    sliced: Seq<usize>,
    done: Seq<usize>,
    loose: Seq<usize>,
    front: Seq<usize>,
    rest: Seq<usize>,
)
    requires
        front.no_duplicates(),
        forall|i: int|
            0 <= i < front.len() ==> !done.contains(#[trigger] front[i]) && !loose.contains(front[i])
                && open_slots(of_item[front[i] as int], scope, sliced).len() == 0,
    ensures
        swept(of_item, of_key, items, scope, sliced, done, loose, front + rest) == swept(
            of_item,
            of_key,
            items,
            scope,
            sliced,
            done,
            loose + front,
            rest,
        ),
    decreases front.len(),
{
    if front.len() == 0 {
        assert(front + rest =~= rest);
        assert(loose + front =~= loose);
    } else {
        let item = front[0];
        let tail = front.skip(1);
        assert((front + rest)[0] == item);
        assert((front + rest).skip(1) =~= tail + rest);
        assert forall|i: int| 0 <= i < tail.len() implies !done.contains(#[trigger] tail[i])
            && !loose.push(item).contains(tail[i]) && open_slots(
            of_item[tail[i] as int],
            scope,
            sliced,
        ).len() == 0 by {
            assert(tail[i] == front[i + 1]);
            assert(front[0] != front[i + 1]);
            contains_split(loose.push(item), tail[i]);
            assert(loose.push(item).drop_last() =~= loose);
        }
        set_loose(of_item, of_key, items, scope, sliced, done, loose.push(item), tail, rest);
        assert(loose.push(item) + tail =~= loose + front);
    }
}

/// Items without a slot at this scope or a narrower one stay as they are.
proof fn settled(
    of_item: Seq<Seq<Slot>>,
    of_key: Seq<Seq<usize>>,
    items: Seq<usize>,
    scope: Scope,
    keys: nat,
)
    requires
        items.no_duplicates(),
        forall|i: int|
            0 <= i < items.len() ==> {
                let mine = of_item[#[trigger] items[i] as int];
                mine.len() <= 1 && (mine.len() == 1 ==> mine[0].scope.width() > scope.width())
            },
    ensures
        arranged(of_item, of_key, items, scope, keys) == (items, of_key),
    decreases scope.width(),
{
    if scope != Scope::Function && items.len() >= 3 {
        let none = Seq::<usize>::empty();
        assert forall|i: int| 0 <= i < items.len() implies !none.contains(#[trigger] items[i])
            && open_slots(of_item[items[i] as int], scope, none).len() == 0 by {
            no_open_slot(of_item, items[i] as int, scope, none);
        }
        set_loose(of_item, of_key, items, scope, none, none, none, items, none);
        assert(items + none =~= items);
        assert(none + items =~= items);
        let sweep = swept(of_item, of_key, items, scope, none, none, none, items);
        assert(sweep == (Sweep { loose: items, waiting: none, of_key, slicing: None }));
        settled(of_item, of_key, items, lower(scope), keys);
        with_new_apart(none, items);
    }
}

/// At a scope at which no item has a slot, the next narrower scope decides.
proof fn passed_down(
    of_item: Seq<Seq<Slot>>,
    of_key: Seq<Seq<usize>>,
    items: Seq<usize>,
    scope: Scope,
    at: Scope,
)
    requires
        setting(of_item, of_key, scope),
        below(items, of_item.len()),
        items.no_duplicates(),
        at.width() > scope.width(),
    ensures
        arranged(of_item, of_key, items, at, of_key.len()).0 == arranged(
            of_item,
            of_key,
            items,
            lower(at),
            of_key.len(),
        ).0,
{
    if items.len() >= 3 {
        let none = Seq::<usize>::empty();
        assert forall|i: int| 0 <= i < items.len() implies !none.contains(#[trigger] items[i])
            && open_slots(of_item[items[i] as int], at, none).len() == 0 by {
            assert(of_item[items[i] as int].len() <= 1);
            no_open_slot(of_item, items[i] as int, at, none);
        }
        set_loose(of_item, of_key, items, at, none, none, none, items, none);
        assert(items + none =~= items);
        assert(none + items =~= items);
        let sweep = swept(of_item, of_key, items, at, none, none, none, items);
        assert(sweep == (Sweep { loose: items, waiting: none, of_key, slicing: None }));
        reordering_keeps_every_item(of_item, of_key, items, lower(at));
        let order = arranged(of_item, of_key, items, lower(at), of_key.len()).0;
        with_new_apart(none, order);
        assert(none + order =~= order);
    }
}

proof fn keyless_facts(keys: Seq<Option<usize>>, m: int, e: int)
    requires
        0 <= m <= e <= keys.len() <= usize::MAX,
    ensures
        keyless(keys, m, e).no_duplicates(),
        forall|i: int|
            0 <= i < keyless(keys, m, e).len() ==> m <= (#[trigger] keyless(keys, m, e)[i]) < e
                && keys[keyless(keys, m, e)[i] as int] is None,
    decreases e - m,
{
    if m < e {
        keyless_facts(keys, m + 1, e);
        let rest = keyless(keys, m + 1, e);
        if keys[m] is None {
            let all = seq![m as usize] + rest;
            assert forall|i: int| 0 <= i < all.len() implies m <= (#[trigger] all[i]) < e
                && keys[all[i] as int] is None by {
                if i > 0 {
                    assert(all[i] == rest[i - 1]);
                }
            }
            assert forall|i: int, j: int| 0 <= i < j < all.len() implies all[i] != all[j] by {
                assert(all[j] == rest[j - 1]);
                if i > 0 {
                    assert(all[i] == rest[i - 1]);
                }
            }
        }
    }
}

/// The walk over the items from `m` on: those without a key are set loose,
/// and the first one with a new key, at the returned place, ends the sweep.
proof fn walk(
    of_item: Seq<Seq<Slot>>,
    of_key: Seq<Seq<usize>>,
    scope: Scope,
    sliced: Seq<usize>,
    done: Seq<usize>,
    loose: Seq<usize>,
    m: int,
) -> (e: int)
    requires
        setting(of_item, of_key, scope),
        0 <= m <= of_item.len(),
        forall|x: usize|
            m <= x < of_item.len() ==> ({
                let taken = done.contains(x) || loose.contains(x);
                match #[trigger] slot_keys(of_item)[x as int] {
                    Some(k) => taken == sliced.contains(k),
                    None => !taken,
                }
            }),
    ensures
        m <= e <= of_item.len(),
        forall|i: int|
            m <= i < e && (#[trigger] slot_keys(of_item)[i]) is Some ==> sliced.contains(
                slot_keys(of_item)[i]->0,
            ),
        ({
            let n = of_item.len();
            let sweep = swept(
                of_item,
                of_key,
                upto(n),
                scope,
                sliced,
                done,
                loose,
                upto(n).skip(m),
            );
            &&& sweep.loose == loose + keyless(slot_keys(of_item), m, e)
            &&& sweep.of_key == of_key
            &&& e == n ==> sweep.slicing is None
            &&& e < n ==> {
                &&& slot_keys(of_item)[e] == sweep.slicing
                &&& sweep.slicing matches Some(k) && !sliced.contains(k) && k < of_key.len()
                    && sweep.waiting == of_key[k as int] + upto(n).skip(e + 1)
            }
        }),
    decreases of_item.len() - m,
{
    let n = of_item.len();
    let keys = slot_keys(of_item);
    let waiting = upto(n).skip(m);
    if m == n {
        assert(waiting.len() == 0);
        assert(loose + keyless(keys, m, m) =~= loose);
        m
    } else {
        let x = m as usize;
        assert(waiting[0] == x);
        assert(waiting.skip(1) =~= upto(n).skip(m + 1));
        assert(keys[x as int] == slot_key(of_item[m]));
        assert(of_item[m].len() <= 1);
        if keys[m] is None {
            no_open_slot(of_item, m, scope, sliced);
            let more = loose.push(x);
            assert forall|y: usize| m + 1 <= y < n implies ({
                let taken = done.contains(y) || more.contains(y);
                match #[trigger] keys[y as int] {
                    Some(k) => taken == sliced.contains(k),
                    None => !taken,
                }
            }) by {
                contains_split(more, y);
                assert(more.drop_last() =~= loose);
            }
            let e = walk(of_item, of_key, scope, sliced, done, more, m + 1);
            assert(more + keyless(keys, m + 1, e) =~= loose + keyless(keys, m, e));
            e
        } else {
            let k = keys[m]->0;
            assert(of_item[m][0].key < of_key.len());
            if sliced.contains(k) {
                walk(of_item, of_key, scope, sliced, done, loose, m + 1)
            } else {
                one_open_slot(of_item, m, scope, sliced);
                let list = of_key[k as int];
                assert(below(of_key[k as int], n));
                assert forall|i: int| 0 <= i < list.len() implies upto(n).contains(
                    #[trigger] list[i],
                ) by {
                    assert(upto(n)[list[i] as int] == list[i]);
                }
                among_all(list, upto(n));
                touched_by_its_items(of_item, of_key, scope, k, 0);
                assert(list.skip(0) =~= list);
                assert(list.skip(0) + list.take(0) =~= list);
                assert(touched_all(of_item, of_key, list) =~= of_key);
                assert(loose + keyless(keys, m, m) =~= loose);
                m
            }
        }
    }
}

/// Items of a new key and then items without one continue the groups.
proof fn groups_grow(
    keys: Seq<Option<usize>>,
    done: Seq<usize>,
    list: Seq<usize>,
    free: Seq<usize>,
    key: Option<usize>,
)
    requires
        groups(keys, done),
        increasing(list),
        forall|i: int| 0 <= i < list.len() ==> key is Some && keys[#[trigger] list[i] as int] == key,
        forall|i: int| 0 <= i < free.len() ==> keys[#[trigger] free[i] as int] is None,
        forall|p: int|
            0 <= p < done.len() && keys[#[trigger] done[p] as int] is Some ==> keys[done[p] as int]
                != key && first_with(keys, keys[done[p] as int]) < first_with(keys, key),
    ensures
        groups(keys, done + (list + free)),
{
    let all = done + (list + free);
    let a = done.len();
    let b = done.len() + list.len();
    assert forall|p: int| 0 <= p < all.len() implies (#[trigger] all[p]) == (if p < a {
        done[p]
    } else if p < b {
        list[p - a]
    } else {
        free[p - b]
    }) by {}
    assert forall|p: int, q: int, r: int|
        0 <= p <= q <= r < all.len() && keys[#[trigger] all[p] as int] is Some
            && keys[all[p] as int] == keys[#[trigger] all[r] as int] implies keys[
        #[trigger] all[q] as int] == keys[all[p] as int] by {
        if r < a {
            assert(all[p] == done[p] && all[q] == done[q] && all[r] == done[r]);
        } else if r < b {
            assert(keys[list[r - a] as int] == key);
            if p < a {
                assert(keys[done[p] as int] != key);
            } else {
                assert(keys[list[p - a] as int] == key);
                assert(keys[list[q - a] as int] == key);
            }
        } else {
            assert(keys[free[r - b] as int] is None);
        }
    }
    assert forall|p: int, q: int|
        0 <= p < q < all.len() && keys[#[trigger] all[p] as int] is Some && keys[all[p] as int]
            == keys[#[trigger] all[q] as int] implies all[p] < all[q] by {
        if q < a {
            assert(all[p] == done[p] && all[q] == done[q]);
        } else if q < b {
            assert(keys[list[q - a] as int] == key);
            if p < a {
                assert(keys[done[p] as int] != key);
            } else {
                assert(list[p - a] < list[q - a]);
            }
        } else {
            assert(keys[free[q - b] as int] is None);
        }
    }
    assert forall|p: int, q: int|
        0 <= p < q < all.len() && keys[#[trigger] all[p] as int] is Some && keys[
        #[trigger] all[q] as int] is Some && keys[all[p] as int] != keys[all[q] as int] implies first_with(
        keys,
        keys[all[p] as int],
    ) < first_with(keys, keys[all[q] as int]) by {
        if q < a {
            assert(all[p] == done[p] && all[q] == done[q]);
        } else if q < b {
            assert(keys[list[q - a] as int] == key);
            if p < a {
                assert(keys[done[p] as int] is Some);
            } else {
                assert(keys[list[p - a] as int] == key);
            }
        } else {
            assert(keys[free[q - b] as int] is None);
        }
    }
}

/// The next key is sliced by: what holds between sweeps holds again.
proof fn next_key(
    of_item: Seq<Seq<Slot>>,
    of_key: Seq<Seq<usize>>,
    scope: Scope,
    sliced: Seq<usize>,
    done: Seq<usize>,
    m: int,
    e: int,
    k: usize,
)
    requires
        setting(of_item, of_key, scope),
        between_sweeps(of_item, of_key, sliced, done, m),
        m <= e < of_item.len(),
        forall|i: int|
            m <= i < e && (#[trigger] slot_keys(of_item)[i]) is Some ==> sliced.contains(
                slot_keys(of_item)[i]->0,
            ),
        slot_keys(of_item)[e] == Some(k),
        k < of_key.len(),
        !sliced.contains(k),
        ({
            let loose = brought(of_key, sliced) + keyless(slot_keys(of_item), m, e);
            &&& (done + loose).no_duplicates()
            &&& below(loose, of_item.len())
            &&& groups(slot_keys(of_item), done + loose)
        }),
    ensures
        between_sweeps(
            of_item,
            of_key,
            sliced.push(k),
            done + (brought(of_key, sliced) + keyless(slot_keys(of_item), m, e)),
            e + 1,
        ),
{
    let n = of_item.len();
    let keys = slot_keys(of_item);
    let pending = brought(of_key, sliced);
    let free = keyless(keys, m, e);
    let loose = pending + free;
    let done2 = done + loose;
    let more = sliced.push(k);
    keyless_facts(keys, m, e);
    assert(below(done2, n)) by {
        assert forall|p: int| 0 <= p < done2.len() implies #[trigger] done2[p] < n by {
            if p < done.len() {
                assert(done2[p] == done[p]);
            } else {
                assert(done2[p] == loose[p - done.len()]);
            }
        }
    }
    assert forall|x: usize| #[trigger] more.contains(x) <==> sliced.contains(x) || x == k by {
        contains_split(more, x);
        assert(more.drop_last() =~= sliced);
    }
    assert forall|x: usize| #[trigger] spent(more, x) <==> sliced.contains(x) by {
        if spent(more, x) {
            let j = choose|j: int| 0 <= j < more.len() - 1 && #[trigger] more[j] == x;
            assert(sliced[j] == x);
        }
        if sliced.contains(x) {
            let j = choose|j: int| 0 <= j < sliced.len() && sliced[j] == x;
            assert(more[j] == x);
        }
    }
    assert(more.no_duplicates()) by {
        assert forall|i: int, j: int| 0 <= i < j < more.len() implies more[i] != more[j] by {
            if j == sliced.len() {
                assert(sliced.contains(sliced[i]));
            }
        }
    }
    assert forall|i: int| 0 <= i < e + 1 && (#[trigger] keys[i]) is Some implies more.contains(
        keys[i]->0,
    ) by {
        if i < e {
            assert(sliced.contains(keys[i]->0));
        }
    }
    assert forall|p: int| 0 <= p < done2.len() implies (match keys[#[trigger] done2[p] as int] {
        None => done2[p] < e + 1,
        Some(x) => spent(more, x),
    }) by {
        if p < done.len() {
            assert(done2[p] == done[p]);
            if let Some(x) = keys[done[p] as int] {
                let j = choose|j: int| 0 <= j < sliced.len() - 1 && #[trigger] sliced[j] == x;
                assert(sliced.contains(sliced[j]));
            }
        } else if p < done.len() + pending.len() {
            let x = pending[p - done.len()];
            assert(done2[p] == x);
            let l = sliced.last();
            assert(sliced.contains(sliced[sliced.len() - 1]));
            assert(sliced[sliced.len() - 1] < of_key.len());
            assert(of_key[l as int].contains(x));
            assert(below(of_key[l as int], n));
            assert(keys[x as int] == Some(l));
        } else {
            let x = free[p - done.len() - pending.len()];
            assert(done2[p] == x);
            assert(x < e);
        }
    }
    assert forall|x: usize|
        x < n && (#[trigger] keys[x as int]) is Some && spent(more, keys[x as int]->0) implies done2.contains(
        x,
    ) by {
        let key = keys[x as int]->0;
        assert(sliced.contains(key));
        contains_sum(done, loose, x);
        contains_sum(pending, free, x);
        let j = choose|j: int| 0 <= j < sliced.len() && sliced[j] == key;
        if j < sliced.len() - 1 {
            assert(sliced[j] == key);
            assert(spent(sliced, key));
        } else {
            assert(sliced[sliced.len() - 1] < of_key.len());
            assert(of_key[key as int].contains(x));
        }
    }
    // No use of the new key comes before `e`.
    assert forall|i: int| 0 <= i < e implies #[trigger] keys[i] != Some(k) by {
        if keys[i] == Some(k) {
            assert(sliced.contains(keys[i]->0));
        }
    }
    first_with_at(keys, Some(k), e);
    assert forall|j: int| 0 <= j < more.len() implies first_with(keys, Some(#[trigger] more[j])) < e
        + 1 by {
        if j < sliced.len() {
            assert(more[j] == sliced[j]);
        }
    }
    assert forall|i: int, j: int| 0 <= i < j < more.len() implies first_with(
        keys,
        Some(#[trigger] more[i]),
    ) < first_with(keys, Some(#[trigger] more[j])) by {
        assert(more[i] == sliced[i]);
        if j < sliced.len() {
            assert(more[j] == sliced[j]);
        }
    }
    assert(below(more, of_key.len()));
}

/// What one sweep does between two: the items of the key sliced by last are
/// done, then those without a key up to the next new key.
proof fn sweep_once(
    of_item: Seq<Seq<Slot>>,
    of_key: Seq<Seq<usize>>,
    scope: Scope,
    sliced: Seq<usize>,
    done: Seq<usize>,
    m: int,
) -> (e: int)
    requires
        setting(of_item, of_key, scope),
        between_sweeps(of_item, of_key, sliced, done, m),
    ensures
        m <= e <= of_item.len(),
        ({
            let n = of_item.len();
            let keys = slot_keys(of_item);
            let pending = brought(of_key, sliced);
            let sweep = swept(
                of_item,
                of_key,
                upto(n),
                scope,
                sliced,
                done,
                seq![],
                pending + upto(n).skip(m),
            );
            let done2 = done + sweep.loose;
            &&& with_new(done, arranged(of_item, sweep.of_key, sweep.loose, lower(scope), of_key.len()).0)
                == done2
            &&& arranged(of_item, sweep.of_key, sweep.loose, lower(scope), of_key.len()).1 == of_key
            &&& groups(keys, done2)
            &&& e == n ==> sweep.slicing is None
            &&& e < n ==> {
                &&& sweep.slicing matches Some(k) && sweep.waiting == brought(of_key, sliced.push(k))
                    + upto(n).skip(e + 1) && between_sweeps(
                    of_item,
                    of_key,
                    sliced.push(k),
                    done2,
                    e + 1,
                )
            }
        }),
{
    let n = of_item.len();
    let keys = slot_keys(of_item);
    let pending = brought(of_key, sliced);
    let none = Seq::<usize>::empty();
    let last: Option<usize> = if sliced.len() > 0 {
        Some(sliced.last())
    } else {
        None
    };
    if sliced.len() > 0 {
        assert(sliced[sliced.len() - 1] < of_key.len());
        assert(increasing(of_key[sliced.last() as int]) && below(of_key[sliced.last() as int], n));
    }
    // The pending items have the last key and are not done.
    assert forall|i: int| 0 <= i < pending.len() implies (#[trigger] pending[i]) < n && keys[pending[i] as int]
        == last && last is Some && !done.contains(pending[i]) by {
        let x = pending[i];
        let k = sliced.last();
        assert(of_key[k as int].contains(x));
        assert(keys[x as int] == Some(k));
        if done.contains(x) {
            let p = choose|p: int| 0 <= p < done.len() && done[p] == x;
            assert(keys[done[p] as int] == Some(k));
            let j = choose|j: int| 0 <= j < sliced.len() - 1 && #[trigger] sliced[j] == k;
            assert(sliced[j] == sliced[sliced.len() - 1]);
        }
    }
    assert(pending.no_duplicates()) by {
        assert forall|i: int, j: int| 0 <= i < j < pending.len() implies pending[i] != pending[j] by {
            assert(pending[i] < pending[j]);
        }
    }
    assert forall|i: int| 0 <= i < pending.len() implies !done.contains(#[trigger] pending[i])
        && !none.contains(pending[i]) && open_slots(of_item[pending[i] as int], scope, sliced).len()
        == 0 by {
        assert(keys[pending[i] as int] == last);
        assert(sliced.contains(sliced[sliced.len() - 1]));
        assert(of_item[pending[i] as int].len() == 1);
        no_open_slot(of_item, pending[i] as int, scope, sliced);
    }
    set_loose(of_item, of_key, upto(n), scope, sliced, done, none, pending, upto(n).skip(m));
    assert(none + pending =~= pending);
    assert forall|x: usize| m <= x < n implies ({
        let taken = done.contains(x) || pending.contains(x);
        match #[trigger] keys[x as int] {
            Some(k) => taken == sliced.contains(k),
            None => !taken,
        }
    }) by {
        if done.contains(x) {
            let p = choose|p: int| 0 <= p < done.len() && done[p] == x;
            assert(keys[done[p] as int] == keys[x as int]);
            if let Some(k) = keys[x as int] {
                let j = choose|j: int| 0 <= j < sliced.len() - 1 && #[trigger] sliced[j] == k;
                assert(sliced.contains(sliced[j]));
            }
        }
        if pending.contains(x) {
            let p = choose|p: int| 0 <= p < pending.len() && pending[p] == x;
            assert(keys[pending[p] as int] == last);
            assert(sliced.contains(sliced[sliced.len() - 1]));
        }
        if let Some(k) = keys[x as int] {
            if sliced.contains(k) {
                let j = choose|j: int| 0 <= j < sliced.len() && sliced[j] == k;
                if j < sliced.len() - 1 {
                    assert(spent(sliced, k));
                } else {
                    assert(of_key[k as int].contains(x));
                }
            }
        }
    }
    let e = walk(of_item, of_key, scope, sliced, done, pending, m);
    let free = keyless(keys, m, e);
    keyless_facts(keys, m, e);
    let loose = pending + free;
    assert forall|i: int| 0 <= i < loose.len() implies (#[trigger] loose[i]) < n && !done.contains(
        loose[i],
    ) by {
        if i < pending.len() {
            assert(loose[i] == pending[i]);
        } else {
            let x = free[i - pending.len()];
            assert(loose[i] == x && keys[x as int] is None && m <= x);
            if done.contains(x) {
                let p = choose|p: int| 0 <= p < done.len() && done[p] == x;
                assert(done[p] < m);
            }
        }
    }
    assert(loose.no_duplicates()) by {
        assert forall|i: int, j: int| 0 <= i < j < loose.len() implies loose[i] != loose[j] by {
            if i < pending.len() && j >= pending.len() {
                assert(keys[pending[i] as int] is Some);
                assert(keys[free[j - pending.len()] as int] is None);
            } else if i >= pending.len() {
                assert(free[i - pending.len()] != free[j - pending.len()]);
            } else {
                assert(pending[i] != pending[j]);
            }
        }
    }
    assert forall|i: int| 0 <= i < loose.len() implies ({
        let mine = of_item[#[trigger] loose[i] as int];
        mine.len() <= 1 && (mine.len() == 1 ==> mine[0].scope.width() > lower(scope).width())
    }) by {
        assert(loose[i] < n);
    }
    settled(of_item, of_key, loose, lower(scope), of_key.len());
    with_new_apart(done, loose);
    // The groups grow.
    assert forall|p: int|
        0 <= p < done.len() && keys[#[trigger] done[p] as int] is Some implies keys[done[p] as int]
        != last && first_with(keys, keys[done[p] as int]) < first_with(keys, last) by {
        let k = keys[done[p] as int]->0;
        let j = choose|j: int| 0 <= j < sliced.len() - 1 && #[trigger] sliced[j] == k;
        assert(sliced[j] != sliced[sliced.len() - 1]);
        assert(first_with(keys, Some(sliced[j])) < first_with(keys, Some(sliced[sliced.len() - 1])));
    }
    groups_grow(keys, done, pending, free, last);
    let done2 = done + loose;
    if e < n {
        let k = keys[e]->0;
        assert(done2.no_duplicates()) by {
            assert forall|i: int, j: int| 0 <= i < j < done2.len() implies done2[i] != done2[j] by {
                if j >= done.len() {
                    let x = loose[j - done.len()];
                    if i < done.len() {
                        assert(done.contains(done[i]));
                    } else {
                        assert(loose[i - done.len()] != x);
                    }
                }
            }
        }
        next_key(of_item, of_key, scope, sliced, done, m, e, k);
        assert(sliced.push(k).last() == k);
    }
    e
}

/// Sweeping on from between two sweeps ends in groups.
proof fn sweeps_group(
    of_item: Seq<Seq<Slot>>,
    of_key: Seq<Seq<usize>>,
    scope: Scope,
    sliced: Seq<usize>,
    done: Seq<usize>,
    m: int,
)
    requires
        setting(of_item, of_key, scope),
        between_sweeps(of_item, of_key, sliced, done, m),
    ensures
        groups(
            slot_keys(of_item),
            sweeps(
                of_item,
                of_key,
                upto(of_item.len()),
                scope,
                sliced,
                done,
                brought(of_key, sliced) + upto(of_item.len()).skip(m),
                of_key.len(),
            ).0,
        ),
    decreases of_item.len() - m,
{
    distinct_below(sliced, of_key.len());
    let n = of_item.len();
    let waiting = brought(of_key, sliced) + upto(n).skip(m);
    if waiting.len() > 0 {
        let e = sweep_once(of_item, of_key, scope, sliced, done, m);
        let sweep = swept(of_item, of_key, upto(n), scope, sliced, done, seq![], waiting);
        if e < n {
            let k = sweep.slicing->0;
            sweeps_group(of_item, of_key, scope, sliced.push(k), done + sweep.loose, e + 1);
        }
    }
}

/// Reordering from a scope that is as wide as the keys, or wider, groups.
proof fn arranged_groups(
    of_item: Seq<Seq<Slot>>,
    of_key: Seq<Seq<usize>>,
    scope: Scope,
    at: Scope,
)
    requires
        setting(of_item, of_key, scope),
        at.width() >= scope.width(),
    ensures
        groups(
            slot_keys(of_item),
            arranged(of_item, of_key, upto(of_item.len()), at, of_key.len()).0,
        ),
    decreases at.width(),
{
    let n = of_item.len();
    let items = upto(n);
    let keys = slot_keys(of_item);
    assert(items.no_duplicates());
    assert(below(items, n));
    if at.width() > scope.width() {
        passed_down(of_item, of_key, items, scope, at);
        arranged_groups(of_item, of_key, scope, lower(at));
    } else if n < 3 {
        assert forall|p: int, q: int|
            0 <= p < q < items.len() && keys[#[trigger] items[p] as int] is Some && keys[
            #[trigger] items[q] as int] is Some && keys[items[p] as int] != keys[items[q] as int] implies first_with(
            keys,
            keys[items[p] as int],
        ) < first_with(keys, keys[items[q] as int]) by {
            first_with_at(keys, keys[0], 0);
            first_with_facts(keys, keys[1], 1);
        }
    } else {
        let none = Seq::<usize>::empty();
        assert(brought(of_key, none) + items.skip(0) =~= items);
        sweeps_group(of_item, of_key, scope, none, none, 0);
    }
}

/// The users of a key are the items that have it, in order.
pub proof fn users_exact(items: Seq<TestItem>, n: int, key: KeyView)
    requires
        0 <= n <= items.len() <= usize::MAX,
    ensures
        increasing(users_of(items, n, key)),
        below(users_of(items, n, key), n as nat),
        forall|i: usize|
            i < items.len() ==> (#[trigger] users_of(items, n, key).contains(i) <==> i < n
                && item_keys(
                items[i as int].nodeid@,
                items[i as int].scope_sort_keys@,
            ).contains(key)),
    decreases n,
{
    if n > 0 {
        users_exact(items, n - 1, key);
        let before = users_of(items, n - 1, key);
        let last = (n - 1) as usize;
        let all = users_of(items, n, key);
        let taken = item_keys(items[n - 1].nodeid@, items[n - 1].scope_sort_keys@).contains(key);
        assert forall|i: int, j: int| 0 <= i < j < all.len() implies #[trigger] all[i]
            < #[trigger] all[j] by {
            assert(all[i] == before[i]);
            if j < before.len() {
                assert(all[j] == before[j]);
            }
        }
        assert forall|i: int| 0 <= i < all.len() implies #[trigger] all[i] < n by {
            if i < before.len() {
                assert(all[i] == before[i]);
            }
        }
        assert forall|i: usize| i < items.len() implies (#[trigger] all.contains(i) <==> i < n
            && item_keys(items[i as int].nodeid@, items[i as int].scope_sort_keys@).contains(
            key,
        )) by {
            assert(before.contains(i) <==> i < n - 1 && item_keys(
                items[i as int].nodeid@,
                items[i as int].scope_sort_keys@,
            ).contains(key));
            if taken {
                contains_split(before.push(last), i);
                assert(before.push(last).drop_last() =~= before);
            }
        }
    }
}

/// There are no more keys than items.
proof fn few_keys(items: Seq<TestItem>, scope: Scope, n: int)
    requires
        single_keyed(items, scope),
        0 <= n <= items.len(),
    ensures
        key_table(items, n).len() <= n,
    decreases n,
{
    if n > 0 {
        few_keys(items, scope, n - 1);
        let keys = item_keys(items[n - 1].nodeid@, items[n - 1].scope_sort_keys@);
        assert(keys.len() <= 1);
        reveal_with_fuel(with_keys, 3);
    }
}

/// The slots of items stand for their keys.
proof fn keys_correspond(items: Seq<TestItem>, of_item: Seq<Seq<Slot>>, scope: Scope)
    requires
        items.len() <= usize::MAX,
        table_of(items).len() <= usize::MAX,
        scope != Scope::Function,
        single_keyed(items, scope),
        all_slots_ok(items, of_item, table_of(items)),
    ensures
        setting(of_item, all_users(items, table_of(items)), scope),
        forall|i: int, j: int|
            0 <= i < items.len() && 0 <= j < items.len() ==> ((#[trigger] slot_keys(of_item)[i]
                == #[trigger] slot_keys(of_item)[j]) <==> sole_keys(items)[i] == sole_keys(
                items,
            )[j]),
        forall|i: int|
            0 <= i < items.len() ==> ((#[trigger] slot_keys(of_item)[i]) is Some <==> sole_keys(
                items,
            )[i] is Some),
{
    let table = table_of(items);
    let lists = all_users(items, table);
    table_facts(items, items.len() as int);
    lists_belong(items, of_item);
    assert forall|i: int| 0 <= i < items.len() implies (match #[trigger] slot_keys(of_item)[i] {
        Some(k) => k < table.len() && sole_keys(items)[i] == Some(table[k as int])
            && of_item[i][0].scope == scope && of_item[i].len() == 1,
        None => sole_keys(items)[i] is None && of_item[i].len() == 0,
    }) by {
        assert(slots_ok(items[i], of_item[i], table));
        let keys = item_keys(items[i].nodeid@, items[i].scope_sort_keys@);
        assert(keys.len() <= 1);
        if keys.len() == 1 {
            assert(stands_for(of_item[i][0], keys[0], table));
        }
    }
    assert(single(of_item, scope)) by {
        assert forall|i: int| 0 <= i < of_item.len() implies (#[trigger] of_item[i]).len() <= 1 && (
        of_item[i].len() == 1 ==> of_item[i][0].scope == scope) by {
            let k = slot_keys(of_item)[i];
        }
    }
    assert forall|k: int| 0 <= k < lists.len() implies increasing(#[trigger] lists[k]) && below(
        lists[k],
        of_item.len(),
    ) by {
        users_exact(items, items.len() as int, table[k]);
    }
    assert forall|k: usize, i: usize| k < lists.len() && i < of_item.len() implies (
    #[trigger] lists[k as int].contains(i) <==> slot_keys(of_item)[i as int] == Some(k)) by {
        users_exact(items, items.len() as int, table[k as int]);
        assert(lists[k as int] == users_of(items, items.len() as int, table[k as int]));
        assert(slots_ok(items[i as int], of_item[i as int], table));
        slot_means_key(items[i as int], of_item[i as int], table, k as int);
        let mine = of_item[i as int];
        let key = slot_keys(of_item)[i as int];
        if exists|j: int| 0 <= j < mine.len() && #[trigger] mine[j].key == k as int {
            let j = choose|j: int| 0 <= j < mine.len() && #[trigger] mine[j].key == k as int;
            assert(j == 0);
        }
        if key == Some(k) {
            assert(mine[0].key == k as int);
        }
    }
}

/// Keys that are equal in the same places are first used in the same places.
proof fn first_with_corresponds<A, B>(a: Seq<Option<A>>, b: Seq<Option<B>>, i: int)
    requires
        a.len() == b.len(),
        0 <= i < a.len(),
        forall|p: int, q: int|
            0 <= p < a.len() && 0 <= q < a.len() ==> ((#[trigger] a[p] == #[trigger] a[q])
                <==> b[p] == b[q]),
    ensures
        first_with(a, a[i]) == first_with(b, b[i]),
{
    first_with_facts(a, a[i], i);
    let f = first_with(a, a[i]);
    assert(a[f] == a[i]);
    assert forall|j: int| 0 <= j < f implies #[trigger] b[j] != b[i] by {
        if a[j] == a[i] {
            first_with_facts(a, a[i], j);
        }
    }
    first_with_at(b, b[i], f);
}

// ---------------------------------------------------------------------------
// Laws
// ---------------------------------------------------------------------------

/// Parameters of wider scopes change as rarely as possible: where every item
/// has one such parameter at most, and they are of one scope, items with the
/// same key stand together after reordering. The keys come in the order in
/// which they appeared first, and items with the same key keep their order.
pub proof fn equal_keys_stand_together(items: Seq<TestItem>, scope: Scope, order: Seq<usize>)
    requires
        items.len() <= usize::MAX,
        scope != Scope::Function,
        single_keyed(items, scope),
        grouping_order(items, order),
    ensures
        contiguous(sole_keys(items), order),
        stable(sole_keys(items), order),
        by_first_use(sole_keys(items), order),
{
    let table = table_of(items);
    let lists = all_users(items, table);
    let of_item = choose|of_item: Seq<Seq<Slot>>| #[trigger]
        all_slots_ok(items, of_item, table) && order == arranged(
            of_item,
            lists,
            upto(items.len()),
            Scope::Session,
            table.len(),
        ).0;
    few_keys(items, scope, items.len() as int);
    keys_correspond(items, of_item, scope);
    arranged_groups(of_item, lists, scope, Scope::Session);
    assert(upto(items.len()).no_duplicates());
    assert(below(upto(items.len()), of_item.len()));
    reordering_keeps_every_item(of_item, lists, upto(items.len()), Scope::Session);
    let a = slot_keys(of_item);
    let b = sole_keys(items);
    assert forall|p: int| 0 <= p < order.len() implies #[trigger] order[p] < items.len() by {
        assert(order.to_set().contains(order[p]));
        assert(upto(items.len()).to_set().contains(order[p]));
    }
    assert forall|p: int, q: int, r: int|
        0 <= p <= q <= r < order.len() && b[#[trigger] order[p] as int] is Some
            && b[order[p] as int] == b[#[trigger] order[r] as int] implies b[
        #[trigger] order[q] as int] == b[order[p] as int] by {
        assert(a[order[p] as int] == a[order[r] as int]);
        assert(a[order[q] as int] == a[order[p] as int]);
    }
    assert forall|p: int, q: int|
        0 <= p < q < order.len() && b[#[trigger] order[p] as int] is Some && b[order[p] as int]
            == b[#[trigger] order[q] as int] implies order[p] < order[q] by {
        assert(a[order[p] as int] == a[order[q] as int]);
    }
    assert forall|p: int, q: int|
        0 <= p < q < order.len() && b[#[trigger] order[p] as int] is Some && b[
        #[trigger] order[q] as int] is Some && b[order[p] as int] != b[order[q] as int] implies first_with(
        b,
        b[order[p] as int],
    ) < first_with(b, b[order[q] as int]) by {
        assert(a[order[p] as int] != a[order[q] as int]);
        first_with_corresponds(a, b, order[p] as int);
        first_with_corresponds(a, b, order[q] as int);
    }
}

/// Two items, with one parameter each, share its value: it has the same name and
/// index, and both lie in one place that a value of the scope spans.
pub open spec fn same_value(a: TestItem, b: TestItem, scope: Scope) -> bool {
    &&& a.scope_sort_keys@.len() == 1
    &&& b.scope_sort_keys@.len() == 1
    &&& a.scope_sort_keys@[0].arg@ == b.scope_sort_keys@[0].arg@
    &&& a.scope_sort_keys@[0].index == b.scope_sort_keys@[0].index
    &&& boundary(a.nodeid@, scope) == boundary(b.nodeid@, scope)
}

/// What reordering is for, in terms of parameters: where every item has one
/// parameter at most, all of one scope that is wider than a function, items that
/// share a value stand next to each other afterwards, in the order that they had,
/// and a value that came up first comes first.
pub proof fn shared_values_stand_together(
    before: Seq<TestItem>,
    after: Seq<TestItem>,
    order: Seq<usize>,
    scope: Scope,
)
    requires
        before.len() <= usize::MAX,
        scope != Scope::Function,
        forall|i: int|
            0 <= i < before.len() ==> (#[trigger] before[i]).scope_sort_keys@.len() <= 1 && (
            before[i].scope_sort_keys@.len() == 1 ==> before[i].scope_sort_keys@[0].scope == scope),
        grouped_as(before, after, order),
    ensures
        forall|p: int, q: int, r: int|
            0 <= p <= q <= r < after.len() && same_value(
                #[trigger] after[p],
                #[trigger] after[r],
                scope,
            ) ==> same_value(after[p], #[trigger] after[q], scope),
        forall|p: int, q: int|
            0 <= p < q < after.len() && same_value(#[trigger] after[p], #[trigger] after[q], scope)
                ==> order[p] < order[q],
        forall|p: int, q: int|
            0 <= p < q < after.len() && (#[trigger] after[p]).scope_sort_keys@.len() == 1
                && (#[trigger] after[q]).scope_sort_keys@.len() == 1 && !same_value(
                after[p],
                after[q],
                scope,
            ) ==> exists|m: int|
                0 <= m < before.len() && same_value(#[trigger] before[m], after[p], scope)
                    && forall|n: int|
                    0 <= n <= m ==> !same_value(#[trigger] before[n], after[q], scope),
{
    assert forall|i: int| 0 <= i < before.len() implies {
        let keys = #[trigger] item_keys(before[i].nodeid@, before[i].scope_sort_keys@);
        &&& keys.len() <= 1
        &&& keys.len() == 1 ==> keys[0].scope == scope
        &&& keys.len() == before[i].scope_sort_keys@.len()
        &&& keys.len() == 1 ==> keys[0] == key_of(before[i].nodeid@, before[i].scope_sort_keys@[0])
    } by {
        one_parameter_one_key(before[i].nodeid@, before[i].scope_sort_keys@);
    }
    let keys = sole_keys(before);
    equal_keys_stand_together(before, scope, order);
    assert forall|i: int, j: int|
        0 <= i < before.len() && 0 <= j < before.len() implies (#[trigger] keys[i] is Some
        && keys[i] == #[trigger] keys[j] <==> same_value(before[i], before[j], scope)) by {
        let a = item_keys(before[i].nodeid@, before[i].scope_sort_keys@);
        let b = item_keys(before[j].nodeid@, before[j].scope_sort_keys@);
        assert(a.len() <= 1 && b.len() <= 1);
    }
    assert forall|p: int, q: int, r: int|
        0 <= p <= q <= r < after.len() && same_value(
            #[trigger] after[p],
            #[trigger] after[r],
            scope,
        ) implies same_value(after[p], #[trigger] after[q], scope) by {
        let (i, j, k) = (order[p] as int, order[q] as int, order[r] as int);
        assert(after[p] == before[i] && after[q] == before[j] && after[r] == before[k]);
        assert(keys[i] is Some && keys[i] == keys[k]);
        assert(keys[j] == keys[i]);
    }
    assert forall|p: int, q: int|
        0 <= p < q < after.len() && same_value(
            #[trigger] after[p],
            #[trigger] after[q],
            scope,
        ) implies order[p] < order[q] by {
        let (i, j) = (order[p] as int, order[q] as int);
        assert(after[p] == before[i] && after[q] == before[j]);
        assert(keys[i] is Some && keys[i] == keys[j]);
    }
    assert forall|p: int, q: int|
        0 <= p < q < after.len() && (#[trigger] after[p]).scope_sort_keys@.len() == 1
            && (#[trigger] after[q]).scope_sort_keys@.len() == 1 && !same_value(
            after[p],
            after[q],
            scope,
        ) implies exists|m: int|
        0 <= m < before.len() && same_value(#[trigger] before[m], after[p], scope) && forall|n: int|
            0 <= n <= m ==> !same_value(#[trigger] before[n], after[q], scope) by {
        let (i, j) = (order[p] as int, order[q] as int);
        assert(after[p] == before[i] && after[q] == before[j]);
        assert(item_keys(before[i].nodeid@, before[i].scope_sort_keys@).len() == 1);
        assert(item_keys(before[j].nodeid@, before[j].scope_sort_keys@).len() == 1);
        assert(keys[i] is Some && keys[j] is Some);
        assert(keys[i] != keys[j]);
        let m = first_with(keys, keys[i]);
        first_with_facts(keys, keys[i], i);
        first_with_facts(keys, keys[j], j);
        assert(keys[m] == keys[i]);
        assert(same_value(before[m], after[p], scope));
        assert forall|n: int| 0 <= n <= m implies !same_value(#[trigger] before[n], after[q], scope) by {
            if same_value(before[n], before[j], scope) {
                assert(keys[n] == keys[j]);
                first_with_facts(keys, keys[j], n);
            }
        }
    }
}

proof fn one_parameter_one_key(nodeid: Seq<char>, params: Seq<SortKey>)
    requires
        params.len() <= 1,
        params.len() == 1 ==> params[0].scope != Scope::Function,
    ensures
        item_keys(nodeid, params).len() == params.len(),
        params.len() == 1 ==> item_keys(nodeid, params)[0] == key_of(nodeid, params[0]),
{
    let wide = wide_keys(nodeid, params);
    if params.len() == 1 {
        let key = key_of(nodeid, params[0]);
        assert(wide_keys(nodeid, params.drop_last()) =~= seq![]);
        assert(wide =~= seq![key]);
        assert(wide.drop_last() =~= seq![]);
        assert(with_keys(seq![], wide.drop_last()) =~= seq![]);
        assert(!Seq::<KeyView>::empty().contains(key));
        assert(with_keys(seq![], wide) =~= seq![key]);
    } else {
        assert(wide =~= seq![]);
        assert(with_keys(seq![], wide) =~= seq![]);
    }
}

} // verus!
