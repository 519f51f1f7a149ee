//! Reordering of items so that parametrized fixtures of wider scopes are set
//! up as rarely as possible: session, package, module and class parameters in
//! turn.

use std::collections::VecDeque;

use vstd::prelude::*;

use crate::fixture::Scope;
use crate::lists::{contains_split, contains_sum, no_longer_than_pool, take_next};

verus! {

/// A parameter value that an item uses: items with the same key share the
/// fixture set up for that value.
#[derive(Debug, Clone, Copy, PartialEq, Eq, Structural)]
pub struct Slot {
    pub scope: Scope,
    pub key: usize,
}

// ---------------------------------------------------------------------------
// Model
// ---------------------------------------------------------------------------

/// The slots of each item.
pub open spec fn slots(v: Seq<Vec<Slot>>) -> Seq<Seq<Slot>> {
    Seq::new(v.len(), |i: int| v[i]@)
}

/// The items of each key.
pub open spec fn users(v: Seq<Vec<usize>>) -> Seq<Seq<usize>> {
    Seq::new(v.len(), |k: int| v[k]@)
}

/// The next narrower scope.
pub open spec fn lower(scope: Scope) -> Scope {
    match scope {
        Scope::Session => Scope::Package,
        Scope::Package => Scope::Module,
        Scope::Module => Scope::Class,
        _ => Scope::Function,
    }
}

/// The slots at a scope whose keys have not been sliced by yet.
pub open spec fn open_slots(list: Seq<Slot>, scope: Scope, sliced: Seq<usize>) -> Seq<Slot>
    decreases list.len(),
{
    if list.len() == 0 {
        seq![]
    } else {
        let before = open_slots(list.drop_last(), scope, sliced);
        if list.last().scope == scope && !sliced.contains(list.last().key) {
            before.push(list.last())
        } else {
            before
        }
    }
}

/// The entries of `list` that are among `items`.
pub open spec fn among(list: Seq<usize>, items: Seq<usize>) -> Seq<usize>
    decreases list.len(),
{
    if list.len() == 0 {
        seq![]
    } else {
        let before = among(list.drop_last(), items);
        if items.contains(list.last()) {
            before.push(list.last())
        } else {
            before
        }
    }
}

/// The entries of `list` other than `item`.
pub open spec fn without(list: Seq<usize>, item: usize) -> Seq<usize>
    decreases list.len(),
{
    if list.len() == 0 {
        seq![]
    } else {
        let before = without(list.drop_last(), item);
        if list.last() != item {
            before.push(list.last())
        } else {
            before
        }
    }
}

/// One of the first `n` slots of `list` has the key.
pub open spec fn has_key(list: Seq<Slot>, n: int, key: int) -> bool {
    exists|j: int| 0 <= j < n && #[trigger] list[j].key == key
}

/// The item uses the key.
pub open spec fn uses(of_item: Seq<Seq<Slot>>, item: usize, key: int) -> bool {
    has_key(of_item[item as int], of_item[item as int].len() as int, key)
}

/// `list` with `item` moved to the front.
pub open spec fn fronted(list: Seq<usize>, item: usize) -> Seq<usize> {
    seq![item] + without(list, item)
}

/// The item moves to the front of the list of every key that it uses.
pub open spec fn touched(
    of_item: Seq<Seq<Slot>>,
    of_key: Seq<Seq<usize>>,
    item: usize,
) -> Seq<Seq<usize>> {
    Seq::new(
        of_key.len(),
        |k: int|
            if uses(of_item, item, k) {
                fronted(of_key[k], item)
            } else {
                of_key[k]
            },
    )
}

/// The items move to the fronts one by one, the last one first.
pub open spec fn touched_all(
    of_item: Seq<Seq<Slot>>,
    of_key: Seq<Seq<usize>>,
    items: Seq<usize>,
) -> Seq<Seq<usize>>
    decreases items.len(),
{
    if items.len() == 0 {
        of_key
    } else {
        touched(of_item, touched_all(of_item, of_key, items.skip(1)), items[0])
    }
}

/// What one sweep over the waiting items leaves.
pub struct Sweep {
    /// Items without an open slot, in order.
    pub loose: Seq<usize>,
    /// The items that still wait.
    pub waiting: Seq<usize>,
    pub of_key: Seq<Seq<usize>>,
    /// The key of the item that ended the sweep.
    pub slicing: Option<usize>,
}

/// Items are taken off the front until one has an open slot; the items that
/// share its last open key then wait at the front.
pub open spec fn swept(
    of_item: Seq<Seq<Slot>>,
    of_key: Seq<Seq<usize>>,
    items: Seq<usize>,
    scope: Scope,
    sliced: Seq<usize>,
    done: Seq<usize>,
    loose: Seq<usize>,
    waiting: Seq<usize>,
) -> Sweep
    decreases waiting.len(),
{
    if waiting.len() == 0 {
        Sweep { loose, waiting, of_key, slicing: None }
    } else {
        let item = waiting[0];
        let rest = waiting.skip(1);
        let open = open_slots(of_item[item as int], scope, sliced);
        if done.contains(item) || loose.contains(item) {
            swept(of_item, of_key, items, scope, sliced, done, loose, rest)
        } else if open.len() == 0 {
            swept(of_item, of_key, items, scope, sliced, done, loose.push(item), rest)
        } else {
            let key = open.last().key;
            let same = among(of_key[key as int], items);
            Sweep {
                loose,
                waiting: same + rest,
                of_key: touched_all(of_item, of_key, same),
                slicing: Some(key),
            }
        }
    }
}

/// `list` followed by the new ones of `more`.
pub open spec fn with_new(list: Seq<usize>, more: Seq<usize>) -> Seq<usize>
    decreases more.len(),
{
    if more.len() == 0 {
        list
    } else {
        let before = with_new(list, more.drop_last());
        if before.contains(more.last()) {
            before
        } else {
            before.push(more.last())
        }
    }
}

/// Sweeps until nothing waits: what a sweep leaves loose is arranged at the
/// next narrower scope and is done, then the sweep's key is sliced by.
pub open spec fn sweeps(
    of_item: Seq<Seq<Slot>>,
    of_key: Seq<Seq<usize>>,
    items: Seq<usize>,
    scope: Scope,
    sliced: Seq<usize>,
    done: Seq<usize>,
    waiting: Seq<usize>,
    keys: nat,
) -> (Seq<usize>, Seq<Seq<usize>>)
    decreases scope.width(), 0nat, keys + 1 - sliced.len(),
{
    if waiting.len() == 0 || scope == Scope::Function || sliced.len() > keys {
        (done, of_key)
    } else {
        let sweep = swept(of_item, of_key, items, scope, sliced, done, seq![], waiting);
        let (order, after) = arranged(of_item, sweep.of_key, sweep.loose, lower(scope), keys);
        let done2 = with_new(done, order);
        match sweep.slicing {
            None => (done2, after),
            Some(key) => sweeps(
                of_item,
                after,
                items,
                scope,
                sliced.push(key),
                done2,
                sweep.waiting,
                keys,
            ),
        }
    }
}

/// The items in their new order at a scope, and what became of the lists of
/// the keys. Fewer than three items stay as they are.
pub open spec fn arranged(
    of_item: Seq<Seq<Slot>>,
    of_key: Seq<Seq<usize>>,
    items: Seq<usize>,
    scope: Scope,
    keys: nat,
) -> (Seq<usize>, Seq<Seq<usize>>)
    decreases scope.width(), 1nat, 0int,
{
    if scope == Scope::Function || items.len() < 3 {
        (items, of_key)
    } else {
        sweeps(of_item, of_key, items, scope, seq![], seq![], items, keys)
    }
}

/// Items and keys refer to each other within bounds.
pub open spec fn in_bounds(of_item: Seq<Seq<Slot>>, keys: nat) -> bool {
    forall|i: int, j: int|
        0 <= i < of_item.len() && 0 <= j < of_item[i].len() ==> #[trigger] of_item[i][j].key < keys
}

/// All entries are below `n`.
pub open spec fn below(list: Seq<usize>, n: nat) -> bool {
    forall|i: int| 0 <= i < list.len() ==> #[trigger] list[i] < n
}

/// `marks` tells which numbers are in `list`.
pub open spec fn marked(marks: Seq<bool>, list: Seq<usize>) -> bool {
    forall|i: usize| i < marks.len() ==> #[trigger] marks[i as int] == list.contains(i)
}

// ---------------------------------------------------------------------------
// Executable functions
// ---------------------------------------------------------------------------

/// The next narrower scope.
pub fn next_lower_scope(scope: Scope) -> (r: Scope)
    ensures
        r == lower(scope),
{
    match scope {
        Scope::Session => Scope::Package,
        Scope::Package => Scope::Module,
        Scope::Module => Scope::Class,
        _ => Scope::Function,
    }
}

/// No number below `n` is marked.
fn no_marks(n: usize) -> (r: Vec<bool>)
    ensures
        r@.len() == n,
        marked(r@, seq![]),
{
    let mut r: Vec<bool> = Vec::new();
    while r.len() < n
        invariant
            r@.len() <= n,
            forall|i: int| 0 <= i < r@.len() ==> !#[trigger] r@[i],
        decreases n - r@.len(),
    {
        r.push(false);
    }
    r
}

/// Appends `x` to `list` and marks it.
fn push_marked(marks: &mut Vec<bool>, list: &mut Vec<usize>, x: usize)
    requires
        x < old(marks)@.len(),
        marked(old(marks)@, old(list)@),
    ensures
        final(marks)@.len() == old(marks)@.len(),
        final(list)@ == old(list)@.push(x),
        marked(final(marks)@, final(list)@),
{
    let ghost before = list@;
    list.push(x);
    marks.set(x, true);
    assert forall|i: usize| i < marks@.len() implies #[trigger] marks@[i as int] == list@.contains(
        i,
    ) by {
        contains_split(list@, i);
        assert(list@.drop_last() =~= before);
    }
}

/// The numbers of `list`, marked.
fn marks_of(list: &[usize], n: usize) -> (r: Vec<bool>)
    requires
        below(list@, n as nat),
    ensures
        r@.len() == n,
        marked(r@, list@),
{
    let mut r = no_marks(n);
    let mut i: usize = 0;
    assert(list@.take(0) =~= seq![]);
    while i < list.len()
        invariant
            i <= list@.len(),
            below(list@, n as nat),
            r@.len() == n,
            marked(r@, list@.take(i as int)),
        decreases list@.len() - i,
    {
        r.set(list[i], true);
        proof {
            take_next(list@, i as int);
            let head = list@.take(i as int);
            let next = list@.take(i + 1);
            assert forall|k: usize| k < r@.len() implies #[trigger] r@[k as int] == next.contains(
                k,
            ) by {
                contains_split(next, k);
                assert(next.drop_last() =~= head);
            }
        }
        i += 1;
    }
    assert(list@.take(i as int) =~= list@);
    r
}

/// Moves `item` to the front of `list`.
fn front(list: &Vec<usize>, item: usize) -> (r: Vec<usize>)
    ensures
        r@ == fronted(list@, item),
{
    let mut r: Vec<usize> = Vec::new();
    r.push(item);
    let mut i: usize = 0;
    assert(r@ =~= seq![item] + without(list@.take(0), item));
    while i < list.len()
        invariant
            i <= list@.len(),
            r@ == seq![item] + without(list@.take(i as int), item),
        decreases list@.len() - i,
    {
        assert(list@.take(i + 1).drop_last() =~= list@.take(i as int));
        if list[i] != item {
            r.push(list[i]);
        }
        assert(r@ =~= seq![item] + without(list@.take(i + 1), item));
        i += 1;
    }
    assert(list@.take(i as int) =~= list@);
    r
}

/// Moves `item` to the front of the list of every key that it uses.
fn touch(of_item: &Vec<Vec<Slot>>, of_key: &mut Vec<Vec<usize>>, item: usize)
    requires
        item < of_item@.len(),
        in_bounds(slots(of_item@), old(of_key)@.len()),
    ensures
        users(final(of_key)@) == touched(slots(of_item@), users(old(of_key)@), item),
        final(of_key)@.len() == old(of_key)@.len(),
{
    let ghost abi = slots(of_item@);
    let ghost start = users(of_key@);
    let mine = &of_item[item];
    let mut j: usize = 0;
    while j < mine.len()
        invariant
            j <= mine@.len(),
            item < of_item@.len(),
            abi == slots(of_item@),
            mine@ == abi[item as int],
            of_key@.len() == start.len(),
            in_bounds(abi, start.len()),
            forall|k: int|
                0 <= k < start.len() ==> (#[trigger] of_key@[k])@ == (if has_key(
                    mine@,
                    j as int,
                    k,
                ) {
                    fronted(start[k], item)
                } else {
                    start[k]
                }),
        decreases mine@.len() - j,
    {
        let slot: Slot = mine[j];
        assert(abi[item as int][j as int].key < start.len());
        let key: usize = slot.key;
        let ghost before = of_key@;
        let moved = front(&of_key[key], item);
        of_key.set(key, moved);
        proof {
            fronted_twice(start[key as int], item);
            assert forall|k: int| 0 <= k < start.len() implies (#[trigger] of_key@[k])@ == (
            if has_key(mine@, j + 1, k) {
                fronted(start[k], item)
            } else {
                start[k]
            }) by {
                assert(mine@[j as int].key == key);
                assert(before[k]@ == (if has_key(mine@, j as int, k) {
                    fronted(start[k], item)
                } else {
                    start[k]
                }));
                if k != key && has_key(mine@, j + 1, k) {
                    let l = choose|l: int| 0 <= l < j + 1 && #[trigger] mine@[l].key == k;
                    assert(l < j);
                }
            }
        }
        j += 1;
    }
    assert(users(of_key@) =~= touched(abi, start, item));
}

/// What is left without `item` does not hold it.
pub proof fn without_facts(list: Seq<usize>, item: usize)
    ensures
        !without(list, item).contains(item),
        without(without(list, item), item) == without(list, item),
        forall|x: usize| #[trigger]
            without(list, item).contains(x) <==> list.contains(x) && x != item,
    decreases list.len(),
{
    if list.len() > 0 {
        let before = without(list.drop_last(), item);
        without_facts(list.drop_last(), item);
        if list.last() != item {
            assert(before.push(list.last()).drop_last() =~= before);
        }
        assert forall|x: usize| #[trigger]
            without(list, item).contains(x) <==> list.contains(x) && x != item by {
            contains_split(list, x);
            if list.last() != item {
                contains_split(before.push(list.last()), x);
            }
            assert(before.contains(x) <==> list.drop_last().contains(x) && x != item);
        }
    }
}

/// Moving an item to the front a second time changes nothing.
proof fn fronted_twice(list: Seq<usize>, item: usize)
    ensures
        fronted(fronted(list, item), item) == fronted(list, item),
{
    without_facts(list, item);
    let kept = without(list, item);
    without_head(item, kept);
}

proof fn without_head(item: usize, kept: Seq<usize>)
    ensures
        without(seq![item] + kept, item) == without(kept, item),
    decreases kept.len(),
{
    let all = seq![item] + kept;
    if kept.len() == 0 {
        assert(all.drop_last() =~= seq![]);
        assert(without(all.drop_last(), item) =~= seq![]);
        assert(all.last() == item);
    } else {
        assert(all.drop_last() =~= seq![item] + kept.drop_last());
        without_head(item, kept.drop_last());
        assert(all.last() == kept.last());
    }
}

/// The key of the last open slot of an item.
fn last_open(mine: &Vec<Slot>, scope: Scope, sliced_marks: &Vec<bool>, Ghost(sliced): Ghost<Seq<usize>>) -> (r: Option<usize>)
    requires
        marked(sliced_marks@, sliced),
        forall|j: int| 0 <= j < mine@.len() ==> #[trigger] mine@[j].key < sliced_marks@.len(),
    ensures
        match r {
            Some(key) => open_slots(mine@, scope, sliced).len() > 0 && key == open_slots(
                mine@,
                scope,
                sliced,
            ).last().key,
            None => open_slots(mine@, scope, sliced).len() == 0,
        },
{
    let mut n: usize = mine.len();
    assert(mine@.take(n as int) =~= mine@);
    while n > 0
        invariant
            n <= mine@.len(),
            marked(sliced_marks@, sliced),
            forall|j: int| 0 <= j < mine@.len() ==> #[trigger] mine@[j].key < sliced_marks@.len(),
            open_slots(mine@, scope, sliced) == open_slots(mine@.take(n as int), scope, sliced),
        decreases n,
    {
        let slot: Slot = mine[n - 1];
        assert(mine@.take(n as int).drop_last() =~= mine@.take(n - 1));
        assert(mine@[n - 1].key < sliced_marks@.len());
        if slot.scope == scope && !sliced_marks[slot.key] {
            return Some(slot.key);
        }
        n -= 1;
    }
    None
}

/// The entries of `list` that are marked.
fn pick_marked(list: &Vec<usize>, marks: &Vec<bool>, Ghost(items): Ghost<Seq<usize>>) -> (r: Vec<usize>)
    requires
        marked(marks@, items),
        below(items, marks@.len()),
    ensures
        r@ == among(list@, items),
        below(r@, marks@.len()),
{
    let mut r: Vec<usize> = Vec::new();
    let mut i: usize = 0;
    while i < list.len()
        invariant
            i <= list@.len(),
            marked(marks@, items),
            below(items, marks@.len()),
            r@ == among(list@.take(i as int), items),
            below(r@, marks@.len()),
        decreases list@.len() - i,
    {
        assert(list@.take(i + 1).drop_last() =~= list@.take(i as int));
        let x: usize = list[i];
        if x < marks.len() && marks[x] {
            r.push(x);
        } else {
            assert(!items.contains(x)) by {
                if items.contains(x) {
                    let k = choose|k: int| 0 <= k < items.len() && items[k] == x;
                    assert(items[k] < marks@.len());
                }
            }
        }
        i += 1;
    }
    assert(list@.take(i as int) =~= list@);
    r
}

/// Moves the items to the fronts of their lists and to the front of the
/// waiting ones, the last one first.
fn bring_forward(
    of_item: &Vec<Vec<Slot>>,
    of_key: &mut Vec<Vec<usize>>,
    waiting: &mut VecDeque<usize>,
    same: &Vec<usize>,
)
    requires
        in_bounds(slots(of_item@), old(of_key)@.len()),
        below(same@, of_item@.len()),
    ensures
        final(waiting)@ == same@ + old(waiting)@,
        users(final(of_key)@) == touched_all(slots(of_item@), users(old(of_key)@), same@),
        final(of_key)@.len() == old(of_key)@.len(),
{
    let ghost keys = users(of_key@);
    let ghost rest = waiting@;
    let mut n: usize = same.len();
    assert(same@.skip(n as int) =~= seq![]);
    assert(same@.skip(n as int) + rest =~= rest);
    while n > 0
        invariant
            n <= same@.len(),
            in_bounds(slots(of_item@), of_key@.len()),
            of_key@.len() == keys.len(),
            below(same@, of_item@.len()),
            waiting@ == same@.skip(n as int) + rest,
            users(of_key@) == touched_all(slots(of_item@), keys, same@.skip(n as int)),
        decreases n,
    {
        let i: usize = same[n - 1];
        assert(same@[n - 1] < of_item@.len());
        assert(same@.skip(n - 1).skip(1) =~= same@.skip(n as int));
        waiting.push_front(i);
        assert(waiting@ =~= same@.skip(n - 1) + rest);
        touch(of_item, of_key, i);
        n -= 1;
    }
    assert(same@.skip(0) =~= same@);
}

/// One sweep over the waiting items. Returns the loose items and the key of
/// the item that ended the sweep.
fn sweep(
    of_item: &Vec<Vec<Slot>>,
    of_key: &mut Vec<Vec<usize>>,
    item_marks: &Vec<bool>,
    scope: Scope,
    sliced_marks: &Vec<bool>,
    done_marks: &Vec<bool>,
    waiting: &mut VecDeque<usize>,
    Ghost(items): Ghost<Seq<usize>>,
    Ghost(sliced): Ghost<Seq<usize>>,
    Ghost(done): Ghost<Seq<usize>>,
) -> (r: (Vec<usize>, Option<usize>))
    requires
        in_bounds(slots(of_item@), old(of_key)@.len()),
        item_marks@.len() == of_item@.len(),
        done_marks@.len() == of_item@.len(),
        sliced_marks@.len() == old(of_key)@.len(),
        marked(item_marks@, items),
        marked(sliced_marks@, sliced),
        marked(done_marks@, done),
        below(items, of_item@.len()),
        below(old(waiting)@, of_item@.len()),
    ensures
        ({
            let s = swept(
                slots(of_item@),
                users(old(of_key)@),
                items,
                scope,
                sliced,
                done,
                seq![],
                old(waiting)@,
            );
            &&& r.0@ == s.loose
            &&& r.1 == s.slicing
            &&& final(waiting)@ == s.waiting
            &&& users(final(of_key)@) == s.of_key
        }),
        final(of_key)@.len() == old(of_key)@.len(),
        below(final(waiting)@, of_item@.len()),
        below(r.0@, of_item@.len()),
        r.1 matches Some(key) ==> key < old(of_key)@.len() && !sliced.contains(key),
        r.1 is None ==> final(waiting)@.len() == 0,
{
    let n: usize = of_item.len();
    let ghost abi = slots(of_item@);
    let ghost keys = users(of_key@);
    let ghost goal = swept(abi, keys, items, scope, sliced, done, seq![], waiting@);
    let mut loose: Vec<usize> = Vec::new();
    let mut loose_marks = no_marks(n);
    loop
        invariant
            n == of_item@.len(),
            abi == slots(of_item@),
            keys == users(of_key@),
            keys == users(old(of_key)@),
            goal == swept(abi, keys, items, scope, sliced, done, seq![], old(waiting)@),
            in_bounds(abi, of_key@.len()),
            of_key@.len() == old(of_key)@.len(),
            item_marks@.len() == n,
            done_marks@.len() == n,
            loose_marks@.len() == n,
            sliced_marks@.len() == of_key@.len(),
            marked(item_marks@, items),
            marked(sliced_marks@, sliced),
            marked(done_marks@, done),
            marked(loose_marks@, loose@),
            below(items, n as nat),
            below(waiting@, n as nat),
            below(loose@, n as nat),
            swept(abi, keys, items, scope, sliced, done, loose@, waiting@) == goal,
        decreases waiting@.len(),
    {
        let ghost all = waiting@;
        let item: usize = match waiting.pop_front() {
            Some(item) => item,
            None => {
                return (loose, None);
            },
        };
        assert(all[0] < n);
        assert(waiting@ =~= all.skip(1));
        assert(below(waiting@, n as nat)) by {
            assert forall|i: int| 0 <= i < waiting@.len() implies #[trigger] waiting@[i] < n by {
                assert(all[i + 1] < n);
            }
        }
        if done_marks[item] || loose_marks[item] {
            continue;
        }
        assert(!done.contains(item) && !loose@.contains(item));
        assert(of_item@[item as int]@ == abi[item as int]);
        assert forall|j: int| 0 <= j < of_item@[item as int]@.len() implies #[trigger] of_item@[item as int]@[j].key
            < sliced_marks@.len() by {
            assert(abi[item as int][j].key < of_key@.len());
        }
        match last_open(&of_item[item], scope, sliced_marks, Ghost(sliced)) {
            None => {
                push_marked(&mut loose_marks, &mut loose, item);
            },
            Some(key) => {
                proof {
                    open_slots_facts(abi[item as int], scope, sliced);
                }
                let same = pick_marked(&of_key[key], item_marks, Ghost(items));
                let ghost rest = waiting@;
                bring_forward(of_item, of_key, waiting, &same);
                assert(below(waiting@, n as nat)) by {
                    assert forall|i: int| 0 <= i < waiting@.len() implies #[trigger] waiting@[i]
                        < n by {
                        if i < same@.len() {
                            assert(same@[i] < n);
                        } else {
                            assert(rest[i - same@.len()] < n);
                        }
                    }
                }
                return (loose, Some(key));
            },
        }
    }
}

/// A list of different numbers below `n` has at most `n` entries.
pub proof fn distinct_below(list: Seq<usize>, n: nat)
    requires
        list.no_duplicates(),
        below(list, n),
        n <= usize::MAX,
    ensures
        list.len() <= n,
{
    let pool = Seq::new(n, |i: int| i as usize);
    assert forall|i: int| 0 <= i < list.len() implies pool.contains(#[trigger] list[i]) by {
        assert(pool[list[i] as int] == list[i]);
    }
    no_longer_than_pool(list, pool);
}

/// The items in their new order at a scope; the lists of the keys change
/// along, so that narrower scopes follow the decisions of wider ones.
pub fn reorder_items_atscope(
    items: &[usize],
    of_item: &Vec<Vec<Slot>>,
    of_key: &mut Vec<Vec<usize>>,
    scope: Scope,
) -> (r: Vec<usize>)
    requires
        in_bounds(slots(of_item@), old(of_key)@.len()),
        below(items@, of_item@.len()),
    ensures
        (r@, users(final(of_key)@)) == arranged(
            slots(of_item@),
            users(old(of_key)@),
            items@,
            scope,
            old(of_key)@.len(),
        ),
        final(of_key)@.len() == old(of_key)@.len(),
        below(r@, of_item@.len()),
    decreases scope.width(),
{
    if scope == Scope::Function || items.len() < 3 {
        let mut r: Vec<usize> = Vec::new();
        let mut i: usize = 0;
        while i < items.len()
            invariant
                i <= items@.len(),
                r@ == items@.take(i as int),
            decreases items@.len() - i,
        {
            r.push(items[i]);
            i += 1;
        }
        assert(items@.take(i as int) =~= items@);
        return r;
    }
    let n: usize = of_item.len();
    let keys: usize = of_key.len();
    let ghost abi = slots(of_item@);
    let item_marks = marks_of(items, n);
    let mut waiting: VecDeque<usize> = VecDeque::new();
    let mut i: usize = 0;
    while i < items.len()
        invariant
            i <= items@.len(),
            waiting@ == items@.take(i as int),
        decreases items@.len() - i,
    {
        waiting.push_back(items[i]);
        i += 1;
    }
    assert(items@.take(i as int) =~= items@);
    let mut sliced: Vec<usize> = Vec::new();
    let mut sliced_marks = no_marks(keys);
    let mut done: Vec<usize> = Vec::new();
    let mut done_marks = no_marks(n);
    let ghost goal = arranged(abi, users(of_key@), items@, scope, keys as nat);
    while waiting.len() > 0
        invariant
            scope != Scope::Function,
            n == of_item@.len(),
            keys == of_key@.len(),
            keys == old(of_key)@.len(),
            abi == slots(of_item@),
            in_bounds(abi, keys as nat),
            below(items@, n as nat),
            below(waiting@, n as nat),
            below(done@, n as nat),
            below(sliced@, keys as nat),
            sliced@.no_duplicates(),
            item_marks@.len() == n,
            done_marks@.len() == n,
            sliced_marks@.len() == keys,
            marked(item_marks@, items@),
            marked(sliced_marks@, sliced@),
            marked(done_marks@, done@),
            goal == arranged(abi, users(old(of_key)@), items@, scope, keys as nat),
            goal == sweeps(
                abi,
                users(of_key@),
                items@,
                scope,
                sliced@,
                done@,
                waiting@,
                keys as nat,
            ),
        decreases keys + 1 - sliced@.len(), waiting@.len(),
    {
        proof {
            distinct_below(sliced@, keys as nat);
        }
        let ghost before = done@;
        let (loose, slicing) = sweep(
            of_item,
            of_key,
            &item_marks,
            scope,
            &sliced_marks,
            &done_marks,
            &mut waiting,
            Ghost(items@),
            Ghost(sliced@),
            Ghost(done@),
        );
        let order = reorder_items_atscope(
            loose.as_slice(),
            of_item,
            of_key,
            next_lower_scope(scope),
        );
        let mut k: usize = 0;
        while k < order.len()
            invariant
                k <= order@.len(),
                n == of_item@.len(),
                below(order@, n as nat),
                below(done@, n as nat),
                done_marks@.len() == n,
                marked(done_marks@, done@),
                done@ == with_new(before, order@.take(k as int)),
            decreases order@.len() - k,
        {
            assert(order@.take(k + 1).drop_last() =~= order@.take(k as int));
            let x: usize = order[k];
            assert(order@[k as int] < n);
            if !done_marks[x] {
                push_marked(&mut done_marks, &mut done, x);
            }
            k += 1;
        }
        assert(order@.take(k as int) =~= order@);
        match slicing {
            None => {},
            Some(key) => {
                push_marked(&mut sliced_marks, &mut sliced, key);
            },
        }
    }
    done
}

/// An open slot is a slot of the list, at the scope, and not sliced by.
pub proof fn open_slots_facts(list: Seq<Slot>, scope: Scope, sliced: Seq<usize>)
    ensures
        forall|j: int|
            0 <= j < open_slots(list, scope, sliced).len() ==> {
                let s = #[trigger] open_slots(list, scope, sliced)[j];
                &&& s.scope == scope
                &&& !sliced.contains(s.key)
                &&& exists|i: int| 0 <= i < list.len() && list[i] == s
            },
    decreases list.len(),
{
    if list.len() > 0 {
        let init = list.drop_last();
        open_slots_facts(init, scope, sliced);
        let r = open_slots(list, scope, sliced);
        let before = open_slots(init, scope, sliced);
        assert forall|j: int| 0 <= j < r.len() implies {
            let s = #[trigger] r[j];
            &&& s.scope == scope
            &&& !sliced.contains(s.key)
            &&& exists|i: int| 0 <= i < list.len() && list[i] == s
        } by {
            if j < before.len() {
                assert(r[j] == before[j]);
                let i = choose|i: int| 0 <= i < init.len() && init[i] == before[j];
                assert(list[i] == r[j]);
            } else {
                assert(list[list.len() - 1] == r[j]);
            }
        }
    }
}

// ---------------------------------------------------------------------------
// Laws
// ---------------------------------------------------------------------------

/// Every item is in the list of each key that it uses.
pub open spec fn listed(of_item: Seq<Seq<Slot>>, of_key: Seq<Seq<usize>>) -> bool {
    forall|i: usize, j: int|
        i < of_item.len() && 0 <= j < of_item[i as int].len() ==> of_key[(#[trigger] of_item[i as int][j]).key as int].contains(
            i,
        )
}

/// The entries of `list` are among `items`.
pub open spec fn part_of(list: Seq<usize>, items: Seq<usize>) -> bool {
    forall|x: usize| #[trigger] list.contains(x) ==> items.contains(x)
}

/// Every item is done, loose or waiting.
pub open spec fn covered(
    items: Seq<usize>,
    done: Seq<usize>,
    loose: Seq<usize>,
    waiting: Seq<usize>,
) -> bool {
    forall|x: usize| #[trigger]
        items.contains(x) ==> done.contains(x) || loose.contains(x) || waiting.contains(x)
}

proof fn touched_facts(of_item: Seq<Seq<Slot>>, of_key: Seq<Seq<usize>>, item: usize)
    requires
        listed(of_item, of_key),
        in_bounds(of_item, of_key.len()),
    ensures
        listed(of_item, touched(of_item, of_key, item)),
        touched(of_item, of_key, item).len() == of_key.len(),
{
    let after = touched(of_item, of_key, item);
    assert forall|i: usize, j: int|
        i < of_item.len() && 0 <= j < of_item[i as int].len() implies after[(
    #[trigger] of_item[i as int][j]).key as int].contains(i) by {
        let k = of_item[i as int][j].key as int;
        assert(of_item[i as int][j].key < of_key.len());
        assert(of_key[k].contains(i));
        if uses(of_item, item, k) {
            without_facts(of_key[k], item);
            contains_sum(seq![item], without(of_key[k], item), i);
            assert(seq![item][0] == item);
        }
    }
}

/// Moving several items to the front loses them from none of their keys.
pub proof fn touched_all_facts(of_item: Seq<Seq<Slot>>, of_key: Seq<Seq<usize>>, items: Seq<usize>)
    requires
        listed(of_item, of_key),
        in_bounds(of_item, of_key.len()),
    ensures
        listed(of_item, touched_all(of_item, of_key, items)),
        touched_all(of_item, of_key, items).len() == of_key.len(),
    decreases items.len(),
{
    if items.len() > 0 {
        touched_all_facts(of_item, of_key, items.skip(1));
        touched_facts(of_item, touched_all(of_item, of_key, items.skip(1)), items[0]);
    }
}

/// What is kept of a list is what it shares with the items.
pub proof fn among_facts(list: Seq<usize>, items: Seq<usize>)
    ensures
        forall|x: usize| #[trigger]
            among(list, items).contains(x) <==> list.contains(x) && items.contains(x),
    decreases list.len(),
{
    if list.len() > 0 {
        let before = among(list.drop_last(), items);
        among_facts(list.drop_last(), items);
        assert forall|x: usize| #[trigger]
            among(list, items).contains(x) <==> list.contains(x) && items.contains(x) by {
            contains_split(list, x);
            if items.contains(list.last()) {
                contains_split(before.push(list.last()), x);
                assert(before.push(list.last()).drop_last() =~= before);
            }
            assert(before.contains(x) <==> list.drop_last().contains(x) && items.contains(x));
        }
    }
}

/// The facts that every sweep keeps.
pub open spec fn sweep_state(
    of_item: Seq<Seq<Slot>>,
    of_key: Seq<Seq<usize>>,
    items: Seq<usize>,
    done: Seq<usize>,
    loose: Seq<usize>,
    waiting: Seq<usize>,
) -> bool {
    &&& in_bounds(of_item, of_key.len())
    &&& listed(of_item, of_key)
    &&& below(items, of_item.len())
    &&& part_of(loose, items)
    &&& part_of(waiting, items)
    &&& loose.no_duplicates()
    &&& forall|x: usize| #[trigger] loose.contains(x) ==> !done.contains(x)
    &&& covered(items, done, loose, waiting)
}

/// A sweep keeps what holds between sweeps, and slices by a new key.
pub proof fn swept_facts(
    of_item: Seq<Seq<Slot>>,
    of_key: Seq<Seq<usize>>,
    items: Seq<usize>,
    scope: Scope,
    sliced: Seq<usize>,
    done: Seq<usize>,
    loose: Seq<usize>,
    waiting: Seq<usize>,
)
    requires
        sweep_state(of_item, of_key, items, done, loose, waiting),
    ensures
        ({
            let s = swept(of_item, of_key, items, scope, sliced, done, loose, waiting);
            &&& sweep_state(of_item, s.of_key, items, done, s.loose, s.waiting)
            &&& s.of_key.len() == of_key.len()
            &&& s.slicing is None ==> s.waiting.len() == 0
            &&& s.slicing matches Some(key) ==> key < of_key.len() && !sliced.contains(key)
        }),
    decreases waiting.len(),
{
    if waiting.len() > 0 {
        let item = waiting[0];
        let rest = waiting.skip(1);
        assert(waiting.contains(item));
        assert(items.contains(item));
        assert(waiting =~= seq![item] + rest);
        assert forall|x: usize| waiting.contains(x) <==> x == item || #[trigger] rest.contains(x) by {
            contains_sum(seq![item], rest, x);
            assert(seq![item][0] == item);
        }
        let open = open_slots(of_item[item as int], scope, sliced);
        if done.contains(item) || loose.contains(item) {
            assert(covered(items, done, loose, rest)) by {
                assert forall|x: usize| #[trigger] items.contains(x) implies done.contains(x)
                    || loose.contains(x) || rest.contains(x) by {
                    assert(waiting.contains(x) <==> x == item || rest.contains(x));
                }
            }
            swept_facts(of_item, of_key, items, scope, sliced, done, loose, rest);
        } else if open.len() == 0 {
            let more = loose.push(item);
            assert forall|x: usize| #[trigger] more.contains(x) <==> x == item || loose.contains(
                x,
            ) by {
                contains_split(more, x);
                assert(more.drop_last() =~= loose);
            }
            assert(covered(items, done, more, rest)) by {
                assert forall|x: usize| #[trigger] items.contains(x) implies done.contains(x)
                    || more.contains(x) || rest.contains(x) by {
                    assert(waiting.contains(x) <==> x == item || rest.contains(x));
                    assert(more.contains(x) <==> x == item || loose.contains(x));
                }
            }
            swept_facts(of_item, of_key, items, scope, sliced, done, more, rest);
        } else {
            open_slots_facts(of_item[item as int], scope, sliced);
            let slot = open[open.len() - 1];
            let key = slot.key;
            let j = choose|j: int|
                0 <= j < of_item[item as int].len() && of_item[item as int][j] == slot;
            let pos = choose|p: int| 0 <= p < items.len() && items[p] == item;
            assert(items[pos] < of_item.len());
            assert(of_item[item as int][j].key < of_key.len());
            assert(of_key[of_item[item as int][j].key as int].contains(item));
            let same = among(of_key[key as int], items);
            among_facts(of_key[key as int], items);
            assert(same.contains(item));
            touched_all_facts(of_item, of_key, same);
            assert forall|x: usize| #[trigger] (same + rest).contains(x) <==> same.contains(x)
                || rest.contains(x) by {
                contains_sum(same, rest, x);
            }
            assert(covered(items, done, loose, same + rest)) by {
                assert forall|x: usize| #[trigger] items.contains(x) implies done.contains(x)
                    || loose.contains(x) || (same + rest).contains(x) by {
                    assert(waiting.contains(x) <==> x == item || rest.contains(x));
                }
            }
            assert(part_of(same + rest, items));
        }
    }
}

/// Appending new entries adds those entries and repeats none.
pub proof fn with_new_facts(list: Seq<usize>, more: Seq<usize>)
    ensures
        list.no_duplicates() ==> with_new(list, more).no_duplicates(),
        forall|x: usize| #[trigger]
            with_new(list, more).contains(x) <==> list.contains(x) || more.contains(x),
    decreases more.len(),
{
    if more.len() > 0 {
        let before = with_new(list, more.drop_last());
        with_new_facts(list, more.drop_last());
        assert forall|x: usize| #[trigger]
            with_new(list, more).contains(x) <==> list.contains(x) || more.contains(x) by {
            contains_split(more, x);
            assert(before.contains(x) <==> list.contains(x) || more.drop_last().contains(x));
            if !before.contains(more.last()) {
                contains_split(before.push(more.last()), x);
                assert(before.push(more.last()).drop_last() =~= before);
            }
        }
    }
}

/// `list` holds just the items, each once.
pub open spec fn rearrangement(list: Seq<usize>, items: Seq<usize>) -> bool {
    list.no_duplicates() && forall|x: usize| #[trigger] list.contains(x) <==> items.contains(x)
}

proof fn sweeps_facts(
    of_item: Seq<Seq<Slot>>,
    of_key: Seq<Seq<usize>>,
    items: Seq<usize>,
    scope: Scope,
    sliced: Seq<usize>,
    done: Seq<usize>,
    waiting: Seq<usize>,
    keys: nat,
)
    requires
        keys == of_key.len() <= usize::MAX,
        scope != Scope::Function,
        sweep_state(of_item, of_key, items, done, seq![], waiting),
        done.no_duplicates(),
        part_of(done, items),
        sliced.no_duplicates(),
        below(sliced, keys),
    ensures
        ({
            let (order, after) = sweeps(
                of_item,
                of_key,
                items,
                scope,
                sliced,
                done,
                waiting,
                keys,
            );
            &&& rearrangement(order, items)
            &&& after.len() == keys
            &&& listed(of_item, after)
        }),
    decreases scope.width(), 0nat, keys + 1 - sliced.len(),
{
    distinct_below(sliced, keys);
    if waiting.len() > 0 {
        swept_facts(of_item, of_key, items, scope, sliced, done, seq![], waiting);
        let s = swept(of_item, of_key, items, scope, sliced, done, seq![], waiting);
        assert(below(s.loose, of_item.len())) by {
            assert forall|i: int| 0 <= i < s.loose.len() implies #[trigger] s.loose[i]
                < of_item.len() by {
                assert(s.loose.contains(s.loose[i]));
                let p = choose|p: int| 0 <= p < items.len() && items[p] == s.loose[i];
                assert(items[p] < of_item.len());
            }
        }
        arranged_facts(of_item, s.of_key, s.loose, lower(scope), keys);
        let (order, after) = arranged(of_item, s.of_key, s.loose, lower(scope), keys);
        let done2 = with_new(done, order);
        with_new_facts(done, order);
        assert(part_of(done2, items)) by {
            assert forall|x: usize| #[trigger] done2.contains(x) implies items.contains(x) by {
                assert(done.contains(x) || order.contains(x));
                assert(order.contains(x) ==> s.loose.contains(x));
            }
        }
        assert(covered(items, done2, seq![], s.waiting)) by {
            assert forall|x: usize| #[trigger] items.contains(x) implies done2.contains(x)
                || Seq::<usize>::empty().contains(x) || s.waiting.contains(x) by {
                assert(done2.contains(x) <==> done.contains(x) || order.contains(x));
                assert(s.loose.contains(x) ==> order.contains(x));
            }
        }
        match s.slicing {
            None => {
                assert forall|x: usize| #[trigger] done2.contains(x) <==> items.contains(x) by {
                    assert(!s.waiting.contains(x));
                    assert(!Seq::<usize>::empty().contains(x));
                }
            },
            Some(key) => {
                let more = sliced.push(key);
                assert(more.no_duplicates());
                assert(below(more, keys));
                sweeps_facts(of_item, after, items, scope, more, done2, s.waiting, keys);
            },
        }
    } else {
        assert forall|x: usize| #[trigger] done.contains(x) <==> items.contains(x) by {
            assert(!waiting.contains(x));
            assert(!Seq::<usize>::empty().contains(x));
        }
    }
}

/// Arranging gives the items in another order, and keeps the lists of the keys whole.
pub proof fn arranged_facts(
    of_item: Seq<Seq<Slot>>,
    of_key: Seq<Seq<usize>>,
    items: Seq<usize>,
    scope: Scope,
    keys: nat,
)
    requires
        keys == of_key.len() <= usize::MAX,
        in_bounds(of_item, keys),
        listed(of_item, of_key),
        below(items, of_item.len()),
        items.no_duplicates(),
    ensures
        rearrangement(arranged(of_item, of_key, items, scope, keys).0, items),
        arranged(of_item, of_key, items, scope, keys).1.len() == keys,
        listed(of_item, arranged(of_item, of_key, items, scope, keys).1),
    decreases scope.width(), 1nat, 0int,
{
    if scope != Scope::Function && items.len() >= 3 {
        assert(covered(items, seq![], seq![], items));
        sweeps_facts(of_item, of_key, items, scope, seq![], seq![], items, keys);
    }
}

/// Reordering loses no item and repeats none.
pub proof fn reordering_keeps_every_item(
    of_item: Seq<Seq<Slot>>,
    of_key: Seq<Seq<usize>>,
    items: Seq<usize>,
    scope: Scope,
)
    requires
        of_key.len() <= usize::MAX,
        in_bounds(of_item, of_key.len()),
        listed(of_item, of_key),
        below(items, of_item.len()),
        items.no_duplicates(),
    ensures
        ({
            let order = arranged(of_item, of_key, items, scope, of_key.len()).0;
            &&& order.no_duplicates()
            &&& order.len() == items.len()
            &&& order.to_set() == items.to_set()
        }),
{
    arranged_facts(of_item, of_key, items, scope, of_key.len());
    let order = arranged(of_item, of_key, items, scope, of_key.len()).0;
    assert(order.to_set() =~= items.to_set()) by {
        assert forall|x: usize| #[trigger] order.to_set().contains(x) <==> items.to_set().contains(
            x,
        ) by {
            assert(order.contains(x) <==> items.contains(x));
        }
    }
    order.unique_seq_to_set();
    items.unique_seq_to_set();
}

} // verus!
