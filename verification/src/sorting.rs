//! Sorting positions by what stands at them.

use vstd::prelude::*;

use crate::lists::contains_split;

verus! {

// ---------------------------------------------------------------------------
// Model
// ---------------------------------------------------------------------------

/// Positions as integers.
pub open spec fn ints(v: Seq<usize>) -> Seq<int> {
    Seq::new(v.len(), |i: int| v[i] as int)
}

/// `ixs` with `x` put in before the entries at its end that it precedes.
pub open spec fn placed(before: spec_fn(int, int) -> bool, ixs: Seq<int>, x: int) -> Seq<int>
    decreases ixs.len(),
{
    if ixs.len() > 0 && before(x, ixs.last()) {
        placed(before, ixs.drop_last(), x).push(ixs.last())
    } else {
        ixs.push(x)
    }
}

/// The positions below `n`, put in one after the other.
pub open spec fn sorted(before: spec_fn(int, int) -> bool, n: int) -> Seq<int>
    decreases n,
{
    if n <= 0 {
        seq![]
    } else {
        placed(before, sorted(before, n - 1), n - 1)
    }
}

/// `before` is a strict order, in which several positions may rank the same.
pub open spec fn is_order(before: spec_fn(int, int) -> bool) -> bool {
    &&& forall|a: int, b: int| #[trigger] before(a, b) ==> !before(b, a)
    &&& forall|a: int, b: int, c: int|
        !#[trigger] before(a, b) && !#[trigger] before(b, c) ==> !before(a, c)
}

/// The entries stand in order; those that rank the same go by their position.
pub open spec fn in_order(before: spec_fn(int, int) -> bool, ixs: Seq<int>) -> bool {
    forall|i: int, j: int|
        0 <= i < j < ixs.len() ==> before(#[trigger] ixs[i], #[trigger] ixs[j]) || (!before(
            ixs[j],
            ixs[i],
        ) && ixs[i] < ixs[j])
}

// ---------------------------------------------------------------------------
// Executable functions
// ---------------------------------------------------------------------------

/// Puts `x` in its place among `ixs`.
pub(crate) fn place<F: Fn(usize, usize) -> bool>(
    ixs: &mut Vec<usize>,
    x: usize,
    n: usize,
    precedes: &F,
    Ghost(before): Ghost<spec_fn(int, int) -> bool>,
)
    requires
        x < n,
        forall|i: int| 0 <= i < old(ixs)@.len() ==> #[trigger] old(ixs)@[i] < n,
        forall|a: usize, b: usize| a < n && b < n ==> #[trigger] call_requires(*precedes, (a, b)),
        forall|a: usize, b: usize, r: bool| #[trigger]
            call_ensures(*precedes, (a, b), r) ==> r == before(a as int, b as int),
    ensures
        ints(final(ixs)@) == placed(before, ints(old(ixs)@), x as int),
        forall|i: int| 0 <= i < final(ixs)@.len() ==> #[trigger] final(ixs)@[i] < n,
{
    let ghost start = ixs@;
    let ghost all = ints(start);
    let mut k: usize = ixs.len();
    assert(all.take(k as int) =~= all);
    assert(placed(before, all.take(k as int), x as int) + all.skip(k as int) =~= placed(
        before,
        all,
        x as int,
    ));
    while k > 0 && precedes(x, ixs[k - 1])
        invariant
            k <= ixs@.len(),
            ixs@ == start,
            all == ints(start),
            x < n,
            forall|i: int| 0 <= i < ixs@.len() ==> #[trigger] ixs@[i] < n,
            forall|a: usize, b: usize|
                a < n && b < n ==> #[trigger] call_requires(*precedes, (a, b)),
            forall|a: usize, b: usize, r: bool| #[trigger]
                call_ensures(*precedes, (a, b), r) ==> r == before(a as int, b as int),
            placed(before, all.take(k as int), x as int) + all.skip(k as int) == placed(
                before,
                all,
                x as int,
            ),
        ensures
            k <= start.len(),
            ixs@ == start,
            k == 0 || !before(x as int, all[k - 1]),
            placed(before, all.take(k as int), x as int) + all.skip(k as int) == placed(
                before,
                all,
                x as int,
            ),
        decreases k,
    {
        let ghost head = all.take(k as int);
        assert(head.drop_last() =~= all.take(k - 1));
        assert(head.last() == all[k - 1]);
        assert(placed(before, head, x as int) + all.skip(k as int) =~= placed(
            before,
            head.drop_last(),
            x as int,
        ) + all.skip(k - 1));
        k -= 1;
    }
    assert(all.take(k as int).push(x as int) + all.skip(k as int) =~= ints(
        start.insert(k as int, x),
    ));
    ixs.insert(k, x);
}

/// The positions below `n`, sorted.
pub(crate) fn sort<F: Fn(usize, usize) -> bool>(
    n: usize,
    precedes: &F,
    Ghost(before): Ghost<spec_fn(int, int) -> bool>,
) -> (r: Vec<usize>)
    requires
        forall|a: usize, b: usize| a < n && b < n ==> #[trigger] call_requires(*precedes, (a, b)),
        forall|a: usize, b: usize, r: bool| #[trigger]
            call_ensures(*precedes, (a, b), r) ==> r == before(a as int, b as int),
    ensures
        ints(r@) == sorted(before, n as int),
        forall|i: int| 0 <= i < r@.len() ==> #[trigger] r@[i] < n,
{
    let mut r: Vec<usize> = Vec::new();
    assert(ints(r@) =~= seq![]);
    let mut i: usize = 0;
    while i < n
        invariant
            i <= n,
            ints(r@) == sorted(before, i as int),
            forall|k: int| 0 <= k < r@.len() ==> #[trigger] r@[k] < n,
            forall|a: usize, b: usize|
                a < n && b < n ==> #[trigger] call_requires(*precedes, (a, b)),
            forall|a: usize, b: usize, r: bool| #[trigger]
                call_ensures(*precedes, (a, b), r) ==> r == before(a as int, b as int),
        decreases n - i,
    {
        place(&mut r, i, n, precedes, Ghost(before));
        i += 1;
    }
    r
}

// ---------------------------------------------------------------------------
// Laws
// ---------------------------------------------------------------------------

/// Putting a later position in keeps the order and loses nothing.
pub proof fn placing_keeps_order(before: spec_fn(int, int) -> bool, ixs: Seq<int>, x: int)
    requires
        is_order(before),
        in_order(before, ixs),
        forall|i: int| 0 <= i < ixs.len() ==> #[trigger] ixs[i] < x,
    ensures
        in_order(before, placed(before, ixs, x)),
        placed(before, ixs, x).to_multiset() == ixs.to_multiset().insert(x),
        forall|y: int| #[trigger] placed(before, ixs, x).contains(y) <==> ixs.contains(y) || y == x,
    decreases ixs.len(),
{
    broadcast use vstd::seq_lib::group_to_multiset_ensures;

    let all = placed(before, ixs, x);
    if ixs.len() > 0 && before(x, ixs.last()) {
        let rest = ixs.drop_last();
        let last = ixs.last();
        assert(forall|i: int| 0 <= i < rest.len() ==> rest[i] == ixs[i]);
        placing_keeps_order(before, rest, x);
        let p = placed(before, rest, x);
        assert(ixs =~= rest.push(last));
        assert(ixs.to_multiset().insert(x) =~= rest.to_multiset().insert(x).insert(last));
        assert forall|y: int| #[trigger] all.contains(y) <==> ixs.contains(y) || y == x by {
            contains_split(all, y);
            assert(all.drop_last() =~= p);
            contains_split(ixs, y);
        }
        assert forall|i: int, j: int| 0 <= i < j < all.len() implies before(
            #[trigger] all[i],
            #[trigger] all[j],
        ) || (!before(all[j], all[i]) && all[i] < all[j]) by {
            if j == p.len() {
                assert(p.contains(p[i]));
                if p[i] != x {
                    let k = choose|k: int| 0 <= k < rest.len() && rest[k] == p[i];
                    assert(ixs[k] == p[i] && ixs[ixs.len() - 1] == last);
                }
            } else {
                assert(all[i] == p[i] && all[j] == p[j]);
            }
        }
    } else {
        assert forall|y: int| #[trigger] all.contains(y) <==> ixs.contains(y) || y == x by {
            contains_split(all, y);
            assert(all.drop_last() =~= ixs);
        }
        assert forall|i: int, j: int| 0 <= i < j < all.len() implies before(
            #[trigger] all[i],
            #[trigger] all[j],
        ) || (!before(all[j], all[i]) && all[i] < all[j]) by {
            assert(all[i] == ixs[i]);
            if j == ixs.len() {
                let last = ixs[ixs.len() - 1];
                assert(!before(x, last));
                if i < ixs.len() - 1 {
                    assert(before(ixs[i], last) || !before(last, ixs[i]));
                    assert(!before(last, ixs[i]));
                }
                assert(!before(x, ixs[i]));
            } else {
                assert(all[j] == ixs[j]);
            }
        }
    }
}

/// Sorting puts every position below `n` in order, each once; positions that
/// rank the same keep their order.
pub proof fn sorting_orders(before: spec_fn(int, int) -> bool, n: int)
    requires
        is_order(before),
        0 <= n,
    ensures
        in_order(before, sorted(before, n)),
        sorted(before, n).to_multiset() == Seq::new(n as nat, |i: int| i).to_multiset(),
        forall|y: int| #[trigger] sorted(before, n).contains(y) <==> 0 <= y < n,
    decreases n,
{
    broadcast use vstd::seq_lib::group_to_multiset_ensures;

    if n > 0 {
        sorting_orders(before, n - 1);
        let init = sorted(before, n - 1);
        assert forall|i: int| 0 <= i < init.len() implies #[trigger] init[i] < n - 1 by {
            assert(init.contains(init[i]));
        }
        placing_keeps_order(before, init, n - 1);
        assert(Seq::new(n as nat, |i: int| i) =~= Seq::new((n - 1) as nat, |i: int| i).push(n - 1));
    } else {
        assert(sorted(before, n) =~= Seq::new(n as nat, |i: int| i));
    }
}

} // verus!
