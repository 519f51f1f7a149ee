//! Lists: searching lists of strings, and facts about sequences.

use vstd::prelude::*;

use crate::text::{texts, texts_push};

verus! {

/// Whether `s` is one of `list`.
pub fn has_text(list: &[String], s: &str) -> (r: bool)
    ensures
        r == texts(list@).contains(s@),
{
    let key: String = s.to_owned();
    let mut i: usize = 0;
    while i < list.len()
        invariant
            i <= list@.len(),
            key@ == s@,
            forall|j: int| 0 <= j < i ==> texts(list@)[j] != s@,
        decreases list@.len() - i,
    {
        if list[i] == key {
            assert(texts(list@)[i as int] == s@);
            return true;
        }
        i += 1;
    }
    false
}

/// Whether `top` is the start of `list`.
pub fn texts_prefix(top: &[String], list: &[String]) -> (r: bool)
    ensures
        r == texts(top@).is_prefix_of(texts(list@)),
{
    if top.len() > list.len() {
        return false;
    }
    let mut i: usize = 0;
    while i < top.len()
        invariant
            i <= top@.len() <= list@.len(),
            forall|j: int| 0 <= j < i ==> top@[j]@ == list@[j]@,
        decreases top@.len() - i,
    {
        if top[i] != list[i] {
            assert(texts(top@)[i as int] != texts(list@)[i as int]);
            return false;
        }
        i += 1;
    }
    assert(texts(top@) =~= texts(list@).subrange(0, top@.len() as int));
    true
}

/// A copy of a list of strings.
pub fn copy_texts(list: &[String]) -> (r: Vec<String>)
    ensures
        r@ == list@,
{
    let mut r: Vec<String> = Vec::new();
    let mut i: usize = 0;
    while i < list.len()
        invariant
            i <= list@.len(),
            r@ == list@.take(i as int),
        decreases list@.len() - i,
    {
        r.push(list[i].clone());
        i += 1;
    }
    assert(list@.take(i as int) =~= list@);
    r
}

/// Appends a copy of `more` to `list`.
pub fn append_texts(list: &mut Vec<String>, more: &[String])
    ensures
        final(list)@ == old(list)@ + more@,
{
    let ghost start = list@;
    let mut i: usize = 0;
    assert(start + more@.take(0) =~= start);
    while i < more.len()
        invariant
            i <= more@.len(),
            list@ == start + more@.take(i as int),
        decreases more@.len() - i,
    {
        list.push(more[i].clone());
        i += 1;
    }
    assert(more@.take(i as int) =~= more@);
}

/// An element of a list is an element of its last or of what stands before.
pub proof fn contains_split<A>(s: Seq<A>, x: A)
    requires
        s.len() > 0,
    ensures
        s.contains(x) <==> s.drop_last().contains(x) || s.last() == x,
{
    if s.contains(x) {
        let k = choose|k: int| 0 <= k < s.len() && s[k] == x;
        if k < s.len() - 1 {
            assert(s.drop_last()[k] == x);
        }
    }
    if s.drop_last().contains(x) {
        let k = choose|k: int| 0 <= k < s.len() - 1 && s.drop_last()[k] == x;
        assert(s[k] == x);
    }
}

/// An element of two joined lists is an element of one of them.
pub proof fn contains_sum<A>(a: Seq<A>, b: Seq<A>, x: A)
    ensures
        (a + b).contains(x) <==> a.contains(x) || b.contains(x),
{
    if a.contains(x) {
        let k = choose|k: int| 0 <= k < a.len() && a[k] == x;
        assert((a + b)[k] == x);
    }
    if b.contains(x) {
        let k = choose|k: int| 0 <= k < b.len() && b[k] == x;
        assert((a + b)[a.len() + k] == x);
    }
}

/// The entries of a list, ready to be taken one by one.
pub fn takeable<T>(list: Vec<T>) -> (r: Vec<Option<T>>)
    ensures
        r@.len() == list@.len(),
        forall|i: int| 0 <= i < r@.len() ==> #[trigger] r@[i] == Some(list@[i]),
{
    let ghost all = list@;
    let n: usize = list.len();
    let mut source = list;
    let mut reversed: Vec<T> = Vec::new();
    while source.len() > 0
        invariant
            n == all.len(),
            reversed@.len() + source@.len() == n,
            source@ == all.take(source@.len() as int),
            forall|k: int| 0 <= k < reversed@.len() ==> #[trigger] reversed@[k] == all[n - 1 - k],
        decreases source@.len(),
    {
        let last = source.pop().unwrap();
        reversed.push(last);
        assert(source@ =~= all.take(source@.len() as int));
    }
    let mut r: Vec<Option<T>> = Vec::new();
    while reversed.len() > 0
        invariant
            n == all.len(),
            reversed@.len() + r@.len() == n,
            forall|k: int| 0 <= k < reversed@.len() ==> #[trigger] reversed@[k] == all[n - 1 - k],
            forall|i: int| 0 <= i < r@.len() ==> #[trigger] r@[i] == Some(all[i]),
        decreases reversed@.len(),
    {
        let next = reversed.pop();
        r.push(next);
    }
    r
}

/// A list without repetitions, all of whose elements come from a pool, is no
/// longer than the pool.
pub proof fn no_longer_than_pool<A>(list: Seq<A>, pool: Seq<A>)
    requires
        list.no_duplicates(),
        forall|i: int| 0 <= i < list.len() ==> pool.contains(#[trigger] list[i]),
    ensures
        list.len() <= pool.len(),
{
    broadcast use vstd::seq_lib::seq_to_set_is_finite;

    list.unique_seq_to_set();
    pool.lemma_cardinality_of_set();
    assert(list.to_set().subset_of(pool.to_set()));
    vstd::set_lib::lemma_len_subset(list.to_set(), pool.to_set());
}

/// The elements of the first `n + 1` are those of the first `n` and the next.
pub proof fn take_next<A>(s: Seq<A>, n: int)
    requires
        0 <= n < s.len(),
    ensures
        s.take(n + 1) == s.take(n).push(s[n]),
{
    assert(s.take(n + 1) =~= s.take(n).push(s[n]));
}

/// `names` with `x` at the end, unless it is there already.
pub open spec fn with_name<A>(names: Seq<A>, x: A) -> Seq<A> {
    if names.contains(x) {
        names
    } else {
        names.push(x)
    }
}

/// `names` followed by the new ones of `more`.
pub open spec fn with_all(names: Seq<Seq<char>>, more: Seq<Seq<char>>) -> Seq<Seq<char>>
    decreases more.len(),
{
    if more.len() == 0 {
        names
    } else {
        with_name(with_all(names, more.drop_last()), more.last())
    }
}

/// `names` with `x` appended, unless it is there already.
pub fn push_name(names: &mut Vec<String>, x: &str)
    ensures
        texts(final(names)@) == with_name(texts(old(names)@), x@),
{
    if !has_text(names.as_slice(), x) {
        let s: String = x.to_owned();
        proof {
            texts_push(names@, s);
        }
        names.push(s);
    }
}

/// Appending names keeps what was there, repeats nothing and adds just the
/// given names.
pub proof fn with_all_facts(names: Seq<Seq<char>>, more: Seq<Seq<char>>)
    ensures
        names.len() <= with_all(names, more).len(),
        forall|i: int| 0 <= i < names.len() ==> #[trigger] with_all(names, more)[i] == names[i],
        names.no_duplicates() ==> with_all(names, more).no_duplicates(),
        forall|x: Seq<char>| #[trigger]
            with_all(names, more).contains(x) <==> names.contains(x) || more.contains(x),
    decreases more.len(),
{
    if more.len() > 0 {
        with_all_facts(names, more.drop_last());
        let prior = with_all(names, more.drop_last());
        assert forall|x: Seq<char>| #[trigger]
            with_all(names, more).contains(x) <==> names.contains(x) || more.contains(x) by {
            contains_split(more, x);
            assert(prior.contains(x) <==> names.contains(x) || more.drop_last().contains(x));
            if prior.contains(x) && !prior.contains(more.last()) {
                let k = choose|k: int| 0 <= k < prior.len() && prior[k] == x;
                assert(prior.push(more.last())[k] == x);
            }
            if !prior.contains(more.last()) {
                assert(prior.push(more.last())[prior.len() as int] == more.last());
            }
        }
    }
}

/// The entries of the list whose mark is `want`, in order.
pub open spec fn chosen<A>(list: Seq<A>, marks: Seq<bool>, want: bool) -> Seq<A>
    decreases list.len(),
{
    if list.len() == 0 {
        seq![]
    } else {
        let before = chosen(list.drop_last(), marks, want);
        if marks[list.len() - 1] == want {
            before.push(list.last())
        } else {
            before
        }
    }
}

/// The entries marked `true` and those marked `false`, each in order.
pub fn partition<T>(list: Vec<T>, marks: &[bool]) -> (r: (Vec<T>, Vec<T>))
    requires
        marks@.len() == list@.len(),
    ensures
        r.0@ == chosen(list@, marks@, true),
        r.1@ == chosen(list@, marks@, false),
{
    let ghost all = list@;
    let n: usize = list.len();
    let mut slots = takeable(list);
    let mut yes: Vec<T> = Vec::new();
    let mut no: Vec<T> = Vec::new();
    let mut i: usize = 0;
    while i < n
        invariant
            n == all.len(),
            n == marks@.len(),
            n == slots@.len(),
            i <= n,
            forall|k: int| i <= k < n ==> #[trigger] slots@[k] == Some(all[k]),
            yes@ == chosen(all.take(i as int), marks@, true),
            no@ == chosen(all.take(i as int), marks@, false),
        decreases n - i,
    {
        proof {
            assert(all.take(i + 1).drop_last() =~= all.take(i as int));
        }
        let mut slot: Option<T> = None;
        assert(slots@[i as int] == Some(all[i as int]));
        core::mem::swap(&mut slot, &mut slots[i]);
        let entry = slot.unwrap();
        if marks[i] {
            yes.push(entry);
        } else {
            no.push(entry);
        }
        i += 1;
    }
    assert(all.take(n as int) =~= all);
    (yes, no)
}

/// A partition loses nothing and adds nothing.
pub proof fn partition_keeps_all<A>(list: Seq<A>, marks: Seq<bool>)
    requires
        list.len() <= marks.len(),
    ensures
        chosen(list, marks, true).to_multiset().add(chosen(list, marks, false).to_multiset())
            == list.to_multiset(),
        chosen(list, marks, true).len() + chosen(list, marks, false).len() == list.len(),
    decreases list.len(),
{
    broadcast use vstd::seq_lib::group_to_multiset_ensures;

    if list.len() > 0 {
        partition_keeps_all(list.drop_last(), marks);
        let yes = chosen(list.drop_last(), marks, true);
        let no = chosen(list.drop_last(), marks, false);
        assert(list =~= list.drop_last().push(list.last()));
        if marks[list.len() - 1] {
            assert(yes.push(list.last()).to_multiset().add(no.to_multiset())
                =~= yes.to_multiset().add(no.to_multiset()).insert(list.last()));
        } else {
            assert(yes.to_multiset().add(no.push(list.last()).to_multiset())
                =~= yes.to_multiset().add(no.to_multiset()).insert(list.last()));
        }
    } else {
        assert(chosen(list, marks, true).to_multiset().add(chosen(list, marks, false).to_multiset())
            =~= list.to_multiset());
    }
}

/// The entries come in the order of their places, none of them twice.
pub open spec fn rising<A>(list: Seq<A>, place: spec_fn(A) -> int) -> bool {
    forall|i: int, j: int|
        0 <= i < j < list.len() ==> place(#[trigger] list[i]) < place(#[trigger] list[j])
}

/// The places of the entries lie between `lo` and `hi`.
pub open spec fn placed_within<A>(list: Seq<A>, place: spec_fn(A) -> int, lo: int, hi: int) -> bool {
    forall|i: int| 0 <= i < list.len() ==> lo <= place(#[trigger] list[i]) < hi
}

/// Lists whose entries come one after the other come one after the other when
/// they are joined.
pub proof fn rising_sum<A>(a: Seq<A>, b: Seq<A>, place: spec_fn(A) -> int, lo: int, mid: int, hi: int)
    requires
        rising(a, place),
        rising(b, place),
        placed_within(a, place, lo, mid),
        placed_within(b, place, mid, hi),
        lo <= mid <= hi,
    ensures
        rising(a + b, place),
        placed_within(a + b, place, lo, hi),
        forall|x: A| #[trigger] (a + b).contains(x) <==> a.contains(x) || b.contains(x),
{
    let all = a + b;
    assert forall|i: int| 0 <= i < all.len() implies lo <= place(#[trigger] all[i]) < hi by {
        if i < a.len() {
            assert(all[i] == a[i]);
        } else {
            assert(all[i] == b[i - a.len()]);
        }
    }
    assert forall|i: int, j: int| 0 <= i < j < all.len() implies place(#[trigger] all[i]) < place(
        #[trigger] all[j],
    ) by {
        if j < a.len() {
            assert(all[i] == a[i] && all[j] == a[j]);
        } else if i >= a.len() {
            assert(all[i] == b[i - a.len()] && all[j] == b[j - a.len()]);
        } else {
            assert(all[i] == a[i] && all[j] == b[j - a.len()]);
        }
    }
    assert forall|x: A| #[trigger] all.contains(x) <==> a.contains(x) || b.contains(x) by {
        contains_sum(a, b, x);
    }
}

/// Lists without a common or repeated entry are joined as they stand.
pub proof fn new_names_are_appended(names: Seq<Seq<char>>, more: Seq<Seq<char>>)
    requires
        (names + more).no_duplicates(),
    ensures
        with_all(names, more) == names + more,
    decreases more.len(),
{
    let all = names + more;
    if more.len() == 0 {
        assert(all =~= names);
    } else {
        let init = more.drop_last();
        assert(names + init =~= all.drop_last());
        assert(all.drop_last().no_duplicates());
        new_names_are_appended(names, init);
        if (names + init).contains(more.last()) {
            let k = choose|k: int| 0 <= k < (names + init).len() && (names + init)[k]
                == more.last();
            assert(all[k] == all[all.len() - 1]);
        }
        assert((names + init).push(more.last()) =~= all);
    }
}

/// The entries with a place come in the order of their places, all of them
/// before `hi`; an entry without one, at -1, may stand anywhere.
#[verifier::opaque]
pub open spec fn staircase<A>(list: Seq<A>, place: spec_fn(A) -> int, hi: int) -> bool {
    &&& forall|i: int, j: int|
        0 <= i < j < list.len() && place(list[i]) >= 0 && place(list[j]) >= 0 ==> place(
            #[trigger] list[i],
        ) < place(#[trigger] list[j])
    &&& forall|i: int| 0 <= i < list.len() ==> place(#[trigger] list[i]) < hi
}

/// A list of steps may go on with a step that comes later than all of it.
pub proof fn next_step<A>(list: Seq<A>, place: spec_fn(A) -> int, hi: int, b: bool, step: A, x: A)
    requires
        staircase(list, place, hi),
        0 <= hi,
        place(step) >= hi || place(step) == -1,
    ensures
        ({
            let more = if b {
                seq![step]
            } else {
                seq![]
            };
            &&& staircase(
                list + more,
                place,
                if place(step) >= hi {
                    place(step) + 1
                } else {
                    hi
                },
            )
            &&& (list + more).contains(x) <==> list.contains(x) || (b && x == step)
        }),
{
    reveal(staircase);
    let more = if b {
        seq![step]
    } else {
        seq![]
    };
    let all = list + more;
    contains_sum(list, more, x);
    if b {
        assert(more[0] == step);
    }
    assert forall|i: int, j: int|
        0 <= i < j < all.len() && place(all[i]) >= 0 && place(all[j]) >= 0 implies place(
        #[trigger] all[i],
    ) < place(#[trigger] all[j]) by {
        assert(all[i] == list[i]);
        if j < list.len() {
            assert(all[j] == list[j]);
        } else {
            assert(all[j] == step);
        }
    }
    assert forall|i: int| 0 <= i < all.len() implies place(#[trigger] all[i]) < (if place(step)
        >= hi {
        place(step) + 1
    } else {
        hi
    }) by {
        if i < list.len() {
            assert(all[i] == list[i]);
        }
    }
}

/// An empty list of steps.
pub proof fn no_step<A>(place: spec_fn(A) -> int, x: A)
    ensures
        staircase(Seq::<A>::empty(), place, 0),
        !Seq::<A>::empty().contains(x),
{
    reveal(staircase);
}

/// A list of steps goes on with steps whose places follow each other.
pub proof fn next_block<A>(
    list: Seq<A>,
    place: spec_fn(A) -> int,
    hi: int,
    more: Seq<A>,
    lo: int,
    x: A,
)
    requires
        staircase(list, place, hi),
        0 <= hi <= lo,
        forall|i: int| 0 <= i < more.len() ==> place(#[trigger] more[i]) == lo + i,
    ensures
        staircase(list + more, place, lo + more.len()),
        (list + more).contains(x) <==> list.contains(x) || more.contains(x),
{
    reveal(staircase);
    let all = list + more;
    contains_sum(list, more, x);
    assert forall|i: int, j: int|
        0 <= i < j < all.len() && place(all[i]) >= 0 && place(all[j]) >= 0 implies place(
        #[trigger] all[i],
    ) < place(#[trigger] all[j]) by {
        if i < list.len() {
            assert(all[i] == list[i]);
        } else {
            assert(all[i] == more[i - list.len()]);
        }
        if j < list.len() {
            assert(all[j] == list[j]);
        } else {
            assert(all[j] == more[j - list.len()]);
        }
    }
    assert forall|i: int| 0 <= i < all.len() implies place(#[trigger] all[i]) < lo
        + more.len() by {
        if i < list.len() {
            assert(all[i] == list[i]);
        } else {
            assert(all[i] == more[i - list.len()]);
        }
    }
}

/// What is chosen of a list are just the entries with the wanted mark, in their
/// order: `at` says where they stand.
pub proof fn chosen_keeps_order<A>(list: Seq<A>, marks: Seq<bool>, want: bool) -> (at: Seq<int>)
    requires
        list.len() <= marks.len(),
    ensures
        at.len() == chosen(list, marks, want).len(),
        forall|k: int|
            0 <= k < at.len() ==> 0 <= #[trigger] at[k] < list.len() && marks[at[k]] == want
                && list[at[k]] == chosen(list, marks, want)[k],
        forall|j: int, k: int| 0 <= j < k < at.len() ==> #[trigger] at[j] < #[trigger] at[k],
        forall|i: int| 0 <= i < list.len() && marks[i] == want ==> #[trigger] at.contains(i),
    decreases list.len(),
{
    if list.len() == 0 {
        Seq::empty()
    } else {
        let init = list.drop_last();
        let n = list.len() - 1;
        let before = chosen_keeps_order(init, marks, want);
        if marks[n] == want {
            let at = before.push(n);
            assert forall|k: int| 0 <= k < at.len() implies 0 <= #[trigger] at[k] < list.len()
                && marks[at[k]] == want && list[at[k]] == chosen(list, marks, want)[k] by {
                if k < before.len() {
                    assert(at[k] == before[k]);
                }
            }
            assert forall|j: int, k: int| 0 <= j < k < at.len() implies #[trigger] at[j]
                < #[trigger] at[k] by {
                assert(at[j] == before[j]);
                if k < before.len() {
                    assert(at[k] == before[k]);
                }
            }
            assert forall|i: int| 0 <= i < list.len() && marks[i] == want implies
                #[trigger] at.contains(i) by {
                if i < n {
                    assert(before.contains(i));
                    let k = choose|k: int| 0 <= k < before.len() && before[k] == i;
                    assert(at[k] == i);
                } else {
                    assert(at[before.len() as int] == i);
                }
            }
            at
        } else {
            before
        }
    }
}

} // verus!
