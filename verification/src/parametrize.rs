//! `@pytest.mark.parametrize`: ids of values, and the expansion of stacked
//! marks into the product of their value sets.

use vstd::prelude::*;

use crate::item::MarkData;
use crate::object::Handle;
use crate::text::{
    decimal, decimal_of, join, joined, joined_push, same, split, split_by, texts, texts_push, trim,
    trimmed,
};

verus! {

/// What a parameter value is, as far as its id depends on it.
pub enum ValueKind {
    /// The value `None`.
    Nothing,
    Bool(bool),
    Text(String),
    /// An integer or a float, with its `repr` where it has one.
    Number(Option<String>),
    Other,
}

/// A parameter value.
pub struct ParamValue {
    pub obj: Handle,
    pub kind: ValueKind,
}

/// The values for one call: as given by `pytest.param(...)`, a tuple or a
/// bare value.
pub struct ValueSet {
    pub values: Vec<ParamValue>,
    /// `pytest.param(..., id=...)`.
    pub id: Option<String>,
    /// `pytest.param(..., marks=...)`.
    pub marks: Vec<MarkData>,
}

/// How an element of the list of values is to be read.
#[derive(Debug, Clone, Copy, PartialEq, Eq, Structural)]
pub enum SetShape {
    /// A `pytest.param(...)`.
    Spec,
    /// An iterable with one value per argument.
    Spread,
    /// The value itself.
    Single,
}

/// One value set of a mark, ready to use.
pub struct ParamSet {
    pub id: String,
    pub params: Vec<(String, Handle)>,
    pub marks: Vec<MarkData>,
}

/// The value sets of one mark.
pub struct Dim {
    pub sets: Vec<ParamSet>,
}

/// One expanded test.
pub struct ParamVariant {
    /// The "[...]" id suffix; None for unparametrized tests.
    pub id: Option<String>,
    pub params: Vec<(String, Handle)>,
    /// Marks attached via `pytest.param(..., marks=...)`.
    pub extra_marks: Vec<MarkData>,
}

// ---------------------------------------------------------------------------
// Model
// ---------------------------------------------------------------------------

/// The id of a value.
pub open spec fn value_id(kind: ValueKind, argname: Seq<char>, index: nat) -> Seq<char> {
    match kind {
        ValueKind::Nothing => "None"@,
        ValueKind::Bool(b) => if b {
            "True"@
        } else {
            "False"@
        },
        ValueKind::Text(s) => s@,
        ValueKind::Number(Some(repr)) => repr@,
        _ => argname + decimal_of(index),
    }
}

/// The ids of the values of a set.
pub open spec fn value_ids(
    argnames: Seq<String>,
    values: Seq<ParamValue>,
    index: nat,
) -> Seq<Seq<char>> {
    Seq::new(argnames.len(), |i: int| value_id(values[i].kind, argnames[i]@, index))
}

/// The explicit id for the set at `index`, where the mark gives one.
pub open spec fn explicit_id(ids: Option<Vec<Option<String>>>, index: int) -> Option<String> {
    match ids {
        Some(list) => if index < list@.len() {
            list@[index]
        } else {
            None
        },
        None => None,
    }
}

/// The id of a set: its own, the mark's, or the ids of its values.
pub open spec fn set_id(
    argnames: Seq<String>,
    set: ValueSet,
    ids: Option<Vec<Option<String>>>,
    index: int,
) -> Seq<char> {
    match set.id {
        Some(id) => id@,
        None => match explicit_id(ids, index) {
            Some(id) => id@,
            None => joined(value_ids(argnames, set.values@, index as nat), "-"@),
        },
    }
}

/// The argument names paired with the values.
pub open spec fn pairs(argnames: Seq<String>, values: Seq<ParamValue>) -> Seq<(String, Handle)> {
    Seq::new(argnames.len(), |i: int| (argnames[i], values[i].obj))
}

/// `out` is the set at `index` of the mark, ready to use.
pub open spec fn set_ready(
    argnames: Seq<String>,
    set: ValueSet,
    ids: Option<Vec<Option<String>>>,
    index: int,
    out: ParamSet,
) -> bool {
    &&& out.id@ == set_id(argnames, set, ids, index)
    &&& out.params@ == pairs(argnames, set.values@)
    &&& out.marks@ == set.marks@
}

/// The first set that does not have one value per argument.
pub open spec fn first_mismatch(sets: Seq<ValueSet>, names: nat, from: int) -> Option<int>
    decreases sets.len() - from,
{
    if from < 0 || from >= sets.len() {
        None
    } else if sets[from].values@.len() != names {
        Some(from)
    } else {
        first_mismatch(sets, names, from + 1)
    }
}

/// What is said of a set without one value per argument.
pub open spec fn mismatch_message(names: nat, values: nat) -> Seq<char> {
    "parametrize: "@ + decimal_of(names) + " argnames but "@ + decimal_of(values) + " values"@
}

/// The number of sets of each mark.
pub open spec fn sizes(dims: Seq<Dim>) -> Seq<nat> {
    Seq::new(dims.len(), |i: int| dims[i].sets@.len())
}

/// The product of the sizes.
pub open spec fn total(sizes: Seq<nat>) -> nat
    decreases sizes.len(),
{
    if sizes.len() == 0 {
        1
    } else {
        total(sizes.drop_last()) * sizes.last()
    }
}

/// The choice of sets for variant `k`: the last mark varies fastest.
pub open spec fn choice(sizes: Seq<nat>, k: nat) -> Seq<nat>
    decreases sizes.len(),
{
    if sizes.len() == 0 {
        seq![]
    } else {
        choice(sizes.drop_last(), k / sizes.last()).push(k % sizes.last())
    }
}

/// The number of the variant with this choice.
pub open spec fn rank(sizes: Seq<nat>, picks: Seq<nat>) -> nat
    decreases sizes.len(),
{
    if sizes.len() == 0 {
        0
    } else {
        rank(sizes.drop_last(), picks.drop_last()) * sizes.last() + picks.last()
    }
}

/// One set is chosen of each mark.
pub open spec fn is_choice(sizes: Seq<nat>, picks: Seq<nat>) -> bool {
    picks.len() == sizes.len() && forall|i: int|
        0 <= i < sizes.len() ==> #[trigger] picks[i] < sizes[i]
}

/// The ids of the chosen sets.
pub open spec fn chosen_ids(dims: Seq<Dim>, picks: Seq<nat>) -> Seq<Seq<char>> {
    Seq::new(dims.len(), |i: int| dims[i].sets@[picks[i] as int].id@)
}

/// The parameters of the chosen sets of the first `n` marks.
pub open spec fn chosen_params(dims: Seq<Dim>, picks: Seq<nat>, n: int) -> Seq<(String, Handle)>
    decreases n,
{
    if n <= 0 {
        seq![]
    } else {
        chosen_params(dims, picks, n - 1) + dims[n - 1].sets@[picks[n - 1] as int].params@
    }
}

/// The marks of the chosen sets of the first `n` marks.
pub open spec fn chosen_marks(dims: Seq<Dim>, picks: Seq<nat>, n: int) -> Seq<MarkData>
    decreases n,
{
    if n <= 0 {
        seq![]
    } else {
        chosen_marks(dims, picks, n - 1) + dims[n - 1].sets@[picks[n - 1] as int].marks@
    }
}

/// `v` is the test with this choice of sets.
pub open spec fn is_variant(dims: Seq<Dim>, picks: Seq<nat>, v: ParamVariant) -> bool {
    &&& v.id matches Some(id) && id@ == joined(chosen_ids(dims, picks), "-"@)
    &&& v.params@ == chosen_params(dims, picks, dims.len() as int)
    &&& v.extra_marks@ == chosen_marks(dims, picks, dims.len() as int)
}

/// Indices as numbers.
pub open spec fn nats(v: Seq<usize>) -> Seq<nat> {
    Seq::new(v.len(), |i: int| v[i] as nat)
}

/// The positions of the marks named `parametrize` among the first `n`.
pub open spec fn parametrizing(marks: Seq<MarkData>, n: int) -> Seq<usize>
    decreases n,
{
    if n <= 0 {
        seq![]
    } else {
        let before = parametrizing(marks, n - 1);
        if marks[n - 1].name@ == "parametrize"@ {
            before.push((n - 1) as usize)
        } else {
            before
        }
    }
}

// ---------------------------------------------------------------------------
// Executable functions
// ---------------------------------------------------------------------------

/// The names in a comma-separated list of arguments.
pub fn split_argnames(names: &str) -> (r: Vec<String>)
    ensures
        texts(r@) == split_by(names@, ","@).map_values(|s: Seq<char>| trimmed(s)),
{
    proof {
        reveal_strlit(",");
    }
    let pieces = split(names, ",");
    let mut r: Vec<String> = Vec::new();
    let mut i: usize = 0;
    while i < pieces.len()
        invariant
            i <= pieces@.len(),
            r@.len() == i,
            forall|k: int| 0 <= k < i ==> texts(r@)[k] == trimmed(#[trigger] texts(pieces@)[k]),
        decreases pieces@.len() - i,
    {
        let piece = trim(pieces[i].as_str());
        proof {
            texts_push(r@, piece);
        }
        r.push(piece);
        assert(texts(pieces@)[i as int] == pieces@[i as int]@);
        i += 1;
    }
    assert(texts(r@) =~= split_by(names@, ","@).map_values(|s: Seq<char>| trimmed(s)));
    r
}

/// How an element of the list of values is to be read.
pub fn set_shape(is_spec: bool, argnames: usize) -> (r: SetShape)
    ensures
        r == (if is_spec {
            SetShape::Spec
        } else if argnames > 1 {
            SetShape::Spread
        } else {
            SetShape::Single
        }),
{
    if is_spec {
        SetShape::Spec
    } else if argnames > 1 {
        SetShape::Spread
    } else {
        SetShape::Single
    }
}

/// pytest-style id for one parameter value.
pub fn id_for_value(kind: &ValueKind, argname: &str, index: usize) -> (r: String)
    ensures
        r@ == value_id(*kind, argname@, index as nat),
{
    match kind {
        ValueKind::Nothing => "None".to_owned(),
        ValueKind::Bool(b) => if *b {
            "True".to_owned()
        } else {
            "False".to_owned()
        },
        ValueKind::Text(s) => s.clone(),
        ValueKind::Number(Some(repr)) => repr.clone(),
        _ => {
            let mut r: String = argname.to_owned();
            r.append(decimal(index).as_str());
            r
        },
    }
}

/// The id of the value set at `index`.
fn id_for_set(
    argnames: &[String],
    set: &ValueSet,
    ids: &Option<Vec<Option<String>>>,
    index: usize,
) -> (r: String)
    requires
        set.values@.len() == argnames@.len(),
    ensures
        r@ == set_id(argnames@, *set, *ids, index as int),
{
    if let Some(id) = &set.id {
        return id.clone();
    }
    if let Some(list) = ids {
        if index < list.len() {
            if let Some(id) = &list[index] {
                return id.clone();
            }
        }
    }
    let mut parts: Vec<String> = Vec::new();
    let mut i: usize = 0;
    while i < argnames.len()
        invariant
            i <= argnames@.len(),
            set.values@.len() == argnames@.len(),
            texts(parts@) == value_ids(argnames@, set.values@, index as nat).take(i as int),
        decreases argnames@.len() - i,
    {
        let part = id_for_value(&set.values[i].kind, argnames[i].as_str(), index);
        proof {
            texts_push(parts@, part);
        }
        parts.push(part);
        i += 1;
    }
    assert(value_ids(argnames@, set.values@, index as nat).take(i as int) =~= value_ids(
        argnames@,
        set.values@,
        index as nat,
    ));
    join(parts.as_slice(), "-")
}

/// The marks that parametrize a test, in order.
pub fn parametrize_marks(marks: &[MarkData]) -> (r: Vec<usize>)
    ensures
        r@ == parametrizing(marks@, marks@.len() as int),
{
    let mut r: Vec<usize> = Vec::new();
    let mut i: usize = 0;
    while i < marks.len()
        invariant
            i <= marks@.len(),
            r@ == parametrizing(marks@, i as int),
        decreases marks@.len() - i,
    {
        if same(marks[i].name.as_str(), "parametrize") {
            r.push(i);
        }
        i += 1;
    }
    r
}

/// A copy of a list of marks.
pub fn copy_marks(marks: &[MarkData]) -> (r: Vec<MarkData>)
    ensures
        r@ == marks@,
{
    let mut r: Vec<MarkData> = Vec::new();
    append_marks(&mut r, marks);
    assert(r@ =~= marks@);
    r
}

/// Appends a copy of `more` to `list`.
pub fn append_marks(list: &mut Vec<MarkData>, more: &[MarkData])
    ensures
        final(list)@ == old(list)@ + more@,
{
    let ghost start = list@;
    let mut i: usize = 0;
    assert(start + more@.take(0) =~= start);
    while i < more.len()
        invariant
            i <= more@.len(),
            list@ == start + more@.take(i as int),
        decreases more@.len() - i,
    {
        let mark = MarkData { name: more[i].name.clone(), obj: more[i].obj };
        assert(mark == more@[i as int]);
        list.push(mark);
        assert(list@ =~= start + more@.take(i + 1));
        i += 1;
    }
    assert(more@.take(i as int) =~= more@);
}

/// Appends a copy of `more` to `list`.
pub fn append_params(list: &mut Vec<(String, Handle)>, more: &[(String, Handle)])
    ensures
        final(list)@ == old(list)@ + more@,
{
    let ghost start = list@;
    let mut i: usize = 0;
    assert(start + more@.take(0) =~= start);
    while i < more.len()
        invariant
            i <= more@.len(),
            list@ == start + more@.take(i as int),
        decreases more@.len() - i,
    {
        let param = (more[i].0.clone(), more[i].1);
        assert(param == more@[i as int]);
        list.push(param);
        assert(list@ =~= start + more@.take(i + 1));
        i += 1;
    }
    assert(more@.take(i as int) =~= more@);
}

/// The value sets of one mark, ready to use: an error where a set does not
/// have one value per argument.
pub fn build_dim(
    argnames: &[String],
    sets: &[ValueSet],
    ids: &Option<Vec<Option<String>>>,
) -> (r: Result<Dim, String>)
    ensures
        match first_mismatch(sets@, argnames@.len(), 0) {
            Some(i) => r matches Err(message) && message@ == mismatch_message(
                argnames@.len(),
                sets@[i].values@.len(),
            ),
            None => r matches Ok(dim) && dim.sets@.len() == sets@.len() && forall|i: int|
                0 <= i < sets@.len() ==> set_ready(
                    argnames@,
                    sets@[i],
                    *ids,
                    i,
                    #[trigger] dim.sets@[i],
                ),
        },
{
    let mut out: Vec<ParamSet> = Vec::new();
    let mut index: usize = 0;
    while index < sets.len()
        invariant
            index <= sets@.len(),
            first_mismatch(sets@, argnames@.len(), 0) == first_mismatch(
                sets@,
                argnames@.len(),
                index as int,
            ),
            out@.len() == index,
            forall|i: int|
                0 <= i < index ==> set_ready(argnames@, sets@[i], *ids, i, #[trigger] out@[i]),
        decreases sets@.len() - index,
    {
        let set = &sets[index];
        if set.values.len() != argnames.len() {
            let mut message: String = "parametrize: ".to_owned();
            message.append(decimal(argnames.len()).as_str());
            message.append(" argnames but ");
            message.append(decimal(set.values.len()).as_str());
            message.append(" values");
            return Err(message);
        }
        let id = id_for_set(argnames, set, ids, index);
        let mut params: Vec<(String, Handle)> = Vec::new();
        let mut i: usize = 0;
        while i < argnames.len()
            invariant
                i <= argnames@.len(),
                set.values@.len() == argnames@.len(),
                params@ == pairs(argnames@, set.values@).take(i as int),
            decreases argnames@.len() - i,
        {
            params.push((argnames[i].clone(), set.values[i].obj));
            assert(params@ =~= pairs(argnames@, set.values@).take(i + 1));
            i += 1;
        }
        assert(params@ =~= pairs(argnames@, set.values@));
        out.push(ParamSet { id, params, marks: copy_marks(set.marks.as_slice()) });
        index += 1;
    }
    Ok(Dim { sets: out })
}

/// The test with the chosen sets.
fn variant_at(dims: &Vec<Dim>, picks: &Vec<usize>) -> (r: ParamVariant)
    requires
        is_choice(sizes(dims@), nats(picks@)),
    ensures
        is_variant(dims@, nats(picks@), r),
{
    let mut ids: Vec<String> = Vec::new();
    let mut params: Vec<(String, Handle)> = Vec::new();
    let mut marks: Vec<MarkData> = Vec::new();
    let mut i: usize = 0;
    while i < dims.len()
        invariant
            i <= dims@.len(),
            is_choice(sizes(dims@), nats(picks@)),
            texts(ids@) == chosen_ids(dims@, nats(picks@)).take(i as int),
            params@ == chosen_params(dims@, nats(picks@), i as int),
            marks@ == chosen_marks(dims@, nats(picks@), i as int),
        decreases dims@.len() - i,
    {
        assert(nats(picks@)[i as int] < sizes(dims@)[i as int]);
        let set = &dims[i].sets[picks[i]];
        let id: String = set.id.clone();
        proof {
            texts_push(ids@, id);
        }
        ids.push(id);
        assert(texts(ids@) =~= chosen_ids(dims@, nats(picks@)).take(i + 1));
        append_params(&mut params, set.params.as_slice());
        append_marks(&mut marks, set.marks.as_slice());
        i += 1;
    }
    assert(chosen_ids(dims@, nats(picks@)).take(i as int) =~= chosen_ids(dims@, nats(picks@)));
    ParamVariant { id: Some(join(ids.as_slice(), "-")), params, extra_marks: marks }
}

/// The product of the sizes from mark `m` on.
pub open spec fn total_from(sizes: Seq<nat>, m: int) -> nat
    decreases sizes.len() - m,
{
    if m < 0 || m >= sizes.len() {
        1
    } else {
        sizes[m] * total_from(sizes, m + 1)
    }
}

proof fn total_splits(sizes: Seq<nat>, m: int)
    requires
        0 <= m <= sizes.len(),
    ensures
        total(sizes) == total(sizes.take(m)) * total_from(sizes, m),
    decreases sizes.len() - m,
{
    if m == sizes.len() {
        assert(sizes.take(m) =~= sizes);
        vstd::arithmetic::mul::lemma_mul_basics(total(sizes) as int);
    } else {
        total_splits(sizes, m + 1);
        assert(sizes.take(m + 1).drop_last() =~= sizes.take(m));
        let a = total(sizes.take(m)) as int;
        let b = sizes[m] as int;
        let c = total_from(sizes, m + 1) as int;
        assert(total(sizes.take(m + 1)) == a * b);
        assert(total_from(sizes, m) == b * c);
        assert((a * b) * c == a * (b * c)) by (nonlinear_arith);
    }
}

/// The rank of a choice whose entries from `m` on are zero.
proof fn rank_of_zeros(sizes: Seq<nat>, picks: Seq<nat>, m: int)
    requires
        picks.len() == sizes.len(),
        0 <= m <= sizes.len(),
        forall|i: int| m <= i < sizes.len() ==> #[trigger] picks[i] == 0,
    ensures
        rank(sizes, picks) == rank(sizes.take(m), picks.take(m)) * total_from(sizes, m),
    decreases sizes.len() - m,
{
    if m == sizes.len() {
        assert(sizes.take(m) =~= sizes);
        assert(picks.take(m) =~= picks);
        vstd::arithmetic::mul::lemma_mul_basics(rank(sizes, picks) as int);
    } else {
        rank_of_zeros(sizes, picks, m + 1);
        assert(sizes.take(m + 1).drop_last() =~= sizes.take(m));
        assert(picks.take(m + 1).drop_last() =~= picks.take(m));
        let a = rank(sizes.take(m), picks.take(m)) as int;
        let b = sizes[m] as int;
        let c = total_from(sizes, m + 1) as int;
        assert(picks[m] == 0);
        assert(rank(sizes.take(m + 1), picks.take(m + 1)) == a * b);
        assert(total_from(sizes, m) == b * c);
        assert((a * b) * c == a * (b * c)) by (nonlinear_arith);
    }
}

/// The rank of a choice determines it.
proof fn choice_of_rank(sizes: Seq<nat>, picks: Seq<nat>)
    requires
        is_choice(sizes, picks),
    ensures
        choice(sizes, rank(sizes, picks)) == picks,
        rank(sizes, picks) < total(sizes),
    decreases sizes.len(),
{
    if sizes.len() == 0 {
        assert(picks =~= seq![]);
    } else {
        let s = sizes.last();
        let d = picks.last();
        let init = sizes.drop_last();
        assert(picks[sizes.len() - 1] < sizes[sizes.len() - 1]);
        assert forall|i: int| 0 <= i < init.len() implies #[trigger] picks.drop_last()[i]
            < init[i] by {
            assert(picks[i] < sizes[i]);
        }
        choice_of_rank(init, picks.drop_last());
        let v = rank(init, picks.drop_last());
        let k = v * s + d;
        vstd::arithmetic::div_mod::lemma_fundamental_div_mod_converse(
            k as int,
            s as int,
            v as int,
            d as int,
        );
        assert(picks.drop_last().push(d) =~= picks);
        let t = total(init) as int;
        assert(v * s + d < t * s) by (nonlinear_arith)
            requires
                v + 1 <= t,
                d < s,
                0 <= v,
        ;
    }
}

/// A choice is one for every number below the total.
proof fn rank_of_choice(sizes: Seq<nat>, k: nat)
    requires
        k < total(sizes),
    ensures
        is_choice(sizes, choice(sizes, k)),
        rank(sizes, choice(sizes, k)) == k,
    decreases sizes.len(),
{
    if sizes.len() > 0 {
        let s = sizes.last();
        let init = sizes.drop_last();
        let t = total(init);
        assert(s > 0) by (nonlinear_arith)
            requires
                k < t * s,
        ;
        assert(k / s < t) by (nonlinear_arith)
            requires
                k < t * s,
                s > 0,
        ;
        rank_of_choice(init, k / s);
        let picks = choice(sizes, k);
        assert(picks.drop_last() =~= choice(init, k / s));
        assert forall|i: int| 0 <= i < sizes.len() implies #[trigger] picks[i] < sizes[i] by {
            if i < init.len() {
                assert(choice(init, k / s)[i] < init[i]);
            }
        }
        assert((k / s) * s + k % s == k) by (nonlinear_arith)
            requires
                s > 0,
        ;
    }
}

/// Advances a choice to the next one. Returns whether there was one.
fn advance(dims: &Vec<Dim>, picks: &mut Vec<usize>, Ghost(k): Ghost<nat>) -> (r: bool)
    requires
        is_choice(sizes(dims@), nats(old(picks)@)),
        k == rank(sizes(dims@), nats(old(picks)@)),
    ensures
        r ==> is_choice(sizes(dims@), nats(final(picks)@)) && rank(
            sizes(dims@),
            nats(final(picks)@),
        ) == k + 1,
        !r ==> k + 1 == total(sizes(dims@)),
{
    let ghost all = sizes(dims@);
    let mut m: usize = dims.len();
    assert(all.take(m as int) =~= all);
    assert(nats(picks@).take(m as int) =~= nats(picks@));
    assert((k + 1) * 1 == k + 1);
    while m > 0
        invariant
            m <= dims@.len(),
            all == sizes(dims@),
            is_choice(all, nats(picks@)),
            forall|i: int| m <= i < picks@.len() ==> #[trigger] nats(picks@)[i] == 0,
            k + 1 == (rank(all.take(m as int), nats(picks@).take(m as int)) + 1) * total_from(
                all,
                m as int,
            ),
        decreases m,
    {
        let pos: usize = m - 1;
        let ghost before = nats(picks@);
        let ghost head_rank = rank(all.take(m as int), before.take(m as int));
        assert(before[pos as int] < all[pos as int]);
        assert(all.take(m as int).drop_last() =~= all.take(pos as int));
        assert(before.take(m as int).drop_last() =~= before.take(pos as int));
        let size: usize = dims[pos].sets.len();
        let next: usize = picks[pos] + 1;
        if next < size {
            picks.set(pos, next);
            let ghost after = nats(picks@);
            proof {
                assert forall|i: int| 0 <= i < all.len() implies #[trigger] after[i] < all[i] by {
                    assert(before[i] < all[i]);
                }
                assert forall|i: int| m <= i < all.len() implies #[trigger] after[i] == 0 by {
                    assert(before[i] == 0);
                }
                rank_of_zeros(all, after, m as int);
                assert(after.take(m as int).drop_last() =~= before.take(pos as int));
                assert(rank(all.take(m as int), after.take(m as int)) == head_rank + 1);
            }
            return true;
        }
        picks.set(pos, 0);
        let ghost after = nats(picks@);
        proof {
            assert forall|i: int| 0 <= i < all.len() implies #[trigger] after[i] < all[i] by {
                assert(before[i] < all[i]);
            }
            assert forall|i: int| pos <= i < all.len() implies #[trigger] after[i] == 0 by {
                if i > pos {
                    assert(before[i] == 0);
                }
            }
            assert(after.take(pos as int) =~= before.take(pos as int));
            let v = rank(all.take(pos as int), before.take(pos as int)) as int;
            let s = all[pos as int] as int;
            let c = total_from(all, m as int) as int;
            assert(head_rank + 1 == (v + 1) * s) by (nonlinear_arith)
                requires
                    head_rank == v * s + (s - 1),
            ;
            assert(((v + 1) * s) * c == (v + 1) * (s * c)) by (nonlinear_arith);
        }
        m = pos;
    }
    proof {
        total_splits(all, 0);
        assert(total(all.take(0)) == 1);
        assert(rank(all.take(0), nats(picks@).take(0)) == 0);
        let c = total_from(all, 0);
        assert((0 + 1) * c == c && 1 * c == c) by (nonlinear_arith);
    }
    false
}

/// Expands stacked parametrize marks into the product of their value sets.
/// Marks come in the order of `pytestmark`; ids join in that order and later
/// marks vary fastest. Without a mark there is one test without an id; over a
/// mark without value sets there is none.
pub fn expand_parametrize(dims: &Vec<Dim>) -> (r: Vec<ParamVariant>)
    ensures
        r@.len() == total(sizes(dims@)),
        dims@.len() == 0 ==> r@[0].id is None && r@[0].params@.len() == 0
            && r@[0].extra_marks@.len() == 0,
        dims@.len() > 0 ==> forall|k: int|
            0 <= k < r@.len() ==> is_variant(
                dims@,
                choice(sizes(dims@), k as nat),
                #[trigger] r@[k],
            ),
{
    let mut r: Vec<ParamVariant> = Vec::new();
    if dims.len() == 0 {
        r.push(ParamVariant { id: None, params: Vec::new(), extra_marks: Vec::new() });
        return r;
    }
    let ghost all = sizes(dims@);
    let mut picks: Vec<usize> = Vec::new();
    while picks.len() < dims.len()
        invariant
            all == sizes(dims@),
            dims@.len() > 0,
            r@.len() == 0,
            picks@.len() <= dims@.len(),
            forall|i: int| 0 <= i < picks@.len() ==> #[trigger] picks@[i] == 0,
            forall|i: int| 0 <= i < picks@.len() ==> #[trigger] dims@[i].sets@.len() > 0,
        decreases dims@.len() - picks@.len(),
    {
        let at: usize = picks.len();
        if dims[at].sets.len() == 0 {
            proof {
                empty_mark_gives_no_tests(all, at as int);
            }
            return r;
        }
        picks.push(0);
    }
    proof {
        let zeros = nats(picks@);
        assert forall|i: int| 0 <= i < all.len() implies #[trigger] zeros[i] < all[i] by {
            assert(dims@[i].sets@.len() > 0);
        }
        rank_of_zeros(all, zeros, 0);
        assert(rank(all.take(0), zeros.take(0)) == 0);
        let c = total_from(all, 0);
        assert(0 * c == 0) by (nonlinear_arith);
    }
    loop
        invariant
            all == sizes(dims@),
            dims@.len() > 0,
            is_choice(all, nats(picks@)),
            rank(all, nats(picks@)) == r@.len(),
            forall|k: int|
                0 <= k < r@.len() ==> is_variant(dims@, choice(all, k as nat), #[trigger] r@[k]),
        decreases total(all) - r@.len(),
    {
        let ghost k = r@.len();
        proof {
            choice_of_rank(all, nats(picks@));
        }
        let variant = variant_at(dims, &picks);
        r.push(variant);
        if !advance(dims, &mut picks, Ghost(k)) {
            return r;
        }
        proof {
            choice_of_rank(all, nats(picks@));
        }
    }
}

// ---------------------------------------------------------------------------
// Laws
// ---------------------------------------------------------------------------

/// The expansion is the whole product: every choice of one set per mark comes
/// up, and just once.
pub proof fn every_choice_once(sizes: Seq<nat>, picks: Seq<nat>)
    requires
        is_choice(sizes, picks),
    ensures
        rank(sizes, picks) < total(sizes),
        choice(sizes, rank(sizes, picks)) == picks,
        forall|k: nat| #![trigger choice(sizes, k)]
            k < total(sizes) && choice(sizes, k) == picks ==> k == rank(sizes, picks),
{
    choice_of_rank(sizes, picks);
    assert forall|k: nat| #![trigger choice(sizes, k)]
        k < total(sizes) && choice(sizes, k) == picks implies k == rank(sizes, picks) by {
        rank_of_choice(sizes, k);
    }
}

/// A mark without value sets leaves no test.
pub proof fn empty_mark_gives_no_tests(sizes: Seq<nat>, i: int)
    requires
        0 <= i < sizes.len(),
        sizes[i] == 0,
    ensures
        total(sizes) == 0,
    decreases sizes.len(),
{
    let t = total(sizes.drop_last()) as int;
    let s = sizes.last() as int;
    if i == sizes.len() - 1 {
        assert(t * s == 0) by (nonlinear_arith)
            requires
                s == 0,
        ;
    } else {
        empty_mark_gives_no_tests(sizes.drop_last(), i);
        assert(t * s == 0) by (nonlinear_arith)
            requires
                t == 0,
        ;
    }
}

/// Later marks vary fastest: two variants that differ by one have the same
/// sets of all marks but the last, unless the last mark starts over.
pub proof fn last_mark_varies_fastest(sizes: Seq<nat>, k: nat)
    requires
        sizes.len() > 0,
        k + 1 < total(sizes),
        choice(sizes, k).last() + 1 < sizes.last(),
    ensures
        choice(sizes, k + 1).drop_last() == choice(sizes, k).drop_last(),
        choice(sizes, k + 1).last() == choice(sizes, k).last() + 1,
{
    let s = sizes.last();
    let q = k / s;
    let d = k % s;
    assert(choice(sizes, k).last() == d);
    assert(k == q * s + d) by (nonlinear_arith)
        requires
            q == k / s,
            d == k % s,
            s > 0,
    ;
    vstd::arithmetic::div_mod::lemma_fundamental_div_mod_converse(
        (k + 1) as int,
        s as int,
        q as int,
        (d + 1) as int,
    );
    assert(choice(sizes, k).drop_last() =~= choice(sizes.drop_last(), q));
    assert(choice(sizes, k + 1).drop_last() =~= choice(sizes.drop_last(), q));
}

/// A variant under one more mark is a variant of the marks before it, joined
/// with one set of that mark: the parameters, the marks and the ids of both
/// follow each other, and the sets of the added mark take turns fastest.
pub proof fn one_more_mark_extends_each_variant(
    dims: Seq<Dim>,
    last: Dim,
    k: nat,
    v: ParamVariant,
    shorter: ParamVariant,
)
    requires
        k < total(sizes(dims.push(last))),
        is_variant(dims.push(last), choice(sizes(dims.push(last)), k), v),
        is_variant(dims, choice(sizes(dims), k / last.sets@.len()), shorter),
    ensures
        last.sets@.len() > 0,
        ({
            let set = last.sets@[(k % last.sets@.len()) as int];
            &&& v.params@ == shorter.params@ + set.params@
            &&& v.extra_marks@ == shorter.extra_marks@ + set.marks@
            &&& v.id is Some && shorter.id is Some
            &&& dims.len() == 0 ==> v.id->0@ == set.id@
            &&& dims.len() > 0 ==> v.id->0@ == shorter.id->0@ + "-"@ + set.id@
        }),
{
    let all = dims.push(last);
    let picks = choice(sizes(all), k);
    let s = last.sets@.len();
    let before = choice(sizes(dims), k / s);
    assert(sizes(all).drop_last() =~= sizes(dims));
    assert(sizes(all).last() == s);
    rank_of_choice(sizes(all), k);
    assert(picks == before.push(k % s));
    assert(picks[dims.len() as int] < sizes(all)[dims.len() as int]);
    chosen_of_fewer(all, dims, picks, before, dims.len() as int);
    let ids = chosen_ids(all, picks);
    assert(before.len() == dims.len());
    assert(ids.drop_last() =~= chosen_ids(dims, before));
    assert(ids.last() == last.sets@[(k % s) as int].id@);
    joined_push(chosen_ids(dims, before), last.sets@[(k % s) as int].id@, "-"@);
    assert(ids =~= chosen_ids(dims, before).push(last.sets@[(k % s) as int].id@));
}

proof fn chosen_of_fewer(
    all: Seq<Dim>,
    dims: Seq<Dim>,
    picks: Seq<nat>,
    before: Seq<nat>,
    n: int,
)
    requires
        0 <= n <= dims.len(),
        dims.len() < all.len(),
        forall|i: int| 0 <= i < n ==> all[i] == #[trigger] dims[i] && picks[i] == before[i],
    ensures
        chosen_params(all, picks, n) == chosen_params(dims, before, n),
        chosen_marks(all, picks, n) == chosen_marks(dims, before, n),
    decreases n,
{
    if n > 0 {
        chosen_of_fewer(all, dims, picks, before, n - 1);
        assert(all[n - 1] == dims[n - 1]);
    }
}

/// The number of marks that the chosen sets of the first `n` marks carry.
pub open spec fn marks_carried(dims: Seq<Dim>, picks: Seq<nat>, n: int) -> nat
    decreases n,
{
    if n <= 0 {
        0
    } else {
        marks_carried(dims, picks, n - 1) + dims[n - 1].sets@[picks[n - 1] as int].marks@.len()
    }
}

/// The number of parameters that the chosen sets of the first `n` marks have.
pub open spec fn params_carried(dims: Seq<Dim>, picks: Seq<nat>, n: int) -> nat
    decreases n,
{
    if n <= 0 {
        0
    } else {
        params_carried(dims, picks, n - 1) + dims[n - 1].sets@[picks[n - 1] as int].params@.len()
    }
}

/// No mark and no parameter of a chosen set is lost, and nothing is added: a
/// variant has all marks and parameters of the set that is chosen of each mark,
/// and as many of them as the chosen sets have together.
pub proof fn variants_keep_marks_and_params(
    dims: Seq<Dim>,
    picks: Seq<nat>,
    v: ParamVariant,
    d: int,
)
    requires
        is_choice(sizes(dims), picks),
        is_variant(dims, picks, v),
        0 <= d < dims.len(),
    ensures
        forall|j: int|
            0 <= j < dims[d].sets@[picks[d] as int].marks@.len() ==> v.extra_marks@.contains(
                #[trigger] dims[d].sets@[picks[d] as int].marks@[j],
            ),
        forall|j: int|
            0 <= j < dims[d].sets@[picks[d] as int].params@.len() ==> v.params@.contains(
                #[trigger] dims[d].sets@[picks[d] as int].params@[j],
            ),
        v.extra_marks@.len() == marks_carried(dims, picks, dims.len() as int),
        v.params@.len() == params_carried(dims, picks, dims.len() as int),
{
    chosen_are_kept(dims, picks, dims.len() as int, d);
}

proof fn chosen_are_kept(dims: Seq<Dim>, picks: Seq<nat>, n: int, d: int)
    requires
        0 <= n <= dims.len(),
    ensures
        0 <= d < n ==> forall|j: int|
            0 <= j < dims[d].sets@[picks[d] as int].marks@.len() ==> chosen_marks(
                dims,
                picks,
                n,
            ).contains(#[trigger] dims[d].sets@[picks[d] as int].marks@[j]),
        0 <= d < n ==> forall|j: int|
            0 <= j < dims[d].sets@[picks[d] as int].params@.len() ==> chosen_params(
                dims,
                picks,
                n,
            ).contains(#[trigger] dims[d].sets@[picks[d] as int].params@[j]),
        chosen_marks(dims, picks, n).len() == marks_carried(dims, picks, n),
        chosen_params(dims, picks, n).len() == params_carried(dims, picks, n),
    decreases n,
{
    if n > 0 {
        chosen_are_kept(dims, picks, n - 1, d);
        if 0 <= d < n {
            let marks = dims[d].sets@[picks[d] as int].marks@;
            let params = dims[d].sets@[picks[d] as int].params@;
            let m0 = chosen_marks(dims, picks, n - 1);
            let p0 = chosen_params(dims, picks, n - 1);
            let m1 = chosen_marks(dims, picks, n);
            let p1 = chosen_params(dims, picks, n);
            assert forall|j: int| 0 <= j < marks.len() implies m1.contains(#[trigger] marks[j]) by {
                if d == n - 1 {
                    assert(m1[m0.len() + j] == marks[j]);
                } else {
                    let at = choose|at: int| 0 <= at < m0.len() && m0[at] == marks[j];
                    assert(m1[at] == marks[j]);
                }
            }
            assert forall|j: int| 0 <= j < params.len() implies p1.contains(
                #[trigger] params[j],
            ) by {
                if d == n - 1 {
                    assert(p1[p0.len() + j] == params[j]);
                } else {
                    let at = choose|at: int| 0 <= at < p0.len() && p0[at] == params[j];
                    assert(p1[at] == params[j]);
                }
            }
        }
    }
}

/// With one mark there is one variant per set, in order, and each is its set.
pub proof fn one_mark_gives_its_sets(dims: Seq<Dim>, k: nat, v: ParamVariant)
    requires
        dims.len() == 1,
        k < total(sizes(dims)),
        is_variant(dims, choice(sizes(dims), k), v),
    ensures
        total(sizes(dims)) == dims[0].sets@.len(),
        v.id is Some && v.id->0@ == dims[0].sets@[k as int].id@,
        v.params@ == dims[0].sets@[k as int].params@,
        v.extra_marks@ == dims[0].sets@[k as int].marks@,
{
    let s = sizes(dims);
    let n = dims[0].sets@.len();
    assert(s.drop_last() =~= seq![]);
    assert(total(s.drop_last()) == 1);
    assert(1 * n == n) by (nonlinear_arith);
    vstd::arithmetic::div_mod::lemma_small_mod(k, n);
    let picks = choice(s, k);
    assert(s.last() == n);
    assert(choice(s.drop_last(), k / n).len() == 0);
    assert(picks =~= seq![k]);
    assert(chosen_params(dims, picks, 0) =~= seq![]);
    assert(chosen_marks(dims, picks, 0) =~= seq![]);
    assert(chosen_params(dims, picks, 1) =~= dims[0].sets@[k as int].params@);
    assert(chosen_marks(dims, picks, 1) =~= dims[0].sets@[k as int].marks@);
    let ids = chosen_ids(dims, picks);
    assert(ids =~= Seq::<Seq<char>>::empty().push(dims[0].sets@[k as int].id@));
    joined_push(Seq::empty(), dims[0].sets@[k as int].id@, "-"@);
}

/// The number of tests is the product of the numbers of sets: one more mark
/// multiplies it by the number of its sets, and without a mark there is one.
pub proof fn each_mark_multiplies(dims: Seq<Dim>, last: Dim)
    ensures
        total(sizes(Seq::<Dim>::empty())) == 1,
        total(sizes(dims.push(last))) == total(sizes(dims)) * last.sets@.len(),
{
    assert(sizes(Seq::<Dim>::empty()) =~= seq![]);
    assert(sizes(dims.push(last)).drop_last() =~= sizes(dims));
}

/// What a set of a mark is turned into: each argument name with the value at
/// its place, the marks of the set, and an id: that of `pytest.param`, else the
/// one that the mark lists at this place, else one made of the values.
pub proof fn sets_are_made_ready(
    argnames: Seq<String>,
    set: ValueSet,
    ids: Option<Vec<Option<String>>>,
    index: int,
    out: ParamSet,
)
    requires
        0 <= index,
        set.values@.len() == argnames.len(),
        set_ready(argnames, set, ids, index, out),
    ensures
        out.params@.len() == argnames.len(),
        forall|i: int|
            0 <= i < argnames.len() ==> (#[trigger] out.params@[i]).0 == argnames[i]
                && out.params@[i].1 == set.values@[i].obj,
        out.marks@ == set.marks@,
        set.id is Some ==> out.id@ == set.id->0@,
        set.id is None && ids is Some && index < ids->0@.len() && ids->0@[index] is Some ==> out.id@
            == ids->0@[index]->0@,
        set.id is None && (ids is None || index >= ids->0@.len() || ids->0@[index] is None)
            && argnames.len() == 1 ==> (match set.values@[0].kind {
            ValueKind::Nothing => out.id@ == "None"@,
            ValueKind::Bool(true) => out.id@ == "True"@,
            ValueKind::Bool(false) => out.id@ == "False"@,
            ValueKind::Text(text) => out.id@ == text@,
            ValueKind::Number(Some(repr)) => out.id@ == repr@,
            ValueKind::Number(None) => out.id@ == argnames[0]@ + decimal_of(index as nat),
            ValueKind::Other => out.id@ == argnames[0]@ + decimal_of(index as nat),
        }),
{
    if argnames.len() == 1 {
        let parts = value_ids(argnames, set.values@, index as nat);
        assert(parts =~= Seq::<Seq<char>>::empty().push(parts[0]));
        joined_push(Seq::empty(), parts[0], "-"@);
    }
}

/// The id that several values make has the ids of the values, with `-` between
/// them: one more argument adds the id of its value.
pub proof fn value_ids_follow_each_other(
    argnames: Seq<String>,
    values: Seq<ParamValue>,
    name: String,
    value: ParamValue,
    index: nat,
)
    requires
        argnames.len() == values.len(),
        argnames.len() > 0,
    ensures
        joined(value_ids(argnames.push(name), values.push(value), index), "-"@) == joined(
            value_ids(argnames, values, index),
            "-"@,
        ) + "-"@ + value_id(value.kind, name@, index),
{
    let before = value_ids(argnames, values, index);
    let last = value_id(value.kind, name@, index);
    joined_push(before, last, "-"@);
    assert(value_ids(argnames.push(name), values.push(value), index) =~= before.push(last));
}

/// The sets are refused just where one of them has not one value per argument,
/// and the first such set is the one that is spoken of.
pub proof fn first_bad_set_is_named(sets: Seq<ValueSet>, names: nat)
    ensures
        first_mismatch(sets, names, 0) is None <==> forall|i: int|
            0 <= i < sets.len() ==> (#[trigger] sets[i]).values@.len() == names,
        first_mismatch(sets, names, 0) matches Some(i) ==> 0 <= i < sets.len()
            && sets[i].values@.len() != names && forall|j: int|
            0 <= j < i ==> (#[trigger] sets[j]).values@.len() == names,
{
    first_mismatch_facts(sets, names, 0);
}

proof fn first_mismatch_facts(sets: Seq<ValueSet>, names: nat, from: int)
    requires
        0 <= from,
    ensures
        first_mismatch(sets, names, from) is None <==> forall|i: int|
            from <= i < sets.len() ==> (#[trigger] sets[i]).values@.len() == names,
        first_mismatch(sets, names, from) matches Some(i) ==> from <= i < sets.len()
            && sets[i].values@.len() != names && forall|j: int|
            from <= j < i ==> (#[trigger] sets[j]).values@.len() == names,
    decreases sets.len() - from,
{
    if from < sets.len() && sets[from].values@.len() == names {
        first_mismatch_facts(sets, names, from + 1);
    }
}

/// The message counts the names and the values.
pub proof fn mismatch_is_counted(names: nat, values: nat)
    ensures
        mismatch_message(names, values) == "parametrize: "@ + decimal_of(names) + " argnames but "@
            + decimal_of(values) + " values"@,
{
}

/// Every mark named `parametrize` is used, no other is, and they keep their
/// order.
pub proof fn all_parametrize_marks_are_used(marks: Seq<MarkData>, n: int)
    requires
        0 <= n <= marks.len() <= usize::MAX,
    ensures
        forall|i: usize| #[trigger]
            parametrizing(marks, n).contains(i) <==> i < n && marks[i as int].name@
                == "parametrize"@,
        forall|a: int, b: int|
            0 <= a < b < parametrizing(marks, n).len() ==> #[trigger] parametrizing(marks, n)[a]
                < #[trigger] parametrizing(marks, n)[b],
    decreases n,
{
    if n > 0 {
        all_parametrize_marks_are_used(marks, n - 1);
        let before = parametrizing(marks, n - 1);
        let all = parametrizing(marks, n);
        if marks[n - 1].name@ == "parametrize"@ {
            assert forall|i: usize| #[trigger] all.contains(i) <==> i < n && marks[i as int].name@
                == "parametrize"@ by {
                if all.contains(i) {
                    let at = choose|at: int| 0 <= at < all.len() && all[at] == i;
                    if at < before.len() {
                        assert(before[at] == i);
                        assert(before.contains(i));
                    }
                }
                if i < n && marks[i as int].name@ == "parametrize"@ {
                    if i == n - 1 {
                        assert(all[before.len() as int] == i);
                    } else {
                        assert(before.contains(i));
                        let at = choose|at: int| 0 <= at < before.len() && before[at] == i;
                        assert(all[at] == i);
                    }
                }
            }
            assert forall|a: int, b: int| 0 <= a < b < all.len() implies #[trigger] all[a]
                < #[trigger] all[b] by {
                assert(before.contains(before[a]));
                if b < before.len() {
                    assert(before[a] < before[b]);
                }
            }
        }
    }
}

} // verus!
