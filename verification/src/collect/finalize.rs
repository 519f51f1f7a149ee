//! The last steps of collection: the fixture names of each item, and the items
//! that the arguments of the command line select.

use vstd::prelude::*;

use crate::fixture::{closure_follows_parameters, closure_of, gets, names_at, FixtureRegistry};
use crate::item::TestItem;
use crate::lists::{
    append_texts, chosen, chosen_keeps_order, copy_texts, has_text, partition, texts_prefix,
};
use crate::nodeid::{last_part, last_part_of};
use crate::sorting::ints;
use crate::text::{contains, halves, occurs, same, split_once, starts_with, strip_prefix, texts, texts_push};

verus! {

/// What an argument of the command line selects.
pub enum ArgSel {
    /// The items of a file, or below a directory.
    Path(Vec<String>),
    /// The items with this nodeid, or below it.
    NodeId(String),
}

/// Where an argument of the command line leads.
pub struct ArgPlace {
    /// The path of its file part.
    pub path: Vec<String>,
    /// The nodeid of that file.
    pub nodeid: String,
}

// ---------------------------------------------------------------------------
// Model
// ---------------------------------------------------------------------------

/// The names of the direct parameters of an item.
pub open spec fn param_names(item: TestItem) -> Seq<Seq<char>> {
    Seq::new(item.callspec@.len(), |i: int| item.callspec@[i].0@)
}

/// The fixture closure of an item.
pub open spec fn item_closure_of(registry: FixtureRegistry, item: TestItem) -> Seq<int> {
    closure_of(
        registry@,
        item.nodeid@,
        texts(item.fixture_names@) + texts(item.extra_fixture_names@),
        param_names(item),
    )
}

/// `extra` followed by the names of `closure` that neither it nor `own` has.
pub open spec fn extra_with(
    own: Seq<Seq<char>>,
    extra: Seq<Seq<char>>,
    closure: Seq<Seq<char>>,
) -> Seq<Seq<char>>
    decreases closure.len(),
{
    if closure.len() == 0 {
        extra
    } else {
        let before = extra_with(own, extra, closure.drop_last());
        if own.contains(closure.last()) || before.contains(closure.last()) {
            before
        } else {
            before.push(closure.last())
        }
    }
}

/// What an argument selects.
pub open spec fn sel_of(arg: Seq<char>, place: ArgPlace, sel: ArgSel) -> bool {
    match halves(arg, "::"@) {
        Some((file, rest)) => sel matches ArgSel::NodeId(s) && s@ == place.nodeid@ + "::"@ + rest,
        None => sel matches ArgSel::Path(p) && texts(p@) == texts(place.path@),
    }
}

/// `nodeid` is `sel`, a parameter set of it, or something inside it.
pub open spec fn nodeid_selected(nodeid: Seq<char>, sel: Seq<char>) -> bool {
    nodeid == sel || (sel.is_prefix_of(nodeid) && {
        let rest = nodeid.skip(sel.len() as int);
        "["@.is_prefix_of(rest) || "::"@.is_prefix_of(rest)
    })
}

/// An argument selects an item.
pub open spec fn picks(sel: ArgSel, item: TestItem) -> bool {
    match sel {
        ArgSel::Path(p) => texts(p@).is_prefix_of(texts(item.path@)),
        ArgSel::NodeId(s) => nodeid_selected(item.nodeid@, s@),
    }
}

/// Some argument selects an item.
pub open spec fn picked(sels: Seq<ArgSel>, item: TestItem) -> bool {
    exists|i: int| 0 <= i < sels.len() && picks(#[trigger] sels[i], item)
}

/// Which items some argument selects.
pub open spec fn picked_marks(sels: Seq<ArgSel>, items: Seq<TestItem>) -> Seq<bool> {
    Seq::new(items.len(), |i: int| picked(sels, items[i]))
}

/// No item has the nodeid that an argument asks for.
pub open spec fn is_missing(sel: ArgSel, items: Seq<TestItem>) -> bool {
    sel matches ArgSel::NodeId(s) && forall|i: int|
        0 <= i < items.len() ==> !nodeid_selected((#[trigger] items[i]).nodeid@, s@)
}

/// What is said of the first `n` arguments whose nodeid no item has.
pub open spec fn missing_texts(sels: Seq<ArgSel>, items: Seq<TestItem>, n: int) -> Seq<Seq<char>>
    decreases n,
{
    if n <= 0 {
        seq![]
    } else {
        let before = missing_texts(sels, items, n - 1);
        if is_missing(sels[n - 1], items) {
            before.push("ERROR: not found: "@ + sels[n - 1]->NodeId_0@)
        } else {
            before
        }
    }
}

/// Some argument is a nodeid.
pub open spec fn any_nodeid(args: Seq<Seq<char>>) -> bool {
    exists|i: int| 0 <= i < args.len() && occurs(#[trigger] args[i], "::"@)
}

// ---------------------------------------------------------------------------
// Executable functions
// ---------------------------------------------------------------------------

fn direct_params(item: &TestItem) -> (r: Vec<String>)
    ensures
        texts(r@) == param_names(*item),
{
    let n: usize = item.callspec.len();
    let mut r: Vec<String> = Vec::new();
    let mut i: usize = 0;
    while i < n
        invariant
            n == item.callspec@.len(),
            i <= n,
            r@.len() == i,
            forall|k: int| 0 <= k < i ==> #[trigger] r@[k]@ == item.callspec@[k].0@,
        decreases n - i,
    {
        r.push(item.callspec[i].0.clone());
        i += 1;
    }
    assert(texts(r@) =~= param_names(*item));
    r
}

/// The fixture closure of an item, by the positions of the definitions. A
/// direct parameter hides the fixture of its name.
pub fn item_closure(registry: &FixtureRegistry, item: &TestItem) -> (r: Vec<usize>)
    ensures
        ints(r@) == item_closure_of(*registry, *item),
        forall|i: int| 0 <= i < r@.len() ==> #[trigger] r@[i] < registry@.len(),
{
    let mut direct: Vec<String> = copy_texts(item.fixture_names.as_slice());
    append_texts(&mut direct, item.extra_fixture_names.as_slice());
    assert(texts(direct@) =~= texts(item.fixture_names@) + texts(item.extra_fixture_names@));
    let ignore = direct_params(item);
    registry.closure_ignoring(item.nodeid.as_str(), direct.as_slice(), ignore.as_slice())
}

/// The name of an item in a list of fixtures: the last part of its nodeid.
pub fn item_name(nodeid: &str) -> (r: String)
    ensures
        r@ == last_part_of(nodeid@),
{
    last_part(nodeid)
}

/// Records the whole fixture closure of an item: the names that it does not
/// have yet become extra fixture names.
pub fn record_closure(registry: &FixtureRegistry, item: &mut TestItem)
    ensures
        *final(item) == (TestItem {
            extra_fixture_names: final(item).extra_fixture_names,
            ..*old(item)
        }),
        ({
            let own = texts(old(item).fixture_names@);
            let extra = texts(old(item).extra_fixture_names@);
            texts(final(item).extra_fixture_names@) == extra_with(
                own,
                extra,
                names_at(registry@, item_closure_of(*registry, *old(item))),
            )
        }),
{
    let ghost own = texts(item.fixture_names@);
    let ghost extra = texts(item.extra_fixture_names@);
    let closure = item_closure(registry, item);
    let n: usize = closure.len();
    let ghost names = names_at(registry@, item_closure_of(*registry, *item));
    let ghost start = *item;
    let mut i: usize = 0;
    assert(names.take(0) =~= seq![]);
    while i < n
        invariant
            n == closure@.len(),
            i <= n,
            names.len() == n,
            forall|k: int| 0 <= k < n ==> #[trigger] closure@[k] < registry@.len(),
            forall|k: int| 0 <= k < n ==> #[trigger] names[k] == registry@[closure@[k] as int].name@,
            own == texts(start.fixture_names@),
            *item == (TestItem { extra_fixture_names: item.extra_fixture_names, ..start }),
            texts(item.extra_fixture_names@) == extra_with(own, extra, names.take(i as int)),
        decreases n - i,
    {
        assert(names.take(i + 1).drop_last() =~= names.take(i as int));
        assert(names.take(i + 1).last() == names[i as int]);
        let name: String = registry.all_defs()[closure[i]].name.clone();
        if !has_text(item.fixture_names.as_slice(), name.as_str()) && !has_text(
            item.extra_fixture_names.as_slice(),
            name.as_str(),
        ) {
            proof {
                texts_push(item.extra_fixture_names@, name);
            }
            item.extra_fixture_names.push(name);
        }
        i += 1;
    }
    assert(names.take(n as int) =~= names);
}

/// Whether some argument is a nodeid, so that the arguments select items.
pub fn selects_items(args: &[String]) -> (r: bool)
    ensures
        r == any_nodeid(texts(args@)),
{
    let n: usize = args.len();
    let mut i: usize = 0;
    while i < n
        invariant
            n == args@.len(),
            i <= n,
            forall|k: int| 0 <= k < i ==> !occurs(#[trigger] texts(args@)[k], "::"@),
        decreases n - i,
    {
        assert(texts(args@)[i as int] == args@[i as int]@);
        if contains(args[i].as_str(), "::") {
            return true;
        }
        i += 1;
    }
    false
}

/// What an argument selects.
pub fn arg_sel(arg: &str, place: &ArgPlace) -> (r: ArgSel)
    ensures
        sel_of(arg@, *place, r),
{
    match split_once(arg, "::") {
        Some((_file, rest)) => {
            let mut nodeid: String = place.nodeid.clone();
            nodeid.append("::");
            nodeid.append(rest.as_str());
            ArgSel::NodeId(nodeid)
        },
        None => ArgSel::Path(copy_texts(place.path.as_slice())),
    }
}

fn selects_nodeid(nodeid: &str, sel: &str) -> (r: bool)
    ensures
        r == nodeid_selected(nodeid@, sel@),
{
    if same(nodeid, sel) {
        return true;
    }
    match strip_prefix(nodeid, sel) {
        Some(rest) => starts_with(rest.as_str(), "[") || starts_with(rest.as_str(), "::"),
        None => false,
    }
}

fn is_picked(sels: &[ArgSel], item: &TestItem) -> (r: bool)
    ensures
        r == picked(sels@, *item),
{
    let n: usize = sels.len();
    let mut i: usize = 0;
    while i < n
        invariant
            n == sels@.len(),
            i <= n,
            forall|k: int| 0 <= k < i ==> !picks(#[trigger] sels@[k], *item),
        decreases n - i,
    {
        let hit = match &sels[i] {
            ArgSel::Path(p) => texts_prefix(p.as_slice(), item.path.as_slice()),
            ArgSel::NodeId(s) => selects_nodeid(item.nodeid.as_str(), s.as_str()),
        };
        assert(hit == picks(sels@[i as int], *item));
        if hit {
            return true;
        }
        i += 1;
    }
    false
}

/// The items that the arguments select, in order.
pub fn select_by_args(items: Vec<TestItem>, sels: &[ArgSel]) -> (r: Vec<TestItem>)
    ensures
        r@ == chosen(items@, picked_marks(sels@, items@), true),
{
    let n: usize = items.len();
    let mut marks: Vec<bool> = Vec::new();
    let mut i: usize = 0;
    while i < n
        invariant
            n == items@.len(),
            i <= n,
            marks@.len() == i,
            forall|k: int| 0 <= k < i ==> #[trigger] marks@[k] == picked(sels@, items@[k]),
        decreases n - i,
    {
        marks.push(is_picked(sels, &items[i]));
        i += 1;
    }
    assert(marks@ =~= picked_marks(sels@, items@));
    let (kept, _rest) = partition(items, marks.as_slice());
    kept
}

fn matches_some(items: &[TestItem], sel: &str) -> (r: bool)
    ensures
        r == !(forall|i: int|
            0 <= i < items@.len() ==> !nodeid_selected((#[trigger] items@[i]).nodeid@, sel@)),
{
    let n: usize = items.len();
    let mut i: usize = 0;
    while i < n
        invariant
            n == items@.len(),
            i <= n,
            forall|k: int|
                0 <= k < i ==> !nodeid_selected((#[trigger] items@[k]).nodeid@, sel@),
        decreases n - i,
    {
        if selects_nodeid(items[i].nodeid.as_str(), sel) {
            assert(nodeid_selected(items@[i as int].nodeid@, sel@));
            return true;
        }
        i += 1;
    }
    false
}

/// What is said of the arguments whose nodeid no selected item has.
pub fn missing_args(sels: &[ArgSel], items: &[TestItem]) -> (r: Vec<String>)
    ensures
        texts(r@) == missing_texts(sels@, items@, sels@.len() as int),
{
    let n: usize = sels.len();
    let mut r: Vec<String> = Vec::new();
    assert(texts(r@) =~= seq![]);
    let mut i: usize = 0;
    while i < n
        invariant
            n == sels@.len(),
            i <= n,
            texts(r@) == missing_texts(sels@, items@, i as int),
        decreases n - i,
    {
        if let ArgSel::NodeId(s) = &sels[i] {
            if !matches_some(items, s.as_str()) {
                let mut line: String = "ERROR: not found: ".to_owned();
                line.append(s.as_str());
                proof {
                    texts_push(r@, line);
                }
                r.push(line);
            }
        }
        i += 1;
    }
    r
}

// ---------------------------------------------------------------------------
// Laws
// ---------------------------------------------------------------------------

/// An item lists its whole fixture closure: each name of it is one of its own
/// or one of the extra ones, and none that was there is lost.
pub proof fn closure_is_listed(
    own: Seq<Seq<char>>,
    extra: Seq<Seq<char>>,
    closure: Seq<Seq<char>>,
    name: Seq<char>,
)
    ensures
        closure.contains(name) || extra.contains(name) ==> own.contains(name) || extra_with(
            own,
            extra,
            closure,
        ).contains(name),
        extra_with(own, extra, closure).contains(name) ==> extra.contains(name)
            || closure.contains(name),
    decreases closure.len(),
{
    if closure.len() > 0 {
        closure_is_listed(own, extra, closure.drop_last(), name);
        let before = extra_with(own, extra, closure.drop_last());
        crate::lists::contains_split(closure, name);
        let after = extra_with(own, extra, closure);
        if after != before {
            crate::lists::contains_split(after, name);
            assert(after.drop_last() =~= before);
        }
    }
}

/// A selected item is selected by some argument, and every item that an
/// argument selects is selected.
pub proof fn selection_is_exact(items: Seq<TestItem>, sels: Seq<ArgSel>, item: TestItem)
    ensures
        chosen(items, picked_marks(sels, items), true).contains(item) <==> items.contains(item)
            && picked(sels, item),
{
    chosen_is_exact(items, items, sels, item);
}

proof fn chosen_is_exact(
    items: Seq<TestItem>,
    all: Seq<TestItem>,
    sels: Seq<ArgSel>,
    item: TestItem,
)
    requires
        items.is_prefix_of(all),
    ensures
        chosen(items, picked_marks(sels, all), true).contains(item) <==> items.contains(item)
            && picked(sels, item),
    decreases items.len(),
{
    if items.len() > 0 {
        chosen_is_exact(items.drop_last(), all, sels, item);
        crate::lists::contains_split(items, item);
        let marks = picked_marks(sels, all);
        assert(marks[items.len() - 1] == picked(sels, items.last()));
        let before = chosen(items.drop_last(), marks, true);
        let after = chosen(items, marks, true);
        if after != before {
            crate::lists::contains_split(after, item);
            assert(after.drop_last() =~= before);
        }
    }
}

/// A nodeid is selected by itself, by the test that it is a variant of, and by
/// what it lies in; nothing else selects it.
pub proof fn nodeids_select_what_is_below(sel: Seq<char>, nodeid: Seq<char>, rest: Seq<char>)
    ensures
        nodeid_selected(sel, sel),
        nodeid_selected(sel + "["@ + rest, sel),
        nodeid_selected(sel + "::"@ + rest, sel),
        nodeid_selected(nodeid, sel) && nodeid != sel ==> sel.len() < nodeid.len() && nodeid.take(
            sel.len() as int,
        ) == sel && (nodeid[sel.len() as int] == '[' || nodeid[sel.len() as int] == ':'),
{
    reveal_strlit("[");
    reveal_strlit("::");
    let a = sel + "["@ + rest;
    let b = sel + "::"@ + rest;
    assert(sel =~= a.subrange(0, sel.len() as int));
    assert(sel =~= b.subrange(0, sel.len() as int));
    assert("["@ =~= a.skip(sel.len() as int).subrange(0, 1));
    assert("::"@ =~= b.skip(sel.len() as int).subrange(0, 2));
    if nodeid_selected(nodeid, sel) && nodeid != sel {
        let tail = nodeid.skip(sel.len() as int);
        assert(nodeid.take(sel.len() as int) =~= sel);
        if "["@.is_prefix_of(tail) {
            assert(tail[0] == "["@[0]);
        } else {
            assert(tail[0] == "::"@[0]);
        }
    }
}

/// An argument with "::" selects by nodeid, one without by path: what lies below
/// the path is selected.
pub proof fn arguments_select(arg: Seq<char>, place: ArgPlace, sel: ArgSel, item: TestItem)
    requires
        sel_of(arg, place, sel),
    ensures
        occurs(arg, "::"@) ==> sel is NodeId && (picks(sel, item) <==> nodeid_selected(
            item.nodeid@,
            sel->NodeId_0@,
        )) && place.nodeid@.is_prefix_of(sel->NodeId_0@),
        !occurs(arg, "::"@) ==> (picks(sel, item) <==> place.path@.len() <= item.path@.len()
            && forall|i: int|
            0 <= i < place.path@.len() ==> (#[trigger] place.path@[i])@ == item.path@[i]@),
{
    if occurs(arg, "::"@) {
        let s = sel->NodeId_0@;
        assert(place.nodeid@ =~= s.subrange(0, place.nodeid@.len() as int));
    } else {
        let p = texts(place.path@);
        let q = texts(item.path@);
        if p.is_prefix_of(q) {
            assert forall|i: int| 0 <= i < place.path@.len() implies (#[trigger] place.path@[i])@
                == item.path@[i]@ by {
                assert(p[i] == q.subrange(0, p.len() as int)[i]);
            }
        }
        if place.path@.len() <= item.path@.len() && forall|i: int|
            0 <= i < place.path@.len() ==> (#[trigger] place.path@[i])@ == item.path@[i]@ {
            assert forall|i: int| 0 <= i < p.len() implies p[i] == q.subrange(
                0,
                p.len() as int,
            )[i] by {
                assert(place.path@[i]@ == item.path@[i]@);
            }
            assert(p =~= q.subrange(0, p.len() as int));
        }
    }
}

/// An item stays when one of the selections picks it; the rest go, and the order
/// is kept.
pub proof fn selections_add_up(items: Seq<TestItem>, sels: Seq<ArgSel>) -> (at: Seq<int>)
    ensures
        ({
            let kept = chosen(items, picked_marks(sels, items), true);
            &&& at.len() == kept.len()
            &&& forall|k: int|
                0 <= k < at.len() ==> 0 <= #[trigger] at[k] < items.len() && kept[k]
                    == items[at[k]] && exists|s: int|
                    0 <= s < sels.len() && picks(#[trigger] sels[s], items[at[k]])
            &&& forall|j: int, k: int| 0 <= j < k < at.len() ==> #[trigger] at[j] < #[trigger] at[k]
            &&& forall|i: int, s: int|
                0 <= i < items.len() && 0 <= s < sels.len() && picks(
                    #[trigger] sels[s],
                    #[trigger] items[i],
                ) ==> at.contains(i)
        }),
{
    let at = chosen_keeps_order(items, picked_marks(sels, items), true);
    assert forall|i: int, s: int|
        0 <= i < items.len() && 0 <= s < sels.len() && picks(
            #[trigger] sels[s],
            #[trigger] items[i],
        ) implies at.contains(i) by {
        assert(picked_marks(sels, items)[i]);
    }
    at
}

/// A text tells of one of the first `n` arguments that it names no item.
pub open spec fn told_for(
    sels: Seq<ArgSel>,
    items: Seq<TestItem>,
    n: int,
    text: Seq<char>,
) -> bool {
    exists|j: int|
        0 <= j < n && #[trigger] is_missing(sels[j], items) && text == "ERROR: not found: "@
            + sels[j]->NodeId_0@
}

/// An argument that names no item is told, every one of them and no other.
pub proof fn arguments_without_items_are_told(
    sels: Seq<ArgSel>,
    items: Seq<TestItem>,
    n: int,
    i: int,
)
    requires
        0 <= i < n <= sels.len(),
        sels[i] is NodeId,
    ensures
        (forall|k: int|
            0 <= k < items.len() ==> !nodeid_selected(
                (#[trigger] items[k]).nodeid@,
                sels[i]->NodeId_0@,
            )) ==> missing_texts(sels, items, n).contains(
            "ERROR: not found: "@ + sels[i]->NodeId_0@,
        ),
        missing_texts(sels, items, n).len() <= n,
        forall|m: int|
            0 <= m < missing_texts(sels, items, n).len() ==> told_for(
                sels,
                items,
                n,
                #[trigger] missing_texts(sels, items, n)[m],
            ),
    decreases n,
{
    let all = missing_texts(sels, items, n);
    let before = missing_texts(sels, items, n - 1);
    if i < n - 1 {
        arguments_without_items_are_told(sels, items, n - 1, i);
    } else {
        missing_have_arguments(sels, items, n - 1);
    }
    if forall|k: int|
        0 <= k < items.len() ==> !nodeid_selected(
            (#[trigger] items[k]).nodeid@,
            sels[i]->NodeId_0@,
        ) {
        let text = "ERROR: not found: "@ + sels[i]->NodeId_0@;
        assert(is_missing(sels[i], items));
        if i < n - 1 {
            let k = choose|k: int| 0 <= k < before.len() && before[k] == text;
            assert(all[k] == text);
        } else {
            assert(all[before.len() as int] == text);
        }
    }
    missing_have_arguments(sels, items, n);
}

proof fn missing_have_arguments(sels: Seq<ArgSel>, items: Seq<TestItem>, n: int)
    requires
        0 <= n <= sels.len(),
    ensures
        missing_texts(sels, items, n).len() <= n,
        forall|m: int|
            0 <= m < missing_texts(sels, items, n).len() ==> told_for(
                sels,
                items,
                n,
                #[trigger] missing_texts(sels, items, n)[m],
            ),
    decreases n,
{
    if n > 0 {
        missing_have_arguments(sels, items, n - 1);
        let all = missing_texts(sels, items, n);
        let before = missing_texts(sels, items, n - 1);
        assert forall|m: int| 0 <= m < all.len() implies told_for(
            sels,
            items,
            n,
            #[trigger] all[m],
        ) by {
            if m < before.len() {
                assert(all[m] == before[m]);
                let j = choose|j: int|
                    0 <= j < n - 1 && #[trigger] is_missing(sels[j], items) && before[m]
                        == "ERROR: not found: "@ + sels[j]->NodeId_0@;
                assert(is_missing(sels[j], items));
            } else {
                assert(is_missing(sels[n - 1], items));
            }
        }
    }
}

/// The closure of an item has the fixtures that its function and its marks name,
/// and all that these ask for; the fixture of a parametrized argument is not asked
/// for more.
pub proof fn items_get_what_they_name(
    registry: FixtureRegistry,
    item: TestItem,
    k: int,
    i: int,
    p: int,
    t: int,
)
    requires
        0 <= i < registry@.len(),
    ensures
        0 <= k < item.fixture_names@.len() && item.fixture_names@[k]@ != "request"@ && gets(
            registry@,
            item.fixture_names@[k]@,
            item.nodeid@,
            i,
        ) ==> item_closure_of(registry, item).contains(i),
        0 <= k < item.extra_fixture_names@.len() && item.extra_fixture_names@[k]@ != "request"@
            && gets(registry@, item.extra_fixture_names@[k]@, item.nodeid@, i) ==> item_closure_of(
            registry,
            item,
        ).contains(i),
        item_closure_of(registry, item).contains(i) && (forall|c: int|
            0 <= c < item.callspec@.len() ==> (#[trigger] item.callspec@[c]).0@
                != registry@[i].name@) && 0 <= p < registry@[i].param_names@.len()
            && registry@[i].param_names@[p]@ != "request"@ && gets(
            registry@,
            registry@[i].param_names@[p]@,
            item.nodeid@,
            t,
        ) ==> item_closure_of(registry, item).contains(t),
{
    let own = texts(item.fixture_names@);
    let extra = texts(item.extra_fixture_names@);
    let requested = own + extra;
    let ignore = param_names(item);
    let defs = registry@;
    closure_follows_parameters(defs, item.nodeid@, requested, ignore);
    if 0 <= k < item.fixture_names@.len() {
        assert(requested[k] == item.fixture_names@[k]@);
        assert(requested.contains(item.fixture_names@[k]@));
    }
    if 0 <= k < item.extra_fixture_names@.len() {
        assert(requested[own.len() + k] == item.extra_fixture_names@[k]@);
        assert(requested.contains(item.extra_fixture_names@[k]@));
    }
    if forall|c: int|
        0 <= c < item.callspec@.len() ==> (#[trigger] item.callspec@[c]).0@ != defs[i].name@ {
        if ignore.contains(defs[i].name@) {
            let c = choose|c: int| 0 <= c < ignore.len() && ignore[c] == defs[i].name@;
            assert(item.callspec@[c].0@ == defs[i].name@);
        }
    }
    if item_closure_of(registry, item).contains(i) && 0 <= p < defs[i].param_names@.len() {
        let x = defs[i].param_names@[p];
        assert(item_closure_of(registry, item) == closure_of(
            defs,
            item.nodeid@,
            requested,
            ignore,
        ));
    }
}

/// What an item is found to use is listed behind what it has: names that it asks for
/// itself are not listed, and none twice.
pub proof fn closures_are_recorded_once(
    own: Seq<Seq<char>>,
    extra: Seq<Seq<char>>,
    closure: Seq<Seq<char>>,
)
    requires
        extra.no_duplicates(),
        forall|i: int| 0 <= i < extra.len() ==> !own.contains(#[trigger] extra[i]),
    ensures
        extra.is_prefix_of(extra_with(own, extra, closure)),
        extra_with(own, extra, closure).no_duplicates(),
        forall|i: int|
            0 <= i < extra_with(own, extra, closure).len() ==> !own.contains(
                #[trigger] extra_with(own, extra, closure)[i],
            ),
    decreases closure.len(),
{
    if closure.len() == 0 {
        assert(extra =~= extra.subrange(0, extra.len() as int));
    } else {
        closures_are_recorded_once(own, extra, closure.drop_last());
        let before = extra_with(own, extra, closure.drop_last());
        let all = extra_with(own, extra, closure);
        assert(extra =~= all.subrange(0, extra.len() as int)) by {
            assert(extra =~= before.subrange(0, extra.len() as int));
        }
    }
}

} // verus!
