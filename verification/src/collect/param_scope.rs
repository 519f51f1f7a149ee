//! Parameter keys of items, and the order of items that groups them.

use vstd::prelude::*;

use crate::collect::reorder::{
    arranged, below, in_bounds, listed, reorder_items_atscope, reordering_keeps_every_item, slots,
    users, Slot,
};
use crate::fixture::Scope;
use crate::item::{SortKey, TestItem};
use crate::lists::{contains_split, take_next, takeable};
use crate::text::{
    halves, head, head_of, last_at, not_parted, outer_halves, parted_at_first, parted_at_last,
    parted_at_last_char, same, split_at_last, split_last, split_once,
};

verus! {

// ---------------------------------------------------------------------------
// Model
// ---------------------------------------------------------------------------

/// The file part of a nodeid.
pub open spec fn file_part(nodeid: Seq<char>) -> Seq<char> {
    head_of(nodeid, "::"@)
}

/// The part of a nodeid that a fixture value of this scope is shared within:
/// everything, the directory, the file, what stands before the last "::" (or
/// the file, outside a class), or the item alone. A parameter id, from the
/// first "[" behind the file on, names no class.
pub open spec fn boundary(nodeid: Seq<char>, scope: Scope) -> Seq<char> {
    match scope {
        Scope::Session => seq![],
        Scope::Package => match last_at(file_part(nodeid), '/') {
            Some(i) => file_part(nodeid).take(i),
            None => seq![],
        },
        Scope::Module => file_part(nodeid),
        Scope::Class => match halves(nodeid, "::"@) {
            Some((file, rest)) => match outer_halves(head_of(rest, "["@), "::"@) {
                Some((classes, _)) => file + "::"@ + classes,
                None => file,
            },
            None => nodeid,
        },
        Scope::Function => nodeid,
    }
}

/// The identity of a parameter value: items that share it share the fixture
/// set up for it.
pub struct ParamKey {
    pub scope: Scope,
    pub arg: String,
    pub index: usize,
    pub boundary: String,
}

/// A parameter key as a mathematical value.
pub struct KeyView {
    pub scope: Scope,
    pub arg: Seq<char>,
    pub index: usize,
    pub boundary: Seq<char>,
}

impl View for ParamKey {
    type V = KeyView;

    open spec fn view(&self) -> KeyView {
        KeyView {
            scope: self.scope,
            arg: self.arg@,
            index: self.index,
            boundary: self.boundary@,
        }
    }
}

/// The keys of a list.
pub open spec fn key_views(v: Seq<ParamKey>) -> Seq<KeyView> {
    Seq::new(v.len(), |i: int| v[i]@)
}

/// `keys` with `k` at the end, unless it is there already.
pub open spec fn with_key(keys: Seq<KeyView>, k: KeyView) -> Seq<KeyView> {
    if keys.contains(k) {
        keys
    } else {
        keys.push(k)
    }
}

/// `keys` followed by the new ones of `more`.
pub open spec fn with_keys(keys: Seq<KeyView>, more: Seq<KeyView>) -> Seq<KeyView>
    decreases more.len(),
{
    if more.len() == 0 {
        keys
    } else {
        with_key(with_keys(keys, more.drop_last()), more.last())
    }
}

/// The key of one parameter of an item.
pub open spec fn key_of(nodeid: Seq<char>, param: SortKey) -> KeyView {
    KeyView {
        scope: param.scope,
        arg: param.arg@,
        index: param.index,
        boundary: boundary(nodeid, param.scope),
    }
}

/// The keys of the parameters that are wider than the function.
pub open spec fn wide_keys(nodeid: Seq<char>, params: Seq<SortKey>) -> Seq<KeyView>
    decreases params.len(),
{
    if params.len() == 0 {
        seq![]
    } else {
        let before = wide_keys(nodeid, params.drop_last());
        if params.last().scope == Scope::Function {
            before
        } else {
            before.push(key_of(nodeid, params.last()))
        }
    }
}

/// The keys of an item for parameters wider than the function, each once.
pub open spec fn item_keys(nodeid: Seq<char>, params: Seq<SortKey>) -> Seq<KeyView> {
    with_keys(seq![], wide_keys(nodeid, params))
}

/// The keys of the first `n` items, each once.
pub open spec fn key_table(items: Seq<TestItem>, n: int) -> Seq<KeyView>
    decreases n,
{
    if n <= 0 {
        seq![]
    } else {
        with_keys(
            key_table(items, n - 1),
            item_keys(items[n - 1].nodeid@, items[n - 1].scope_sort_keys@),
        )
    }
}

/// All keys of the items.
pub open spec fn table_of(items: Seq<TestItem>) -> Seq<KeyView> {
    key_table(items, items.len() as int)
}

/// `slot` stands for `key` in the table.
pub open spec fn stands_for(slot: Slot, key: KeyView, table: Seq<KeyView>) -> bool {
    slot.scope == key.scope && slot.key < table.len() && table[slot.key as int] == key
}

/// The slots of an item are its keys, by their places in the table.
pub open spec fn slots_ok(item: TestItem, mine: Seq<Slot>, table: Seq<KeyView>) -> bool {
    let keys = item_keys(item.nodeid@, item.scope_sort_keys@);
    mine.len() == keys.len() && forall|j: int|
        0 <= j < keys.len() ==> stands_for(#[trigger] mine[j], keys[j], table)
}

/// The slots of all items.
pub open spec fn all_slots_ok(
    items: Seq<TestItem>,
    of_item: Seq<Seq<Slot>>,
    table: Seq<KeyView>,
) -> bool {
    of_item.len() == items.len() && forall|i: int|
        0 <= i < items.len() ==> slots_ok(items[i], #[trigger] of_item[i], table)
}

/// The positions of the first `n` items with this key, in order.
pub open spec fn users_of(items: Seq<TestItem>, n: int, key: KeyView) -> Seq<usize>
    decreases n,
{
    if n <= 0 {
        seq![]
    } else {
        let before = users_of(items, n - 1, key);
        if item_keys(items[n - 1].nodeid@, items[n - 1].scope_sort_keys@).contains(key) {
            before.push((n - 1) as usize)
        } else {
            before
        }
    }
}

/// The items of every key of the table.
pub open spec fn all_users(items: Seq<TestItem>, table: Seq<KeyView>) -> Seq<Seq<usize>> {
    Seq::new(table.len(), |k: int| users_of(items, items.len() as int, table[k]))
}

/// The numbers below `n`, in order.
pub open spec fn upto(n: nat) -> Seq<usize> {
    Seq::new(n, |i: int| i as usize)
}

/// `order` is the order of the items that groups them by parameter.
pub open spec fn grouping_order(items: Seq<TestItem>, order: Seq<usize>) -> bool {
    exists|of_item: Seq<Seq<Slot>>| #[trigger]
        all_slots_ok(items, of_item, table_of(items)) && order == arranged(
            of_item,
            all_users(items, table_of(items)),
            upto(items.len()),
            Scope::Session,
            table_of(items).len(),
        ).0
}

/// Every parameter of the items lives for one test.
pub open spec fn all_narrow(items: Seq<TestItem>) -> bool {
    forall|i: int| 0 <= i < items.len() ==> (#[trigger] items[i]).max_param_scope == Scope::Function
}

// ---------------------------------------------------------------------------
// Executable functions
// ---------------------------------------------------------------------------

/// The part of a nodeid that a fixture value of this scope is shared within.
/// Session: ""; package: the directory; module: the file; class: the file and
/// the classes down to the innermost one, or the file alone outside a class.
pub fn scope_boundary(nodeid: &str, scope: Scope) -> (r: String)
    ensures
        r@ == boundary(nodeid@, scope),
{
    match scope {
        Scope::Session => String::new(),
        Scope::Package => {
            let module = head(nodeid, "::");
            match split_last(module.as_str(), '/') {
                Some((dir, _)) => dir,
                None => String::new(),
            }
        },
        Scope::Module => head(nodeid, "::"),
        Scope::Class => {
            match split_once(nodeid, "::") {
                Some((file, rest)) => {
                    let name = head(rest.as_str(), "[");
                    let mut r: String = file;
                    if let Some((classes, _)) = split_at_last(name.as_str(), "::") {
                        r.append("::");
                        r.append(classes.as_str());
                    }
                    r
                },
                None => nodeid.to_owned(),
            }
        },
        Scope::Function => nodeid.to_owned(),
    }
}

/// Whether two keys are the same.
fn same_key(a: &ParamKey, b: &ParamKey) -> (r: bool)
    ensures
        r == (a@ == b@),
{
    a.scope == b.scope && a.index == b.index && same(a.arg.as_str(), b.arg.as_str()) && same(
        a.boundary.as_str(),
        b.boundary.as_str(),
    )
}

/// The place of a key in a list.
fn find_key(list: &Vec<ParamKey>, key: &ParamKey) -> (r: Option<usize>)
    ensures
        match r {
            Some(i) => i < list@.len() && key_views(list@)[i as int] == key@,
            None => !key_views(list@).contains(key@),
        },
{
    let mut i: usize = 0;
    while i < list.len()
        invariant
            i <= list@.len(),
            forall|j: int| 0 <= j < i ==> key_views(list@)[j] != key@,
        decreases list@.len() - i,
    {
        if same_key(&list[i], key) {
            return Some(i);
        }
        i += 1;
    }
    None
}

/// Appends a key, unless it is there already.
fn push_key(list: &mut Vec<ParamKey>, key: ParamKey)
    ensures
        key_views(final(list)@) == with_key(key_views(old(list)@), key@),
{
    let ghost before = list@;
    match find_key(list, &key) {
        Some(i) => {
            assert(key_views(list@).contains(key@));
        },
        None => {
            list.push(key);
            assert(key_views(list@) =~= key_views(before).push(key@));
        },
    }
}

/// Order-preserving removal of repetitions.
pub fn dedup_keys(keys: Vec<ParamKey>) -> (r: Vec<ParamKey>)
    ensures
        key_views(r@) == with_keys(seq![], key_views(keys@)),
{
    let mut r: Vec<ParamKey> = Vec::new();
    let mut i: usize = 0;
    assert(key_views(r@) =~= seq![]);
    while i < keys.len()
        invariant
            i <= keys@.len(),
            key_views(r@) == with_keys(seq![], key_views(keys@).take(i as int)),
        decreases keys@.len() - i,
    {
        assert(key_views(keys@).take(i + 1).drop_last() =~= key_views(keys@).take(i as int));
        let key = &keys[i];
        let copy = ParamKey {
            scope: key.scope,
            arg: key.arg.clone(),
            index: key.index,
            boundary: key.boundary.clone(),
        };
        push_key(&mut r, copy);
        i += 1;
    }
    assert(key_views(keys@).take(i as int) =~= key_views(keys@));
    r
}

/// The keys of an item for parameters wider than the function, each once.
fn keys_of_item(item: &TestItem) -> (r: Vec<ParamKey>)
    ensures
        key_views(r@) == item_keys(item.nodeid@, item.scope_sort_keys@),
{
    let mut all: Vec<ParamKey> = Vec::new();
    let mut i: usize = 0;
    assert(key_views(all@) =~= seq![]);
    while i < item.scope_sort_keys.len()
        invariant
            i <= item.scope_sort_keys@.len(),
            key_views(all@) == wide_keys(item.nodeid@, item.scope_sort_keys@.take(i as int)),
        decreases item.scope_sort_keys@.len() - i,
    {
        let ghost params = item.scope_sort_keys@;
        assert(params.take(i + 1).drop_last() =~= params.take(i as int));
        let param = &item.scope_sort_keys[i];
        if param.scope != Scope::Function {
            let ghost before = all@;
            let key = ParamKey {
                scope: param.scope,
                arg: param.arg.clone(),
                index: param.index,
                boundary: scope_boundary(item.nodeid.as_str(), param.scope),
            };
            all.push(key);
            assert(key_views(all@) =~= key_views(before).push(key@));
        }
        i += 1;
    }
    assert(item.scope_sort_keys@.take(i as int) =~= item.scope_sort_keys@);
    dedup_keys(all)
}

/// The keys of all items, each once.
fn collect_table(items: &Vec<TestItem>) -> (r: Vec<ParamKey>)
    ensures
        key_views(r@) == table_of(items@),
{
    let mut r: Vec<ParamKey> = Vec::new();
    let mut i: usize = 0;
    assert(key_views(r@) =~= seq![]);
    while i < items.len()
        invariant
            i <= items@.len(),
            key_views(r@) == key_table(items@, i as int),
        decreases items@.len() - i,
    {
        let mine = keys_of_item(&items[i]);
        let ghost all = key_views(mine@);
        let ghost before = key_views(r@);
        let mut j: usize = 0;
        while j < mine.len()
            invariant
                j <= mine@.len(),
                all == key_views(mine@),
                key_views(r@) == with_keys(before, all.take(j as int)),
            decreases mine@.len() - j,
        {
            assert(all.take(j + 1).drop_last() =~= all.take(j as int));
            let key = &mine[j];
            let copy = ParamKey {
                scope: key.scope,
                arg: key.arg.clone(),
                index: key.index,
                boundary: key.boundary.clone(),
            };
            push_key(&mut r, copy);
            j += 1;
        }
        assert(all.take(j as int) =~= all);
        i += 1;
    }
    r
}

/// Appending keys keeps what was there, repeats nothing and adds just the
/// given ones.
proof fn with_keys_facts(keys: Seq<KeyView>, more: Seq<KeyView>)
    ensures
        keys.no_duplicates() ==> with_keys(keys, more).no_duplicates(),
        forall|x: KeyView| #[trigger]
            with_keys(keys, more).contains(x) <==> keys.contains(x) || more.contains(x),
    decreases more.len(),
{
    if more.len() > 0 {
        let before = with_keys(keys, more.drop_last());
        with_keys_facts(keys, more.drop_last());
        assert forall|x: KeyView| #[trigger]
            with_keys(keys, more).contains(x) <==> keys.contains(x) || more.contains(x) by {
            contains_split(more, x);
            assert(before.contains(x) <==> keys.contains(x) || more.drop_last().contains(x));
            if !before.contains(more.last()) {
                contains_split(before.push(more.last()), x);
                assert(before.push(more.last()).drop_last() =~= before);
            }
        }
    }
}

/// The table repeats nothing and holds the keys of the items.
pub proof fn table_facts(items: Seq<TestItem>, n: int)
    requires
        0 <= n <= items.len(),
    ensures
        key_table(items, n).no_duplicates(),
        forall|i: int, x: KeyView|
            0 <= i < n && #[trigger] item_keys(items[i].nodeid@, items[i].scope_sort_keys@).contains(
                x,
            ) ==> key_table(items, n).contains(x),
    decreases n,
{
    if n > 0 {
        table_facts(items, n - 1);
        let last = items[n - 1];
        with_keys_facts(key_table(items, n - 1), item_keys(last.nodeid@, last.scope_sort_keys@));
        assert forall|i: int, x: KeyView|
            0 <= i < n && #[trigger] item_keys(
                items[i].nodeid@,
                items[i].scope_sort_keys@,
            ).contains(x) implies key_table(items, n).contains(x) by {
            if i < n - 1 {
                assert(key_table(items, n - 1).contains(x));
            }
        }
    }
}

/// The slots of an item.
fn slots_of_item(item: &TestItem, table: &Vec<ParamKey>) -> (r: Vec<Slot>)
    requires
        forall|x: KeyView| #[trigger]
            item_keys(item.nodeid@, item.scope_sort_keys@).contains(x) ==> key_views(
                table@,
            ).contains(x),
    ensures
        slots_ok(*item, r@, key_views(table@)),
{
    let mine = keys_of_item(item);
    let ghost keys = key_views(mine@);
    let ghost all = key_views(table@);
    let mut r: Vec<Slot> = Vec::new();
    let mut j: usize = 0;
    while j < mine.len()
        invariant
            j <= mine@.len(),
            keys == key_views(mine@),
            keys == item_keys(item.nodeid@, item.scope_sort_keys@),
            all == key_views(table@),
            forall|x: KeyView| #[trigger] keys.contains(x) ==> all.contains(x),
            r@.len() == j,
            forall|i: int| 0 <= i < j ==> stands_for(#[trigger] r@[i], keys[i], all),
        decreases mine@.len() - j,
    {
        assert(keys.contains(keys[j as int]));
        assert(all.contains(mine@[j as int]@));
        match find_key(table, &mine[j]) {
            Some(k) => {
                r.push(Slot { scope: mine[j].scope, key: k });
            },
            None => {},
        }
        j += 1;
    }
    r
}

/// Whether a list holds a key.
fn has_key_view(list: &Vec<Slot>, k: usize) -> (r: bool)
    ensures
        r == exists|j: int| 0 <= j < list@.len() && #[trigger] list@[j].key == k,
{
    let mut j: usize = 0;
    while j < list.len()
        invariant
            j <= list@.len(),
            forall|i: int| 0 <= i < j ==> #[trigger] list@[i].key != k,
        decreases list@.len() - j,
    {
        let slot: Slot = list[j];
        if slot.key == k {
            assert(list@[j as int].key == k);
            return true;
        }
        j += 1;
    }
    false
}

/// An item uses key `k` of the table just when it has that key.
pub proof fn slot_means_key(item: TestItem, mine: Seq<Slot>, table: Seq<KeyView>, k: int)
    requires
        slots_ok(item, mine, table),
        table.no_duplicates(),
        0 <= k < table.len(),
    ensures
        (exists|j: int| 0 <= j < mine.len() && #[trigger] mine[j].key == k) <==> item_keys(
            item.nodeid@,
            item.scope_sort_keys@,
        ).contains(table[k]),
{
    let keys = item_keys(item.nodeid@, item.scope_sort_keys@);
    if exists|j: int| 0 <= j < mine.len() && #[trigger] mine[j].key == k {
        let j = choose|j: int| 0 <= j < mine.len() && #[trigger] mine[j].key == k;
        assert(stands_for(mine[j], keys[j], table));
    }
    if keys.contains(table[k]) {
        let j = choose|j: int| 0 <= j < keys.len() && keys[j] == table[k];
        assert(stands_for(mine[j], keys[j], table));
        assert(mine[j].key == k);
    }
}

/// The items of every key.
fn users_of_keys(
    items: &Vec<TestItem>,
    of_item: &Vec<Vec<Slot>>,
    table: &Vec<ParamKey>,
) -> (r: Vec<Vec<usize>>)
    requires
        all_slots_ok(items@, slots(of_item@), key_views(table@)),
        key_views(table@).no_duplicates(),
    ensures
        users(r@) == all_users(items@, key_views(table@)),
{
    let ghost all = key_views(table@);
    let mut r: Vec<Vec<usize>> = Vec::new();
    let mut k: usize = 0;
    while k < table.len()
        invariant
            k <= table@.len(),
            all == key_views(table@),
            all.no_duplicates(),
            all_slots_ok(items@, slots(of_item@), all),
            r@.len() == k,
            forall|x: int|
                0 <= x < k ==> (#[trigger] r@[x])@ == users_of(items@, items@.len() as int, all[x]),
        decreases table@.len() - k,
    {
        let mut list: Vec<usize> = Vec::new();
        let mut i: usize = 0;
        while i < items.len()
            invariant
                i <= items@.len(),
                k < all.len(),
                all.no_duplicates(),
                all_slots_ok(items@, slots(of_item@), all),
                list@ == users_of(items@, i as int, all[k as int]),
            decreases items@.len() - i,
        {
            proof {
                assert(slots_ok(items@[i as int], slots(of_item@)[i as int], all));
                slot_means_key(items@[i as int], slots(of_item@)[i as int], all, k as int);
            }
            if has_key_view(&of_item[i], k) {
                list.push(i);
            }
            i += 1;
        }
        r.push(list);
        k += 1;
    }
    assert(users(r@) =~= all_users(items@, all));
    r
}

proof fn users_facts(items: Seq<TestItem>, n: int, key: KeyView)
    requires
        0 <= n <= items.len() <= usize::MAX,
    ensures
        forall|i: usize|
            i < n && #[trigger] item_keys(
                items[i as int].nodeid@,
                items[i as int].scope_sort_keys@,
            ).contains(key) ==> users_of(items, n, key).contains(i),
    decreases n,
{
    if n > 0 {
        users_facts(items, n - 1, key);
        let before = users_of(items, n - 1, key);
        let last = (n - 1) as usize;
        assert forall|i: usize|
            i < n && #[trigger] item_keys(
                items[i as int].nodeid@,
                items[i as int].scope_sort_keys@,
            ).contains(key) implies users_of(items, n, key).contains(i) by {
            if item_keys(items[n - 1].nodeid@, items[n - 1].scope_sort_keys@).contains(key) {
                contains_split(before.push(last), i);
                assert(before.push(last).drop_last() =~= before);
            }
        }
    }
}

/// The lists of keys and items belong together.
pub proof fn lists_belong(items: Seq<TestItem>, of_item: Seq<Seq<Slot>>)
    requires
        items.len() <= usize::MAX,
        all_slots_ok(items, of_item, table_of(items)),
    ensures
        in_bounds(of_item, table_of(items).len()),
        listed(of_item, all_users(items, table_of(items))),
{
    let table = table_of(items);
    assert forall|i: int, j: int|
        0 <= i < of_item.len() && 0 <= j < of_item[i].len() implies #[trigger] of_item[i][j].key
        < table.len() by {
        assert(slots_ok(items[i], of_item[i], table));
        let keys = item_keys(items[i].nodeid@, items[i].scope_sort_keys@);
        assert(stands_for(of_item[i][j], keys[j], table));
    }
    assert forall|i: usize, j: int|
        i < of_item.len() && 0 <= j < of_item[i as int].len() implies all_users(items, table)[(
    #[trigger] of_item[i as int][j]).key as int].contains(i) by {
        assert(slots_ok(items[i as int], of_item[i as int], table));
        let keys = item_keys(items[i as int].nodeid@, items[i as int].scope_sort_keys@);
        assert(stands_for(of_item[i as int][j], keys[j], table));
        assert(keys.contains(keys[j]));
        users_facts(items, items.len() as int, keys[j]);
    }
}

/// The entries of `items` in the given order.
pub fn take_in_order<T>(items: Vec<T>, order: &Vec<usize>) -> (r: Vec<T>)
    requires
        order@.no_duplicates(),
        below(order@, items@.len()),
        order@.len() == items@.len(),
    ensures
        r@.len() == items@.len(),
        forall|i: int| 0 <= i < order@.len() ==> #[trigger] r@[i] == items@[order@[i] as int],
{
    let ghost all = items@;
    let n: usize = items.len();
    let mut boxed = takeable(items);
    let mut r: Vec<T> = Vec::new();
    let mut i: usize = 0;
    while i < order.len()
        invariant
            n == all.len(),
            i <= order@.len(),
            order@.len() == n,
            order@.no_duplicates(),
            below(order@, n as nat),
            boxed@.len() == n,
            r@.len() == i,
            forall|k: int| 0 <= k < i ==> #[trigger] r@[k] == all[order@[k] as int],
            forall|k: int|
                i <= k < n ==> boxed@[#[trigger] order@[k] as int] == Some(all[order@[k] as int]),
        decreases order@.len() - i,
    {
        let x: usize = order[i];
        assert(order@[i as int] < n);
        let mut slot: Option<T> = None;
        core::mem::swap(&mut slot, &mut boxed[x]);
        assert(slot == Some(all[x as int]));
        r.push(slot.unwrap());
        assert forall|k: int| i + 1 <= k < n implies boxed@[#[trigger] order@[k] as int] == Some(
            all[order@[k] as int],
        ) by {
            assert(order@[k] != order@[i as int]);
            assert(order@[k] < n);
        }
        i += 1;
    }
    r
}

/// `after` is `before` in the order that groups by parameter.
pub open spec fn grouped_as(before: Seq<TestItem>, after: Seq<TestItem>, order: Seq<usize>) -> bool {
    &&& grouping_order(before, order)
    &&& order.no_duplicates()
    &&& order.len() == before.len()
    &&& below(order, before.len())
    &&& after.len() == before.len()
    &&& forall|i: int| 0 <= i < order.len() ==> #[trigger] after[i] == before[order[i] as int]
}

/// There is just one order that groups by parameter.
pub proof fn grouping_order_is_unique(items: Seq<TestItem>, a: Seq<usize>, b: Seq<usize>)
    requires
        grouping_order(items, a),
        grouping_order(items, b),
    ensures
        a == b,
{
    let table = table_of(items);
    table_facts(items, items.len() as int);
    let users = all_users(items, table);
    let x = choose|x: Seq<Seq<Slot>>| #[trigger]
        all_slots_ok(items, x, table) && a == arranged(
            x,
            users,
            upto(items.len()),
            Scope::Session,
            table.len(),
        ).0;
    let y = choose|y: Seq<Seq<Slot>>| #[trigger]
        all_slots_ok(items, y, table) && b == arranged(
            y,
            users,
            upto(items.len()),
            Scope::Session,
            table.len(),
        ).0;
    assert forall|i: int| 0 <= i < items.len() implies x[i] == y[i] by {
        assert(slots_ok(items[i], x[i], table));
        assert(slots_ok(items[i], y[i], table));
        let keys = item_keys(items[i].nodeid@, items[i].scope_sort_keys@);
        assert forall|j: int| 0 <= j < keys.len() implies x[i][j] == y[i][j] by {
            assert(stands_for(x[i][j], keys[j], table));
            assert(stands_for(y[i][j], keys[j], table));
        }
        assert(x[i] =~= y[i]);
    }
    assert(x =~= y);
}

/// Reorders items so that parameters of wider scopes change as rarely as
/// possible, grouping by session, package, module and class parameters in
/// turn. Nothing moves when no parameter is wider than the function.
pub fn reorder_items_by_param_scope(items: &mut Vec<TestItem>)
    ensures
        all_narrow(old(items)@) ==> final(items)@ == old(items)@,
        !all_narrow(old(items)@) ==> exists|order: Seq<usize>| #[trigger]
            grouped_as(old(items)@, final(items)@, order),
{
    let mut taken: Vec<TestItem> = Vec::new();
    core::mem::swap(items, &mut taken);
    *items = regroup(taken);
}

/// The items in the order that groups them by parameter.
fn regroup(items: Vec<TestItem>) -> (r: Vec<TestItem>)
    ensures
        all_narrow(items@) ==> r@ == items@,
        !all_narrow(items@) ==> exists|order: Seq<usize>| #[trigger]
            grouped_as(items@, r@, order),
{
    let n: usize = items.len();
    let mut narrow = true;
    let mut i: usize = 0;
    while i < n
        invariant
            n == items@.len(),
            i <= n,
            narrow == all_narrow(items@.take(i as int)),
        decreases n - i,
    {
        proof {
            take_next(items@, i as int);
            assert forall|k: int| 0 <= k < i implies items@.take(i as int)[k] == items@.take(
                i + 1,
            )[k] by {}
            assert(items@.take(i + 1)[i as int] == items@[i as int]);
            if all_narrow(items@.take(i + 1)) {
                assert forall|k: int| 0 <= k < i implies (#[trigger] items@.take(
                    i as int,
                )[k]).max_param_scope == Scope::Function by {
                    assert(items@.take(i + 1)[k].max_param_scope == Scope::Function);
                }
            }
        }
        if items[i].max_param_scope != Scope::Function {
            narrow = false;
        }
        i += 1;
    }
    assert(items@.take(i as int) =~= items@);
    if narrow {
        return items;
    }
    let table = collect_table(&items);
    proof {
        table_facts(items@, items@.len() as int);
    }
    let ghost all = key_views(table@);
    let mut of_item: Vec<Vec<Slot>> = Vec::new();
    let mut k: usize = 0;
    while k < n
        invariant
            n == items@.len(),
            k <= n,
            all == key_views(table@),
            all == table_of(items@),
            forall|i: int, x: KeyView|
                0 <= i < n && #[trigger] item_keys(
                    items@[i].nodeid@,
                    items@[i].scope_sort_keys@,
                ).contains(x) ==> all.contains(x),
            of_item@.len() == k,
            forall|i: int| 0 <= i < k ==> slots_ok(items@[i], (#[trigger] of_item@[i])@, all),
        decreases n - k,
    {
        let mine = slots_of_item(&items[k], &table);
        of_item.push(mine);
        k += 1;
    }
    let ghost abi = slots(of_item@);
    assert(all_slots_ok(items@, abi, all));
    let mut of_key = users_of_keys(&items, &of_item, &table);
    let n_keys: usize = of_key.len();
    let ghost iba = users(of_key@);
    proof {
        lists_belong(items@, abi);
        assert(iba == all_users(items@, all));
        assert(n_keys == iba.len());
    }
    let mut first: Vec<usize> = Vec::new();
    let mut m: usize = 0;
    while m < n
        invariant
            m <= n,
            first@ == upto(m as nat),
        decreases n - m,
    {
        first.push(m);
        m += 1;
    }
    let order = reorder_items_atscope(first.as_slice(), &of_item, &mut of_key, Scope::Session);
    proof {
        reordering_keeps_every_item(abi, iba, first@, Scope::Session);
        assert(grouping_order(items@, order@));
    }
    let r = take_in_order(items, &order);
    assert(grouped_as(items@, r@, order@));
    r
}

/// An item has a key for each of its parameters that is wider than a function,
/// with the parameter's scope, name and index and the part of the nodeid that
/// the scope spans.
pub proof fn every_wide_parameter_is_a_key(nodeid: Seq<char>, params: Seq<SortKey>, i: int)
    requires
        0 <= i < params.len(),
        params[i].scope != Scope::Function,
    ensures
        item_keys(nodeid, params).contains(
            (KeyView {
                scope: params[i].scope,
                arg: params[i].arg@,
                index: params[i].index,
                boundary: boundary(nodeid, params[i].scope),
            }),
        ),
{
    wide_keys_have(nodeid, params, i);
    with_keys_facts(seq![], wide_keys(nodeid, params));
}

proof fn wide_keys_have(nodeid: Seq<char>, params: Seq<SortKey>, i: int)
    requires
        0 <= i < params.len(),
        params[i].scope != Scope::Function,
    ensures
        wide_keys(nodeid, params).contains(key_of(nodeid, params[i])),
    decreases params.len(),
{
    let init = params.drop_last();
    let before = wide_keys(nodeid, init);
    let all = wide_keys(nodeid, params);
    if i < init.len() {
        wide_keys_have(nodeid, init, i);
        let k = choose|k: int| 0 <= k < before.len() && before[k] == key_of(nodeid, params[i]);
        assert(all[k] == before[k]);
    } else {
        assert(all[before.len() as int] == key_of(nodeid, params[i]));
    }
}

/// An item has no other key: each one is that of a parameter wider than a
/// function, and none is there twice.
pub proof fn every_key_is_a_wide_parameter(nodeid: Seq<char>, params: Seq<SortKey>, key: KeyView)
    requires
        item_keys(nodeid, params).contains(key),
    ensures
        item_keys(nodeid, params).no_duplicates(),
        exists|i: int|
            0 <= i < params.len() && (#[trigger] params[i]).scope != Scope::Function && key.scope
                == params[i].scope && key.arg == params[i].arg@ && key.index == params[i].index
                && key.boundary == boundary(nodeid, params[i].scope),
{
    with_keys_facts(seq![], wide_keys(nodeid, params));
    wide_keys_are(nodeid, params, key);
}

proof fn wide_keys_are(nodeid: Seq<char>, params: Seq<SortKey>, key: KeyView)
    requires
        wide_keys(nodeid, params).contains(key),
    ensures
        exists|i: int|
            0 <= i < params.len() && (#[trigger] params[i]).scope != Scope::Function && key
                == key_of(nodeid, params[i]),
    decreases params.len(),
{
    let init = params.drop_last();
    let before = wide_keys(nodeid, init);
    let all = wide_keys(nodeid, params);
    if before.contains(key) {
        wide_keys_are(nodeid, init, key);
        let i = choose|i: int|
            0 <= i < init.len() && (#[trigger] init[i]).scope != Scope::Function && key == key_of(
                nodeid,
                init[i],
            );
        assert(params[i] == init[i]);
    } else {
        contains_split(all, key);
        assert(all.drop_last() =~= before);
        assert(params[params.len() - 1].scope != Scope::Function);
    }
}

/// How far a fixture value reaches, on the nodeid of an item in a file: over the
/// session; over the directory of the file; over the file; over the item alone.
pub proof fn boundaries_of_a_file(dir: Seq<char>, file: Seq<char>, rest: Seq<char>)
    requires
        !dir.contains(':'),
        !file.contains(':') && !file.contains('/'),
    ensures
        ({
            let path = dir + "/"@ + file;
            let nodeid = path + "::"@ + rest;
            &&& boundary(nodeid, Scope::Session).len() == 0
            &&& boundary(nodeid, Scope::Package) == dir
            &&& boundary(file + "::"@ + rest, Scope::Package).len() == 0
            &&& boundary(nodeid, Scope::Module) == path
            &&& boundary(nodeid, Scope::Function) == nodeid
        }),
{
    reveal_strlit("::");
    reveal_strlit("/");
    let path = dir + "/"@ + file;
    assert forall|k: int| 0 <= k < path.len() implies path[k] != ':' by {
        if k < dir.len() {
            assert(dir.contains(dir[k]));
        } else if k > dir.len() {
            assert(file.contains(file[k - dir.len() - 1]));
        }
    }
    assert(path =~= dir.push('/') + file);
    parted_at_last_char(dir, '/', file);
    assert(path.take(dir.len() as int) =~= dir);
    parted_at_first(path, "::"@, rest);
    parted_at_first(file, "::"@, rest);
}

/// A fixture value of class scope reaches over the innermost class, or the file
/// outside a class; the parameter id plays no part in that.
pub proof fn boundaries_of_a_class(
    path: Seq<char>,
    classes: Seq<char>,
    name: Seq<char>,
    id: Seq<char>,
)
    requires
        !path.contains(':'),
        !classes.contains('['),
        !name.contains(':') && !name.contains('['),
    ensures
        boundary(path + "::"@ + name, Scope::Class) == path,
        boundary(path + "::"@ + (name + "["@ + id), Scope::Class) == path,
        boundary(path + "::"@ + (classes + "::"@ + name), Scope::Class) == path + "::"@ + classes,
        boundary(path + "::"@ + (classes + "::"@ + name + "["@ + id), Scope::Class) == path + "::"@
            + classes,
{
    reveal_strlit("::");
    reveal_strlit("[");
    let tail = classes + "::"@ + name;
    assert forall|k: int| 0 <= k < tail.len() implies tail[k] != '[' by {
        if k < classes.len() {
            assert(classes.contains(classes[k]));
        } else if k >= classes.len() + 2 {
            assert(name.contains(name[k - classes.len() - 2]));
        }
    }
    parted_at_last(classes, "::"@, name);
    no_last_part(name, "::"@);
    not_parted(name, "["@);
    not_parted(tail, "["@);
    class_of_rest(path, name, name);
    class_of_rest(path, tail, tail);
    parted_at_first(name, "["@, id);
    parted_at_first(tail, "["@, id);
    class_of_rest(path, name + "["@ + id, name);
    class_of_rest(path, tail + "["@ + id, tail);
}

proof fn class_of_rest(path: Seq<char>, rest: Seq<char>, bare: Seq<char>)
    requires
        !path.contains(':'),
        head_of(rest, "["@) == bare,
    ensures
        boundary(path + "::"@ + rest, Scope::Class) == (match outer_halves(bare, "::"@) {
            Some((classes, _)) => path + "::"@ + classes,
            None => path,
        }),
{
    reveal_strlit("::");
    parted_at_first(path, "::"@, rest);
}

proof fn no_last_part(s: Seq<char>, p: Seq<char>)
    requires
        p.len() > 0,
        !s.contains(p.last()),
    ensures
        outer_halves(s, p) is None,
    decreases s.len(),
{
    if s.len() > 0 {
        if p.is_suffix_of(s) {
            assert(s.last() == p.last());
            assert(s.contains(s[s.len() - 1]));
        }
        assert forall|k: int| 0 <= k < s.drop_last().len() implies s.drop_last()[k]
            != p.last() by {
            assert(s.contains(s[k]));
        }
        no_last_part(s.drop_last(), p);
    }
}

/// Items are regrouped as soon as one of them has a parameter that is wider than a
/// function, and only then.
pub proof fn wide_parameters_regroup(items: Seq<TestItem>, i: int)
    ensures
        0 <= i < items.len() && items[i].max_param_scope != Scope::Function ==> !all_narrow(items),
        (forall|k: int|
            0 <= k < items.len() ==> (#[trigger] items[k]).max_param_scope == Scope::Function)
            ==> all_narrow(items),
{
}

} // verus!
