//! Fixture definitions, their visibility and the fixture closure of an item.

use vstd::prelude::*;

use crate::collect::reorder::distinct_below;
use crate::lists::{
    contains_split, contains_sum, has_text, no_longer_than_pool, push_name, take_next, with_all,
    with_all_facts, with_name,
};
use crate::object::Handle;
use crate::paths::same_path;
use crate::sorting;
use crate::sorting::{ints, is_order, place, placed, placing_keeps_order};
use crate::text::{byte_len, chars_of, code_point, same, starts_with, texts};

verus! {

/// How long a fixture value lives, narrowest first.
#[derive(Debug, Clone, Copy, PartialEq, Eq, PartialOrd, Ord, Hash, Structural)]
pub enum Scope {
    Function,
    Class,
    Module,
    Package,
    Session,
}

impl Scope {
    /// The place of a scope in the order of widths.
    pub open spec fn width(self) -> int {
        match self {
            Scope::Function => 0,
            Scope::Class => 1,
            Scope::Module => 2,
            Scope::Package => 3,
            Scope::Session => 4,
        }
    }

    /// The name of a scope.
    pub open spec fn name(self) -> Seq<char> {
        match self {
            Scope::Function => "function"@,
            Scope::Class => "class"@,
            Scope::Module => "module"@,
            Scope::Package => "package"@,
            Scope::Session => "session"@,
        }
    }

    /// The scope of that name.
    pub open spec fn named(s: Seq<char>) -> Option<Scope> {
        if s == "function"@ {
            Some(Scope::Function)
        } else if s == "class"@ {
            Some(Scope::Class)
        } else if s == "module"@ {
            Some(Scope::Module)
        } else if s == "package"@ {
            Some(Scope::Package)
        } else if s == "session"@ {
            Some(Scope::Session)
        } else {
            None
        }
    }

    /// The scope named `s`, if there is one.
    pub fn parse(s: &str) -> (r: Option<Self>)
        ensures
            r == Scope::named(s@),
    {
        if same(s, "function") {
            Some(Scope::Function)
        } else if same(s, "class") {
            Some(Scope::Class)
        } else if same(s, "module") {
            Some(Scope::Module)
        } else if same(s, "package") {
            Some(Scope::Package)
        } else if same(s, "session") {
            Some(Scope::Session)
        } else {
            None
        }
    }

    /// The name of the scope.
    pub fn as_str(&self) -> (r: &'static str)
        ensures
            r@ == self.name(),
    {
        match self {
            Scope::Function => "function",
            Scope::Class => "class",
            Scope::Module => "module",
            Scope::Package => "package",
            Scope::Session => "session",
        }
    }

    /// The place of the scope in the order of widths.
    pub fn rank(&self) -> (r: u8)
        ensures
            r == self.width(),
    {
        match self {
            Scope::Function => 0,
            Scope::Class => 1,
            Scope::Module => 2,
            Scope::Package => 3,
            Scope::Session => 4,
        }
    }
}

/// One `@pytest.fixture` definition discovered at collection time, or
/// registered by a plugin.
pub struct FixtureDef {
    pub name: String,
    /// The underlying Python callable.
    pub func: Handle,
    pub scope: Scope,
    pub autouse: bool,
    pub is_coroutine: bool,
    pub is_generator: bool,
    pub is_async_gen: bool,
    /// Names of the fixtures this fixture itself requests.
    pub param_names: Vec<String>,
    /// Visibility prefix: items whose nodeid starts with this see the
    /// fixture. "" = global (plugin / rootdir conftest).
    pub baseid: String,
    /// Defined inside a Test* class: call with the test instance as `self`.
    pub needs_instance: bool,
    /// `@pytest.fixture(params=[...])` values; items using this fixture are
    /// expanded per param at collection time.
    pub params: Option<Handle>,
    /// `@pytest.fixture(ids=...)`: a list of ids or a callable deriving one
    /// per param value.
    pub ids: Option<Handle>,
}

// ---------------------------------------------------------------------------
// Model
// ---------------------------------------------------------------------------

/// The definition serves items at `nodeid`.
pub open spec fn visible(def: FixtureDef, nodeid: Seq<char>) -> bool {
    def.baseid@.is_prefix_of(nodeid)
}

/// The definition has this name and serves items at `nodeid`.
pub open spec fn serves(def: FixtureDef, name: Seq<char>, nodeid: Seq<char>) -> bool {
    def.name@ == name && visible(def, nodeid)
}

/// The last of the first `n` definitions that serves `name` at `nodeid`.
pub open spec fn last_serving(
    defs: Seq<FixtureDef>,
    n: int,
    name: Seq<char>,
    nodeid: Seq<char>,
) -> Option<int>
    decreases n,
{
    if n <= 0 {
        None
    } else if serves(defs[n - 1], name, nodeid) {
        Some(n - 1)
    } else {
        last_serving(defs, n - 1, name, nodeid)
    }
}

/// The definition of `name` that items at `nodeid` get.
pub open spec fn found(defs: Seq<FixtureDef>, name: Seq<char>, nodeid: Seq<char>) -> Option<int> {
    last_serving(defs, defs.len() as int, name, nodeid)
}

/// The definition applies by itself to items at `nodeid`.
pub open spec fn applies(def: FixtureDef, nodeid: Seq<char>) -> bool {
    def.autouse && visible(def, nodeid)
}

/// Definition `i` is the last of its name that applies by itself.
pub open spec fn autouse_pick(defs: Seq<FixtureDef>, nodeid: Seq<char>, i: int) -> bool {
    &&& 0 <= i < defs.len()
    &&& applies(defs[i], nodeid)
    &&& forall|j: int|
        i < j < defs.len() && defs[j].name@ == defs[i].name@ ==> !applies(#[trigger] defs[j], nodeid)
}

/// `a` stands before `b` in the order of code points.
pub open spec fn text_before(a: Seq<char>, b: Seq<char>) -> bool
    decreases a.len(),
{
    b.len() > 0 && (a.len() == 0 || (a[0] as int) < (b[0] as int) || (a[0] == b[0] && text_before(
        a.skip(1),
        b.skip(1),
    )))
}

/// Autouse order: wider scope first, then the shorter baseid, then the name.
pub open spec fn set_up_before(a: FixtureDef, b: FixtureDef) -> bool {
    ||| a.scope.width() > b.scope.width()
    ||| a.scope == b.scope && byte_len(a.baseid@) < byte_len(b.baseid@)
    ||| a.scope == b.scope && byte_len(a.baseid@) == byte_len(b.baseid@) && text_before(
        a.name@,
        b.name@,
    )
}

/// Autouse order by position.
pub open spec fn autouse_relation(defs: Seq<FixtureDef>) -> spec_fn(int, int) -> bool {
    |a: int, b: int| set_up_before(defs[a], defs[b])
}

/// The definitions among the first `n` that apply by themselves, in order.
pub open spec fn autouse_upto(defs: Seq<FixtureDef>, nodeid: Seq<char>, n: int) -> Seq<int>
    decreases n,
{
    if n <= 0 {
        seq![]
    } else if autouse_pick(defs, nodeid, n - 1) {
        placed(autouse_relation(defs), autouse_upto(defs, nodeid, n - 1), n - 1)
    } else {
        autouse_upto(defs, nodeid, n - 1)
    }
}

/// The definitions that apply by themselves at `nodeid`, most general first.
pub open spec fn autouse_order(defs: Seq<FixtureDef>, nodeid: Seq<char>) -> Seq<int> {
    autouse_upto(defs, nodeid, defs.len() as int)
}

/// The names of the definitions at these positions.
pub open spec fn names_at(defs: Seq<FixtureDef>, ixs: Seq<int>) -> Seq<Seq<char>> {
    Seq::new(ixs.len(), |i: int| defs[ixs[i]].name@)
}

/// Names that are not `request`, which every item can ask for.
pub open spec fn proper(names: Seq<Seq<char>>) -> Seq<Seq<char>> {
    names.filter(|n: Seq<char>| n != "request"@)
}

/// The names that a closure starts from.
pub open spec fn seed_names(
    defs: Seq<FixtureDef>,
    nodeid: Seq<char>,
    requested: Seq<Seq<char>>,
) -> Seq<Seq<char>> {
    with_all(with_all(seq![], names_at(defs, autouse_order(defs, nodeid))), proper(requested))
}

/// The names that the fixture `name` requests at `nodeid`; a name in `ignore`
/// is not looked into.
pub open spec fn requests(
    defs: Seq<FixtureDef>,
    nodeid: Seq<char>,
    ignore: Seq<Seq<char>>,
    name: Seq<char>,
) -> Seq<Seq<char>> {
    match found(defs, name, nodeid) {
        Some(i) => if ignore.contains(name) {
            seq![]
        } else {
            proper(texts(defs[i].param_names@))
        },
        None => seq![],
    }
}

/// The names of the closure after the requests of its first `k` names have
/// been appended.
pub open spec fn names_after(
    defs: Seq<FixtureDef>,
    nodeid: Seq<char>,
    ignore: Seq<Seq<char>>,
    seeds: Seq<Seq<char>>,
    k: nat,
) -> Seq<Seq<char>>
    decreases k,
{
    if k == 0 {
        seeds
    } else {
        let before = names_after(defs, nodeid, ignore, seeds, (k - 1) as nat);
        if k - 1 < before.len() {
            with_all(before, requests(defs, nodeid, ignore, before[k - 1]))
        } else {
            before
        }
    }
}

/// Every name that the first `n` definitions request.
pub open spec fn all_requests(defs: Seq<FixtureDef>, n: int) -> Seq<Seq<char>>
    decreases n,
{
    if n <= 0 {
        seq![]
    } else {
        all_requests(defs, n - 1) + texts(defs[n - 1].param_names@)
    }
}

/// The names of the closure: nothing is appended any more after as many steps
/// as there are names to append.
pub open spec fn closure_names(
    defs: Seq<FixtureDef>,
    nodeid: Seq<char>,
    ignore: Seq<Seq<char>>,
    seeds: Seq<Seq<char>>,
) -> Seq<Seq<char>> {
    names_after(
        defs,
        nodeid,
        ignore,
        seeds,
        seeds.len() + all_requests(defs, defs.len() as int).len(),
    )
}

/// The definitions behind `names`, without the names that have none.
pub open spec fn resolved(
    defs: Seq<FixtureDef>,
    nodeid: Seq<char>,
    names: Seq<Seq<char>>,
) -> Seq<int>
    decreases names.len(),
{
    if names.len() == 0 {
        seq![]
    } else {
        let before = resolved(defs, nodeid, names.drop_last());
        match found(defs, names.last(), nodeid) {
            Some(i) => before.push(i),
            None => before,
        }
    }
}

/// The entries of `ixs` with this scope, in order.
pub open spec fn of_scope(defs: Seq<FixtureDef>, ixs: Seq<int>, scope: Scope) -> Seq<int> {
    ixs.filter(|i: int| defs[i].scope == scope)
}

/// `ixs` with wider scopes first, otherwise in order.
pub open spec fn widest_first(defs: Seq<FixtureDef>, ixs: Seq<int>) -> Seq<int> {
    of_scope(defs, ixs, Scope::Session) + of_scope(defs, ixs, Scope::Package) + of_scope(
        defs,
        ixs,
        Scope::Module,
    ) + of_scope(defs, ixs, Scope::Class) + of_scope(defs, ixs, Scope::Function)
}

/// The fixture closure of an item.
pub open spec fn closure_of(
    defs: Seq<FixtureDef>,
    nodeid: Seq<char>,
    requested: Seq<Seq<char>>,
    ignore: Seq<Seq<char>>,
) -> Seq<int> {
    widest_first(
        defs,
        resolved(
            defs,
            nodeid,
            closure_names(defs, nodeid, ignore, seed_names(defs, nodeid, requested)),
        ),
    )
}

/// Two definitions say the same.
pub open spec fn same_def(a: FixtureDef, b: FixtureDef) -> bool {
    &&& a.name@ == b.name@
    &&& a.func == b.func
    &&& a.scope == b.scope
    &&& a.autouse == b.autouse
    &&& a.is_coroutine == b.is_coroutine
    &&& a.is_generator == b.is_generator
    &&& a.is_async_gen == b.is_async_gen
    &&& texts(a.param_names@) == texts(b.param_names@)
    &&& a.baseid@ == b.baseid@
    &&& a.needs_instance == b.needs_instance
    &&& a.params == b.params
    &&& a.ids == b.ids
}

/// Where `def` stands among the first `n` definitions; after all of them if it
/// is none of them.
pub open spec fn place_upto(defs: Seq<FixtureDef>, n: int, def: FixtureDef) -> int
    decreases n,
{
    if n <= 0 {
        defs.len() as int
    } else if same_def(defs[n - 1], def) {
        n - 1
    } else {
        place_upto(defs, n - 1, def)
    }
}

/// Where `def` stands among the definitions.
pub open spec fn place_of_def(defs: Seq<FixtureDef>, def: FixtureDef) -> int {
    place_upto(defs, defs.len() as int, def)
}

/// The definition that `name` stands for where `def`, at position `at`,
/// requests it: the most specific one, but for `def`'s own name the next less
/// specific one, which `def` overrides.
pub open spec fn requested_def(
    defs: Seq<FixtureDef>,
    nodeid: Seq<char>,
    at: int,
    def: FixtureDef,
    name: Seq<char>,
) -> Option<int> {
    if name == def.name@ {
        last_serving(defs, at, name, nodeid)
    } else {
        found(defs, name, nodeid)
    }
}

/// `def` requests `name`, which is not `request`.
pub open spec fn asks(def: FixtureDef, name: Seq<char>) -> bool {
    texts(def.param_names@).contains(name) && name != "request"@
}

/// A request of `def`, at position `at`, is for definition `t`.
pub open spec fn leads_to(
    defs: Seq<FixtureDef>,
    nodeid: Seq<char>,
    at: int,
    def: FixtureDef,
    t: int,
) -> bool {
    exists|name: Seq<char>| #[trigger]
        asks(def, name) && requested_def(defs, nodeid, at, def, name) == Some(t)
}

/// `path` is a chain of definitions, each of which is requested by the one
/// before it and the first one by `def`.
pub open spec fn request_chain(
    defs: Seq<FixtureDef>,
    nodeid: Seq<char>,
    def: FixtureDef,
    path: Seq<int>,
) -> bool
    decreases path.len(),
{
    if path.len() == 0 {
        false
    } else if path.len() == 1 {
        leads_to(defs, nodeid, place_of_def(defs, def), def, path[0])
    } else {
        let from = path[path.len() - 2];
        request_chain(defs, nodeid, def, path.drop_last()) && leads_to(
            defs,
            nodeid,
            from,
            defs[from],
            path.last(),
        )
    }
}

/// A chain of requests leads from `def` to definition `t`.
pub open spec fn uses_def(
    defs: Seq<FixtureDef>,
    nodeid: Seq<char>,
    def: FixtureDef,
    t: int,
) -> bool {
    exists|path: Seq<int>| #[trigger]
        request_chain(defs, nodeid, def, path) && path.last() == t
}

/// `name` is `def`'s own name, or `def` requests it, or a definition that a
/// chain of requests leads to does.
pub open spec fn reached(
    defs: Seq<FixtureDef>,
    nodeid: Seq<char>,
    def: FixtureDef,
    name: Seq<char>,
) -> bool {
    ||| name == def.name@
    ||| asks(def, name)
    ||| exists|t: int| #[trigger] uses_def(defs, nodeid, def, t) && asks(defs[t], name)
}

/// All fixture definitions of a session, in the order of registration: from
/// the most general (plugins, root conftest) to the most specific (test
/// module). A definition is known by its position.
pub struct FixtureRegistry {
    defs: Vec<FixtureDef>,
}

impl View for FixtureRegistry {
    type V = Seq<FixtureDef>;

    closed spec fn view(&self) -> Seq<FixtureDef> {
        self.defs@
    }
}

impl Default for FixtureRegistry {
    fn default() -> (r: Self)
        ensures
            r@ == Seq::<FixtureDef>::empty(),
    {
        FixtureRegistry { defs: Vec::new() }
    }
}

/// Whether `a` stands before `b` in the order of code points.
pub fn precedes(a: &str, b: &str) -> (r: bool)
    ensures
        r == text_before(a@, b@),
{
    let ac = chars_of(a);
    let bc = chars_of(b);
    let mut i: usize = 0;
    assert(ac@.skip(0) =~= ac@);
    assert(bc@.skip(0) =~= bc@);
    while i < ac.len() && i < bc.len() && ac[i] == bc[i]
        invariant
            i <= ac@.len(),
            i <= bc@.len(),
            ac@ == a@,
            bc@ == b@,
            text_before(a@, b@) == text_before(ac@.skip(i as int), bc@.skip(i as int)),
        decreases ac@.len() - i,
    {
        assert(ac@.skip(i as int).skip(1) =~= ac@.skip(i + 1));
        assert(bc@.skip(i as int).skip(1) =~= bc@.skip(i + 1));
        i += 1;
    }
    if i >= bc.len() {
        false
    } else if i >= ac.len() {
        true
    } else {
        code_point(ac[i]) < code_point(bc[i])
    }
}

/// Whether `a` is set up before `b`.
fn earlier(a: &FixtureDef, b: &FixtureDef) -> (r: bool)
    ensures
        r == set_up_before(*a, *b),
{
    let wa: u8 = a.scope.rank();
    let wb: u8 = b.scope.rank();
    if wa != wb {
        return wa > wb;
    }
    assert(a.scope == b.scope);
    let la: usize = a.baseid.as_str().len();
    let lb: usize = b.baseid.as_str().len();
    if la != lb {
        return la < lb;
    }
    precedes(a.name.as_str(), b.name.as_str())
}

/// `names` with the new ones of `more`, but not `request`.
fn push_names(names: &mut Vec<String>, more: &[String])
    ensures
        texts(final(names)@) == with_all(texts(old(names)@), proper(texts(more@))),
{
    let ghost start = texts(names@);
    let ghost keep = |n: Seq<char>| n != "request"@;
    let mut i: usize = 0;
    assert(texts(more@).take(0) =~= seq![]);
    assert(proper(seq![]) =~= seq![]) by {
        reveal(Seq::filter);
    }
    while i < more.len()
        invariant
            i <= more@.len(),
            keep == (|n: Seq<char>| n != "request"@),
            texts(names@) == with_all(start, proper(texts(more@).take(i as int))),
        decreases more@.len() - i,
    {
        proof {
            take_next(texts(more@), i as int);
            texts(more@).take(i as int).lemma_filter_push(texts(more@)[i as int], keep);
        }
        let ghost kept = proper(texts(more@).take(i as int));
        if !same(more[i].as_str(), "request") {
            push_name(names, more[i].as_str());
            assert(kept.push(more@[i as int]@).drop_last() =~= kept);
        }
        i += 1;
    }
    assert(texts(more@).take(i as int) =~= texts(more@));
}

impl FixtureRegistry {
    /// Adds a definition after all others.
    pub fn register(&mut self, def: FixtureDef)
        ensures
            final(self)@ == old(self)@.push(def),
    {
        self.defs.push(def);
    }

    /// Every registered definition (all names, all overrides).
    pub fn all_defs(&self) -> (r: &[FixtureDef])
        ensures
            r@ == self@,
    {
        self.defs.as_slice()
    }

    /// The last of the first `n` definitions that serves `name` at `nodeid`.
    fn last_before(&self, n: usize, name: &str, nodeid: &str) -> (r: Option<usize>)
        requires
            n <= self@.len(),
        ensures
            match last_serving(self@, n as int, name@, nodeid@) {
                Some(i) => r matches Some(j) && i == j && j < n,
                None => r is None,
            },
    {
        let mut k: usize = n;
        while k > 0
            invariant
                k <= n <= self@.len(),
                last_serving(self@, n as int, name@, nodeid@) == last_serving(
                    self@,
                    k as int,
                    name@,
                    nodeid@,
                ),
            decreases k,
        {
            let def = &self.defs[k - 1];
            if same(def.name.as_str(), name) && starts_with(nodeid, def.baseid.as_str()) {
                return Some(k - 1);
            }
            k -= 1;
        }
        None
    }

    /// The most specific definition of `name` visible from `nodeid`.
    pub fn lookup(&self, name: &str, nodeid: &str) -> (r: Option<usize>)
        ensures
            match found(self@, name@, nodeid@) {
                Some(i) => r matches Some(j) && i == j && j < self@.len(),
                None => r is None,
            },
    {
        self.last_before(self.defs.len(), name, nodeid)
    }

    /// Fixture override: the next less specific visible definition of `name`,
    /// below `current` (a fixture requesting its own name). There is none
    /// when `current` is no definition of `name`.
    pub fn lookup_overridden(&self, name: &str, nodeid: &str, current: usize) -> (r: Option<usize>)
        ensures
            if current < self@.len() && self@[current as int].name@ == name@ {
                match last_serving(self@, current as int, name@, nodeid@) {
                    Some(i) => r matches Some(j) && i == j && j < current,
                    None => r is None,
                }
            } else {
                r is None
            },
    {
        if current >= self.defs.len() || !same(self.defs[current].name.as_str(), name) {
            return None;
        }
        self.last_before(current, name, nodeid)
    }

    /// Whether definition `i` is the last of its name that applies by itself.
    fn is_autouse_pick(&self, nodeid: &str, i: usize) -> (r: bool)
        requires
            i < self@.len(),
        ensures
            r == autouse_pick(self@, nodeid@, i as int),
    {
        let def = &self.defs[i];
        if !def.autouse || !starts_with(nodeid, def.baseid.as_str()) {
            return false;
        }
        let n: usize = self.defs.len();
        let mut j: usize = i + 1;
        while j < n
            invariant
                i < j <= n == self@.len(),
                def == self@[i as int],
                applies(*def, nodeid@),
                forall|k: int|
                    i < k < j && self@[k].name@ == def.name@ ==> !applies(
                        #[trigger] self@[k],
                        nodeid@,
                    ),
            decreases n - j,
        {
            let other = &self.defs[j];
            if same(other.name.as_str(), def.name.as_str()) && other.autouse && starts_with(
                nodeid,
                other.baseid.as_str(),
            ) {
                assert(applies(self@[j as int], nodeid@));
                return false;
            }
            j += 1;
        }
        true
    }

    /// Autouse fixtures visible from `nodeid`, most general first: wider
    /// scopes are set up before narrower ones.
    pub fn autouse_for(&self, nodeid: &str) -> (r: Vec<usize>)
        ensures
            ints(r@) == autouse_order(self@, nodeid@),
            forall|i: int| 0 <= i < r@.len() ==> #[trigger] r@[i] < self@.len(),
    {
        let n: usize = self.defs.len();
        let ghost order = autouse_relation(self@);
        let by = |a: usize, b: usize| -> (r: bool)
            requires
                a < self@.len(),
                b < self@.len(),
            ensures
                r == autouse_relation(self@)(a as int, b as int),
            { earlier(&self.defs[a], &self.defs[b]) };
        let mut r: Vec<usize> = Vec::new();
        let mut i: usize = 0;
        assert(ints(r@) =~= seq![]);
        while i < n
            invariant
                n == self@.len(),
                i <= n,
                order == autouse_relation(self@),
                forall|a: usize, b: usize| a < n && b < n ==> #[trigger] call_requires(by, (a, b)),
                forall|a: usize, b: usize, t: bool| #[trigger]
                    call_ensures(by, (a, b), t) ==> t == order(a as int, b as int),
                ints(r@) == autouse_upto(self@, nodeid@, i as int),
                forall|k: int| 0 <= k < r@.len() ==> #[trigger] r@[k] < self@.len(),
            decreases n - i,
        {
            if self.is_autouse_pick(nodeid, i) {
                place(&mut r, i, n, &by, Ghost(order));
            }
            i += 1;
        }
        r
    }

    /// The entries of `ixs` with this scope are appended to `out`.
    fn append_scope(&self, ixs: &Vec<usize>, scope: Scope, out: &mut Vec<usize>)
        requires
            forall|i: int| 0 <= i < ixs@.len() ==> #[trigger] ixs@[i] < self@.len(),
            forall|i: int| 0 <= i < old(out)@.len() ==> #[trigger] old(out)@[i] < self@.len(),
        ensures
            ints(final(out)@) == ints(old(out)@) + of_scope(self@, ints(ixs@), scope),
            forall|i: int| 0 <= i < final(out)@.len() ==> #[trigger] final(out)@[i] < self@.len(),
    {
        let ghost start = ints(out@);
        let ghost keep = |i: int| self@[i].scope == scope;
        let mut k: usize = 0;
        assert(ints(ixs@).take(0) =~= seq![]);
        assert(Seq::<int>::empty().filter(keep) =~= seq![]) by {
            reveal(Seq::filter);
        }
        assert(start + of_scope(self@, ints(ixs@).take(0), scope) =~= start);
        while k < ixs.len()
            invariant
                k <= ixs@.len(),
                keep == (|i: int| self@[i].scope == scope),
                forall|i: int| 0 <= i < ixs@.len() ==> #[trigger] ixs@[i] < self@.len(),
                forall|i: int| 0 <= i < out@.len() ==> #[trigger] out@[i] < self@.len(),
                ints(out@) == start + of_scope(self@, ints(ixs@).take(k as int), scope),
            decreases ixs@.len() - k,
        {
            proof {
                take_next(ints(ixs@), k as int);
                ints(ixs@).take(k as int).lemma_filter_push(ints(ixs@)[k as int], keep);
            }
            if self.defs[ixs[k]].scope == scope {
                let ghost before = ints(out@);
                out.push(ixs[k]);
                assert(ints(out@) =~= before.push(ixs@[k as int] as int));
                assert(ints(out@) =~= start + of_scope(self@, ints(ixs@).take(k + 1), scope));
            }
            k += 1;
        }
        assert(ints(ixs@).take(k as int) =~= ints(ixs@));
    }

    /// The fixture closure for an item: autouse and requested names come
    /// first, each fixture's own requests follow as they are discovered, then
    /// wider scopes move to the front. A name in `ignore` stays in the
    /// closure but its own requests are not followed: a directly parametrized
    /// argument shadows the fixture of that name.
    pub fn closure_ignoring(&self, nodeid: &str, requested: &[String], ignore: &[String]) -> (r: Vec<
        usize,
    >)
        ensures
            ints(r@) == closure_of(self@, nodeid@, texts(requested@), texts(ignore@)),
            forall|i: int| 0 <= i < r@.len() ==> #[trigger] r@[i] < self@.len(),
    {
        let auto = self.autouse_for(nodeid);
        let ghost auto_names = names_at(self@, ints(auto@));
        let mut names: Vec<String> = Vec::new();
        let mut k: usize = 0;
        assert(texts(names@) =~= seq![]);
        while k < auto.len()
            invariant
                k <= auto@.len(),
                auto_names == names_at(self@, ints(auto@)),
                forall|i: int| 0 <= i < auto@.len() ==> #[trigger] auto@[i] < self@.len(),
                texts(names@) == with_all(seq![], auto_names.take(k as int)),
            decreases auto@.len() - k,
        {
            proof {
                take_next(auto_names, k as int);
            }
            assert(auto_names.take(k + 1).drop_last() =~= auto_names.take(k as int));
            push_name(&mut names, self.defs[auto[k]].name.as_str());
            k += 1;
        }
        assert(auto_names.take(k as int) =~= auto_names);
        push_names(&mut names, requested);
        let ghost seeds = texts(names@);
        let ghost bound = seeds.len() + all_requests(self@, self@.len() as int).len();
        let ghost ign = texts(ignore@);
        proof {
            with_all_facts(seq![], auto_names);
            with_all_facts(with_all(seq![], auto_names), proper(texts(requested@)));
            assert(seeds == seed_names(self@, nodeid@, texts(requested@)));
        }
        let mut ordered: Vec<usize> = Vec::new();
        let mut i: usize = 0;
        assert(ints(ordered@) =~= seq![]);
        while i < names.len()
            invariant
                i <= names@.len(),
                ign == texts(ignore@),
                seeds.no_duplicates(),
                bound == seeds.len() + all_requests(self@, self@.len() as int).len(),
                texts(names@) == names_after(self@, nodeid@, ign, seeds, i as nat),
                ints(ordered@) == resolved(self@, nodeid@, texts(names@).take(i as int)),
                forall|k: int| 0 <= k < ordered@.len() ==> #[trigger] ordered@[k] < self@.len(),
            decreases bound - i,
        {
            let ghost before = texts(names@);
            proof {
                names_after_facts(self@, nodeid@, ign, seeds, i as nat);
                take_next(before, i as int);
                assert(before.take(i + 1).drop_last() =~= before.take(i as int));
            }
            match self.lookup(names[i].as_str(), nodeid) {
                Some(d) => {
                    if has_text(ignore, names[i].as_str()) {
                        assert(with_all(before, seq![]) == before);
                    } else {
                        push_names(&mut names, self.defs[d].param_names.as_slice());
                        proof {
                            with_all_facts(before, proper(texts(self@[d as int].param_names@)));
                        }
                    }
                    let ghost so_far = ints(ordered@);
                    ordered.push(d);
                    assert(ints(ordered@) =~= so_far.push(d as int));
                },
                None => {},
            }
            assert(texts(names@).take(i + 1) =~= before.take(i + 1));
            i += 1;
        }
        proof {
            names_after_facts(self@, nodeid@, ign, seeds, i as nat);
            names_settle(self@, nodeid@, ign, seeds, i as nat, bound);
            assert(texts(names@).take(i as int) =~= texts(names@));
        }
        let mut r: Vec<usize> = Vec::new();
        assert(ints(r@) =~= seq![]);
        self.append_scope(&ordered, Scope::Session, &mut r);
        self.append_scope(&ordered, Scope::Package, &mut r);
        self.append_scope(&ordered, Scope::Module, &mut r);
        self.append_scope(&ordered, Scope::Class, &mut r);
        self.append_scope(&ordered, Scope::Function, &mut r);
        assert(ints(r@) =~= widest_first(self@, ints(ordered@)));
        r
    }

    /// The transitive fixture closure for an item.
    pub fn closure_for(&self, nodeid: &str, requested: &[String]) -> (r: Vec<usize>)
        ensures
            ints(r@) == closure_of(self@, nodeid@, texts(requested@), seq![]),
            forall|i: int| 0 <= i < r@.len() ==> #[trigger] r@[i] < self@.len(),
    {
        let none: Vec<String> = Vec::new();
        assert(texts(none@) =~= seq![]);
        self.closure_ignoring(nodeid, requested, none.as_slice())
    }

    /// Where `def` stands among the definitions.
    fn find_def(&self, def: &FixtureDef) -> (r: usize)
        ensures
            r == place_of_def(self@, *def),
            r <= self@.len(),
    {
        let n: usize = self.defs.len();
        let mut k: usize = n;
        while k > 0
            invariant
                k <= n == self@.len(),
                place_of_def(self@, *def) == place_upto(self@, k as int, *def),
            decreases k,
        {
            if is_same_def(&self.defs[k - 1], def) {
                return k - 1;
            }
            k -= 1;
        }
        n
    }

    /// Appends the new ones of the definitions that `def`, at position `at`,
    /// requests.
    fn push_requested(&self, nodeid: &str, at: usize, def: &FixtureDef, order: &mut Vec<usize>)
        requires
            at <= self@.len(),
            old(order)@.no_duplicates(),
            forall|i: int| 0 <= i < old(order)@.len() ==> #[trigger] old(order)@[i] < self@.len(),
        ensures
            final(order)@.no_duplicates(),
            forall|i: int|
                0 <= i < final(order)@.len() ==> #[trigger] final(order)@[i] < self@.len(),
            old(order)@.len() <= final(order)@.len(),
            forall|i: int|
                0 <= i < old(order)@.len() ==> #[trigger] final(order)@[i] == old(order)@[i],
            forall|t: usize| #[trigger]
                final(order)@.contains(t) <==> old(order)@.contains(t) || leads_to(
                    self@,
                    nodeid@,
                    at as int,
                    *def,
                    t as int,
                ),
    {
        let ghost params = texts(def.param_names@);
        let n: usize = def.param_names.len();
        let mut i: usize = 0;
        while i < n
            invariant
                n == def.param_names@.len(),
                i <= n,
                at <= self@.len(),
                params == texts(def.param_names@),
                order@.no_duplicates(),
                forall|k: int| 0 <= k < order@.len() ==> #[trigger] order@[k] < self@.len(),
                old(order)@.len() <= order@.len(),
                forall|k: int|
                    0 <= k < old(order)@.len() ==> #[trigger] order@[k] == old(order)@[k],
                forall|t: usize| #[trigger]
                    order@.contains(t) ==> old(order)@.contains(t) || leads_to(
                        self@,
                        nodeid@,
                        at as int,
                        *def,
                        t as int,
                    ),
                forall|t: usize| #[trigger] old(order)@.contains(t) ==> order@.contains(t),
                forall|k: int, t: usize|
                    0 <= k < i && #[trigger] params[k] != "request"@ && requested_def(
                        self@,
                        nodeid@,
                        at as int,
                        *def,
                        params[k],
                    ) == Some(t as int) ==> #[trigger] order@.contains(t),
            decreases n - i,
        {
            let name = def.param_names[i].as_str();
            assert(name@ == params[i as int]);
            if !same(name, "request") {
                let target = if same(name, def.name.as_str()) {
                    self.last_before(at, name, nodeid)
                } else {
                    self.lookup(name, nodeid)
                };
                if let Some(t) = target {
                    proof {
                        assert(params.contains(name@));
                        assert(asks(*def, name@));
                        assert(leads_to(self@, nodeid@, at as int, *def, t as int));
                    }
                    push_position(order, t);
                }
            }
            i += 1;
        }
        assert forall|t: usize|
            leads_to(self@, nodeid@, at as int, *def, t as int) implies #[trigger] order@.contains(
            t,
        ) by {
            let name = choose|name: Seq<char>| #[trigger]
                asks(*def, name) && requested_def(self@, nodeid@, at as int, *def, name) == Some(
                    t as int,
                );
            let k = choose|k: int| 0 <= k < params.len() && params[k] == name;
            assert(params[k] != "request"@);
        }
    }

    /// Every argument name that `def` transitively requests, as visible from
    /// `nodeid`, with `def`'s own name first. Names without a fixture (direct
    /// parametrize arguments) are kept; `request` is skipped. Where a fixture
    /// requests its own name, the names that the definition it overrides
    /// requests are there too.
    pub fn transitive_argnames(&self, nodeid: &str, def: &FixtureDef) -> (r: Vec<String>)
        ensures
            texts(r@).no_duplicates(),
            r@.len() > 0 && r@[0]@ == def.name@,
            forall|name: Seq<char>|
                texts(r@).contains(name) <==> reached(self@, nodeid@, *def, name),
    {
        let n: usize = self.defs.len();
        let at: usize = self.find_def(def);
        let mut names: Vec<String> = Vec::new();
        names.push(def.name.clone());
        assert(texts(names@) =~= seq![def.name@]);
        let ghost first = texts(names@);
        let mut order: Vec<usize> = Vec::new();
        push_names(&mut names, def.param_names.as_slice());
        self.push_requested(nodeid, at, def, &mut order);
        proof {
            walk_starts(self@, nodeid@, *def, first, texts(names@), order@);
        }
        let mut i: usize = 0;
        proof {
            with_all_facts(first, proper(texts(def.param_names@)));
            assert(texts(names@)[0] == first[0]);
        }
        while i < order.len()
            invariant
                n == self@.len(),
                i <= order@.len(),
                order@.no_duplicates(),
                forall|k: int| 0 <= k < order@.len() ==> #[trigger] order@[k] < self@.len(),
                texts(names@).no_duplicates(),
                names@.len() > 0 && texts(names@)[0] == def.name@,
                walk_state(self@, nodeid@, *def, texts(names@), order@, i as int),
            decreases self@.len() - i,
        {
            let ghost names_before = texts(names@);
            let ghost order_before = order@;
            let t: usize = order[i];
            proof {
                distinct_below(order@, n as nat);
            }
            push_names(&mut names, self.defs[t].param_names.as_slice());
            self.push_requested(nodeid, t, &self.defs[t], &mut order);
            proof {
                with_all_facts(names_before, proper(texts(self@[t as int].param_names@)));
                assert(texts(names@)[0] == names_before[0]);
                walk_goes_on(
                    self@,
                    nodeid@,
                    *def,
                    names_before,
                    order_before,
                    i as int,
                    texts(names@),
                    order@,
                );
            }
            i += 1;
        }
        proof {
            walk_ends(self@, nodeid@, *def, texts(names@), order@);
        }
        names
    }
}

/// Whether two definitions say the same.
fn is_same_def(a: &FixtureDef, b: &FixtureDef) -> (r: bool)
    ensures
        r == same_def(*a, *b),
{
    same(a.name.as_str(), b.name.as_str()) && a.func == b.func && a.scope == b.scope && a.autouse
        == b.autouse && a.is_coroutine == b.is_coroutine && a.is_generator == b.is_generator
        && a.is_async_gen == b.is_async_gen && same_path(
        a.param_names.as_slice(),
        b.param_names.as_slice(),
    ) && same(a.baseid.as_str(), b.baseid.as_str()) && a.needs_instance == b.needs_instance
        && same_handle(a.params, b.params) && same_handle(a.ids, b.ids)
}

/// Whether two optional objects are the same.
fn same_handle(a: Option<Handle>, b: Option<Handle>) -> (r: bool)
    ensures
        r == (a == b),
{
    match (a, b) {
        (Some(x), Some(y)) => x == y,
        (None, None) => true,
        _ => false,
    }
}

/// `list` with `t` at the end, unless it is there already.
fn push_position(list: &mut Vec<usize>, t: usize)
    requires
        old(list)@.no_duplicates(),
    ensures
        final(list)@ == with_name(old(list)@, t),
        final(list)@.no_duplicates(),
        forall|x: usize| #[trigger]
            final(list)@.contains(x) <==> old(list)@.contains(x) || x == t,
{
    let n: usize = list.len();
    let mut i: usize = 0;
    while i < n
        invariant
            n == list@.len(),
            i <= n,
            list@ == old(list)@,
            list@.no_duplicates(),
            forall|k: int| 0 <= k < i ==> #[trigger] list@[k] != t,
        decreases n - i,
    {
        if list[i] == t {
            assert(list@.contains(t));
            return ;
        }
        i += 1;
    }
    let ghost before = list@;
    list.push(t);
    assert forall|x: usize| #[trigger] list@.contains(x) <==> before.contains(x) || x == t by {
        contains_split(list@, x);
        assert(list@.drop_last() =~= before);
    }
}

/// The state of a walk over the definitions that `def` uses, the first `n` of
/// which have been looked into: every name and every definition found so far
/// can be reached, and what `def` and the first `n` request has been found.
pub open spec fn walk_state(
    defs: Seq<FixtureDef>,
    nodeid: Seq<char>,
    def: FixtureDef,
    names: Seq<Seq<char>>,
    order: Seq<usize>,
    n: int,
) -> bool {
    &&& names.contains(def.name@)
    &&& forall|x: Seq<char>| #[trigger] names.contains(x) ==> reached(defs, nodeid, def, x)
    &&& forall|t: usize| #[trigger] order.contains(t) ==> uses_def(defs, nodeid, def, t as int)
    &&& forall|x: Seq<char>| #[trigger] asks(def, x) ==> names.contains(x)
    &&& forall|t: usize|
        leads_to(defs, nodeid, place_of_def(defs, def), def, t as int) ==> #[trigger] order.contains(
            t,
        )
    &&& forall|k: int, x: Seq<char>|
        0 <= k < n && #[trigger] asks(defs[order[k] as int], x) ==> names.contains(x)
    &&& forall|k: int, t: usize|
        0 <= k < n && #[trigger] leads_to(
            defs,
            nodeid,
            order[k] as int,
            defs[order[k] as int],
            t as int,
        ) ==> order.contains(t)
}

/// What names are there once the requests of a definition were appended.
proof fn requests_appended(before: Seq<Seq<char>>, d: FixtureDef)
    ensures
        before.no_duplicates() ==> with_all(before, proper(texts(d.param_names@))).no_duplicates(),
        forall|x: Seq<char>| #[trigger]
            with_all(before, proper(texts(d.param_names@))).contains(x) <==> before.contains(x)
                || asks(d, x),
{
    proper_facts(texts(d.param_names@));
    with_all_facts(before, proper(texts(d.param_names@)));
}

proof fn walk_starts(
    defs: Seq<FixtureDef>,
    nodeid: Seq<char>,
    def: FixtureDef,
    first: Seq<Seq<char>>,
    names: Seq<Seq<char>>,
    order: Seq<usize>,
)
    requires
        first == seq![def.name@],
        names == with_all(first, proper(texts(def.param_names@))),
        forall|t: usize| #[trigger]
            order.contains(t) <==> leads_to(
                defs,
                nodeid,
                place_of_def(defs, def),
                def,
                t as int,
            ),
    ensures
        names.no_duplicates(),
        walk_state(defs, nodeid, def, names, order, 0),
{
    requests_appended(first, def);
    assert(first[0] == def.name@);
    assert(first.contains(def.name@));
    assert forall|t: usize| #[trigger] order.contains(t) implies uses_def(
        defs,
        nodeid,
        def,
        t as int,
    ) by {
        let path = seq![t as int];
        assert(request_chain(defs, nodeid, def, path));
        assert(path.last() == t);
    }
}

proof fn walk_goes_on(
    defs: Seq<FixtureDef>,
    nodeid: Seq<char>,
    def: FixtureDef,
    names: Seq<Seq<char>>,
    order: Seq<usize>,
    n: int,
    names2: Seq<Seq<char>>,
    order2: Seq<usize>,
)
    requires
        walk_state(defs, nodeid, def, names, order, n),
        0 <= n < order.len() <= order2.len(),
        names.no_duplicates(),
        names2 == with_all(names, proper(texts(defs[order[n] as int].param_names@))),
        forall|i: int| 0 <= i < order.len() ==> #[trigger] order2[i] == order[i],
        forall|t: usize| #[trigger]
            order2.contains(t) <==> order.contains(t) || leads_to(
                defs,
                nodeid,
                order[n] as int,
                defs[order[n] as int],
                t as int,
            ),
    ensures
        names2.no_duplicates(),
        walk_state(defs, nodeid, def, names2, order2, n + 1),
{
    let from = order[n];
    let d = defs[from as int];
    requests_appended(names, d);
    assert(order.contains(from));
    assert(uses_def(defs, nodeid, def, from as int));
    assert forall|x: Seq<char>| #[trigger] names2.contains(x) implies reached(
        defs,
        nodeid,
        def,
        x,
    ) by {
        assert(names.contains(x) || asks(d, x));
    }
    assert forall|t: usize| #[trigger] order2.contains(t) implies uses_def(
        defs,
        nodeid,
        def,
        t as int,
    ) by {
        if !order.contains(t) {
            let path = choose|path: Seq<int>| #[trigger]
                request_chain(defs, nodeid, def, path) && path.last() == from as int;
            let longer = path.push(t as int);
            assert(longer.drop_last() =~= path);
            assert(longer[longer.len() - 2] == from as int);
            assert(request_chain(defs, nodeid, def, longer));
            assert(longer.last() == t);
        }
    }
}

/// Once every definition found was looked into, the names are just those that
/// can be reached.
proof fn walk_ends(
    defs: Seq<FixtureDef>,
    nodeid: Seq<char>,
    def: FixtureDef,
    names: Seq<Seq<char>>,
    order: Seq<usize>,
)
    requires
        walk_state(defs, nodeid, def, names, order, order.len() as int),
        defs.len() <= usize::MAX,
    ensures
        forall|x: Seq<char>| names.contains(x) <==> reached(defs, nodeid, def, x),
{
    assert forall|x: Seq<char>| reached(defs, nodeid, def, x) implies names.contains(x) by {
        if x != def.name@ && !asks(def, x) {
            let t = choose|t: int| #[trigger] uses_def(defs, nodeid, def, t) && asks(defs[t], x);
            let path = choose|path: Seq<int>| #[trigger]
                request_chain(defs, nodeid, def, path) && path.last() == t;
            chain_was_found(defs, nodeid, def, names, order, path);
            let k = choose|k: int| 0 <= k < order.len() && order[k] == t as usize;
            assert(asks(defs[order[k] as int], x));
        }
    }
}

/// A definition that is requested is one of the definitions.
proof fn requested_is_there(
    defs: Seq<FixtureDef>,
    nodeid: Seq<char>,
    at: int,
    def: FixtureDef,
    t: int,
)
    requires
        at <= defs.len(),
        leads_to(defs, nodeid, at, def, t),
    ensures
        0 <= t < defs.len(),
{
    let name = choose|name: Seq<char>| #[trigger]
        asks(def, name) && requested_def(defs, nodeid, at, def, name) == Some(t);
    last_serving_facts(defs, at, name, nodeid);
    last_serving_facts(defs, defs.len() as int, name, nodeid);
}

proof fn place_is_bounded(defs: Seq<FixtureDef>, n: int, def: FixtureDef)
    requires
        n <= defs.len(),
    ensures
        place_upto(defs, n, def) <= defs.len(),
    decreases n,
{
    if n > 0 {
        place_is_bounded(defs, n - 1, def);
    }
}

proof fn chain_was_found(
    defs: Seq<FixtureDef>,
    nodeid: Seq<char>,
    def: FixtureDef,
    names: Seq<Seq<char>>,
    order: Seq<usize>,
    path: Seq<int>,
)
    requires
        walk_state(defs, nodeid, def, names, order, order.len() as int),
        request_chain(defs, nodeid, def, path),
        defs.len() <= usize::MAX,
    ensures
        0 <= path.last() < defs.len(),
        order.contains(path.last() as usize),
    decreases path.len(),
{
    let t = path.last();
    if path.len() == 1 {
        place_is_bounded(defs, defs.len() as int, def);
        requested_is_there(defs, nodeid, place_of_def(defs, def), def, t);
        assert(leads_to(defs, nodeid, place_of_def(defs, def), def, (t as usize) as int));
    } else {
        let before = path.drop_last();
        let from = path[path.len() - 2];
        chain_was_found(defs, nodeid, def, names, order, before);
        assert(before.last() == from);
        requested_is_there(defs, nodeid, from, defs[from], t);
        let k = choose|k: int| 0 <= k < order.len() && order[k] == from as usize;
        assert(order[k] as int == from);
        assert(leads_to(
            defs,
            nodeid,
            order[k] as int,
            defs[order[k] as int],
            (t as usize) as int,
        ));
    }
}

/// What a definition requests is among all requests.
proof fn requests_in_pool(defs: Seq<FixtureDef>, n: int, i: int, x: Seq<char>)
    requires
        0 <= i < n <= defs.len(),
        texts(defs[i].param_names@).contains(x),
    ensures
        all_requests(defs, n).contains(x),
    decreases n,
{
    let before = all_requests(defs, n - 1);
    let last = texts(defs[n - 1].param_names@);
    if i == n - 1 {
        let k = choose|k: int| 0 <= k < last.len() && last[k] == x;
        assert((before + last)[before.len() + k] == x);
    } else {
        requests_in_pool(defs, n - 1, i, x);
        let k = choose|k: int| 0 <= k < before.len() && before[k] == x;
        assert((before + last)[k] == x);
    }
}

/// A definition that was found is one of the first `n` and serves the name.
pub proof fn last_serving_facts(
    defs: Seq<FixtureDef>,
    n: int,
    name: Seq<char>,
    nodeid: Seq<char>,
)
    requires
        n <= defs.len(),
    ensures
        match last_serving(defs, n, name, nodeid) {
            Some(i) => 0 <= i < n && serves(defs[i], name, nodeid) && forall|j: int|
                i < j < n ==> !serves(#[trigger] defs[j], name, nodeid),
            None => forall|j: int| 0 <= j < n ==> !serves(#[trigger] defs[j], name, nodeid),
        },
    decreases n,
{
    if n > 0 && !serves(defs[n - 1], name, nodeid) {
        last_serving_facts(defs, n - 1, name, nodeid);
    }
}

/// The names of a closure never repeat and are bounded in number.
proof fn names_after_facts(
    defs: Seq<FixtureDef>,
    nodeid: Seq<char>,
    ignore: Seq<Seq<char>>,
    seeds: Seq<Seq<char>>,
    k: nat,
)
    requires
        seeds.no_duplicates(),
    ensures
        names_after(defs, nodeid, ignore, seeds, k).no_duplicates(),
        names_after(defs, nodeid, ignore, seeds, k).len() <= seeds.len() + all_requests(
            defs,
            defs.len() as int,
        ).len(),
        forall|x: Seq<char>| #[trigger]
            names_after(defs, nodeid, ignore, seeds, k).contains(x) ==> seeds.contains(x)
                || all_requests(defs, defs.len() as int).contains(x),
    decreases k,
{
    let names = names_after(defs, nodeid, ignore, seeds, k);
    let asked = all_requests(defs, defs.len() as int);
    if k > 0 {
        names_after_facts(defs, nodeid, ignore, seeds, (k - 1) as nat);
        let before = names_after(defs, nodeid, ignore, seeds, (k - 1) as nat);
        if k - 1 < before.len() {
            let more = requests(defs, nodeid, ignore, before[k - 1]);
            with_all_facts(before, more);
            assert forall|x: Seq<char>| more.contains(x) implies asked.contains(x) by {
                last_serving_facts(defs, defs.len() as int, before[k - 1], nodeid);
                let i = found(defs, before[k - 1], nodeid)->Some_0;
                proper_facts(texts(defs[i].param_names@));
                requests_in_pool(defs, defs.len() as int, i, x);
            }
        }
    }
    let pool = seeds + asked;
    assert forall|i: int| 0 <= i < names.len() implies pool.contains(#[trigger] names[i]) by {
        assert(names.contains(names[i]));
        if seeds.contains(names[i]) {
            let j = choose|j: int| 0 <= j < seeds.len() && seeds[j] == names[i];
            assert(pool[j] == names[i]);
        } else {
            let j = choose|j: int| 0 <= j < asked.len() && asked[j] == names[i];
            assert(pool[seeds.len() + j] == names[i]);
        }
    }
    no_longer_than_pool(names, pool);
}

/// The proper names of a list are its names other than `request`.
pub proof fn proper_facts(names: Seq<Seq<char>>)
    ensures
        forall|x: Seq<char>| #[trigger]
            proper(names).contains(x) <==> names.contains(x) && x != "request"@,
    decreases names.len(),
{
    let keep = |n: Seq<char>| n != "request"@;
    if names.len() == 0 {
        assert(proper(names) =~= seq![]) by {
            reveal(Seq::filter);
        }
    } else {
        let init = names.drop_last();
        proper_facts(init);
        init.lemma_filter_push(names.last(), keep);
        assert(init.push(names.last()) =~= names);
        assert forall|x: Seq<char>| #[trigger]
            proper(names).contains(x) <==> names.contains(x) && x != "request"@ by {
            contains_split(names, x);
            assert(proper(init).contains(x) <==> init.contains(x) && x != "request"@);
            if names.last() != "request"@ {
                contains_split(proper(names), x);
                assert(proper(names).drop_last() =~= proper(init));
            }
        }
    }
}

/// Once every name has been visited, the list of names does not change.
proof fn names_settle(
    defs: Seq<FixtureDef>,
    nodeid: Seq<char>,
    ignore: Seq<Seq<char>>,
    seeds: Seq<Seq<char>>,
    i: nat,
    k: nat,
)
    requires
        i <= k,
        names_after(defs, nodeid, ignore, seeds, i).len() <= i,
    ensures
        names_after(defs, nodeid, ignore, seeds, k) == names_after(
            defs,
            nodeid,
            ignore,
            seeds,
            i,
        ),
    decreases k,
{
    if i < k {
        names_settle(defs, nodeid, ignore, seeds, i, (k - 1) as nat);
    }
}

// ---------------------------------------------------------------------------
// Laws
// ---------------------------------------------------------------------------

/// A scope's name names it, and only it.
pub proof fn scope_name_round_trip(scope: Scope, s: Seq<char>)
    ensures
        Scope::named(scope.name()) == Some(scope),
        Scope::named(s) == Some(scope) ==> s == scope.name(),
{
    reveal_strlit("function");
    reveal_strlit("class");
    reveal_strlit("module");
    reveal_strlit("package");
    reveal_strlit("session");
    assert("function"@.len() == 8);
    assert("class"@.len() == 5);
    assert("module"@.len() == 6);
    assert("package"@.len() == 7 && "package"@[0] == 'p');
    assert("session"@.len() == 7 && "session"@[0] == 's');
}

/// The definition that an item gets is the last registered one that it sees,
/// and it gets one whenever it sees one.
pub proof fn most_specific_wins(defs: Seq<FixtureDef>, name: Seq<char>, nodeid: Seq<char>)
    ensures
        match found(defs, name, nodeid) {
            Some(i) => 0 <= i < defs.len() && serves(defs[i], name, nodeid) && forall|j: int|
                i < j < defs.len() ==> !serves(#[trigger] defs[j], name, nodeid),
            None => forall|j: int| 0 <= j < defs.len() ==> !serves(#[trigger] defs[j], name, nodeid),
        },
{
    last_serving_facts(defs, defs.len() as int, name, nodeid);
}

/// A new definition is found by every item that sees it and changes nothing
/// for any other item or name.
pub proof fn registering_overrides(
    defs: Seq<FixtureDef>,
    def: FixtureDef,
    name: Seq<char>,
    nodeid: Seq<char>,
)
    ensures
        found(defs.push(def), name, nodeid) == if serves(def, name, nodeid) {
            Some(defs.len() as int)
        } else {
            found(defs, name, nodeid)
        },
{
    let longer = defs.push(def);
    assert(longer[defs.len() as int] == def);
    if !serves(def, name, nodeid) {
        shared_prefix(defs, longer, defs.len() as int, name, nodeid);
    }
}

proof fn shared_prefix(
    a: Seq<FixtureDef>,
    b: Seq<FixtureDef>,
    n: int,
    name: Seq<char>,
    nodeid: Seq<char>,
)
    requires
        n <= a.len() <= b.len(),
        forall|i: int| 0 <= i < n ==> a[i] == b[i],
    ensures
        last_serving(a, n, name, nodeid) == last_serving(b, n, name, nodeid),
    decreases n,
{
    if n > 0 {
        shared_prefix(a, b, n - 1, name, nodeid);
    }
}

/// The order of code points: nothing precedes itself, and of two different
/// texts just one precedes the other.
pub proof fn text_order_total(a: Seq<char>, b: Seq<char>)
    ensures
        a == b ==> !text_before(a, b),
        a != b ==> (text_before(a, b) <==> !text_before(b, a)),
    decreases a.len(),
{
    if a.len() > 0 && b.len() > 0 && a[0] == b[0] {
        text_order_total(a.skip(1), b.skip(1));
        if a.skip(1) == b.skip(1) {
            assert(a =~= b) by {
                assert forall|i: int| 0 <= i < a.len() implies a[i] == b[i] by {
                    if i > 0 {
                        assert(a[i] == a.skip(1)[i - 1]);
                        assert(b[i] == b.skip(1)[i - 1]);
                    }
                }
                assert(a.len() == b.len()) by {
                    assert(a.skip(1).len() == b.skip(1).len());
                }
            }
        }
    } else if a.len() == 0 && b.len() == 0 {
        assert(a =~= b);
    }
}

/// The order of code points is transitive.
pub proof fn text_order_transitive(a: Seq<char>, b: Seq<char>, c: Seq<char>)
    requires
        text_before(a, b),
        text_before(b, c),
    ensures
        text_before(a, c),
    decreases a.len(),
{
    if a.len() > 0 && a[0] == b[0] && b[0] == c[0] {
        text_order_transitive(a.skip(1), b.skip(1), c.skip(1));
    }
}

/// The entries stand in set-up order.
pub open spec fn in_order(defs: Seq<FixtureDef>, ixs: Seq<int>) -> bool {
    forall|i: int, j: int|
        0 <= i < j < ixs.len() ==> set_up_before(#[trigger] defs[ixs[i]], #[trigger] defs[ixs[j]])
}

proof fn autouse_has_an_order(defs: Seq<FixtureDef>)
    ensures
        is_order(autouse_relation(defs)),
{
    let before = autouse_relation(defs);
    assert forall|a: int, b: int| #[trigger] before(a, b) implies !before(b, a) by {
        text_order_total(defs[a].name@, defs[b].name@);
    }
    assert forall|a: int, b: int, c: int|
        !#[trigger] before(a, b) && !#[trigger] before(b, c) implies !before(a, c) by {
        let (x, y, z) = (defs[a], defs[b], defs[c]);
        text_order_total(x.name@, y.name@);
        text_order_total(y.name@, z.name@);
        text_order_total(x.name@, z.name@);
        if text_before(z.name@, y.name@) && text_before(y.name@, x.name@) {
            text_order_transitive(z.name@, y.name@, x.name@);
        }
        assert(x.scope.width() == y.scope.width() ==> x.scope == y.scope);
        assert(y.scope.width() == z.scope.width() ==> y.scope == z.scope);
    }
}

/// Autouse fixtures are set up wider scopes first, then by the length of the
/// baseid, then by name; for each name it is the most specific definition
/// that applies, and every such definition is there.
pub proof fn autouse_is_ordered(defs: Seq<FixtureDef>, nodeid: Seq<char>)
    ensures
        in_order(defs, autouse_order(defs, nodeid)),
        forall|i: int| #[trigger]
            autouse_order(defs, nodeid).contains(i) <==> autouse_pick(defs, nodeid, i),
{
    let ixs = autouse_order(defs, nodeid);
    let before = autouse_relation(defs);
    autouse_upto_facts(defs, nodeid, defs.len() as int);
    assert forall|i: int, j: int| 0 <= i < j < ixs.len() implies set_up_before(
        #[trigger] defs[ixs[i]],
        #[trigger] defs[ixs[j]],
    ) by {
        assert(before(ixs[i], ixs[j]) || (!before(ixs[j], ixs[i]) && ixs[i] < ixs[j]));
        if !before(ixs[i], ixs[j]) {
            let (x, y) = (defs[ixs[i]], defs[ixs[j]]);
            text_order_total(x.name@, y.name@);
            assert(ixs.contains(ixs[i]) && ixs.contains(ixs[j]));
            assert(autouse_pick(defs, nodeid, ixs[i]) && autouse_pick(defs, nodeid, ixs[j]));
            assert(x.name@ != y.name@);
        }
    }
}

proof fn autouse_upto_facts(defs: Seq<FixtureDef>, nodeid: Seq<char>, n: int)
    requires
        0 <= n <= defs.len(),
    ensures
        sorting::in_order(autouse_relation(defs), autouse_upto(defs, nodeid, n)),
        forall|i: int| #[trigger]
            autouse_upto(defs, nodeid, n).contains(i) <==> autouse_pick(defs, nodeid, i) && i < n,
    decreases n,
{
    if n > 0 {
        autouse_upto_facts(defs, nodeid, n - 1);
        let before = autouse_upto(defs, nodeid, n - 1);
        if autouse_pick(defs, nodeid, n - 1) {
            assert forall|k: int| 0 <= k < before.len() implies #[trigger] before[k] < n - 1 by {
                assert(before.contains(before[k]));
            }
            autouse_has_an_order(defs);
            placing_keeps_order(autouse_relation(defs), before, n - 1);
        }
    }
}

proof fn names_grow(
    defs: Seq<FixtureDef>,
    nodeid: Seq<char>,
    ignore: Seq<Seq<char>>,
    seeds: Seq<Seq<char>>,
    i: nat,
    k: nat,
)
    requires
        i <= k,
    ensures
        names_after(defs, nodeid, ignore, seeds, i).len() <= names_after(
            defs,
            nodeid,
            ignore,
            seeds,
            k,
        ).len(),
        forall|j: int|
            0 <= j < names_after(defs, nodeid, ignore, seeds, i).len() ==> #[trigger] names_after(
                defs,
                nodeid,
                ignore,
                seeds,
                k,
            )[j] == names_after(defs, nodeid, ignore, seeds, i)[j],
    decreases k,
{
    if i < k {
        names_grow(defs, nodeid, ignore, seeds, i, (k - 1) as nat);
        let before = names_after(defs, nodeid, ignore, seeds, (k - 1) as nat);
        if k - 1 < before.len() {
            with_all_facts(before, requests(defs, nodeid, ignore, before[k - 1]));
        }
    }
}

/// The names of a closure: none twice, every requested name but `request`,
/// every fixture that applies by itself, and with each name all that it
/// requests.
pub proof fn closure_is_closed(
    defs: Seq<FixtureDef>,
    nodeid: Seq<char>,
    requested: Seq<Seq<char>>,
    ignore: Seq<Seq<char>>,
)
    ensures
        ({
            let names = closure_names(defs, nodeid, ignore, seed_names(defs, nodeid, requested));
            &&& names.no_duplicates()
            &&& forall|x: Seq<char>| #[trigger]
                requested.contains(x) && x != "request"@ ==> names.contains(x)
            &&& forall|i: int| #[trigger]
                autouse_pick(defs, nodeid, i) ==> names.contains(defs[i].name@)
            &&& forall|n: Seq<char>, x: Seq<char>|
                names.contains(n) && #[trigger] requests(defs, nodeid, ignore, n).contains(x)
                    ==> names.contains(x)
        }),
{
    let auto = names_at(defs, autouse_order(defs, nodeid));
    let seeds = seed_names(defs, nodeid, requested);
    let bound = seeds.len() + all_requests(defs, defs.len() as int).len();
    let names = closure_names(defs, nodeid, ignore, seeds);
    with_all_facts(seq![], auto);
    with_all_facts(with_all(seq![], auto), proper(requested));
    proper_facts(requested);
    names_after_facts(defs, nodeid, ignore, seeds, bound);
    names_grow(defs, nodeid, ignore, seeds, 0, bound);
    assert forall|x: Seq<char>| #[trigger] seeds.contains(x) implies names.contains(x) by {
        let k = choose|k: int| 0 <= k < seeds.len() && seeds[k] == x;
        assert(names_after(defs, nodeid, ignore, seeds, 0)[k] == x);
        assert(names[k] == x);
    }
    assert forall|x: Seq<char>| #[trigger]
        requested.contains(x) && x != "request"@ implies names.contains(x) by {
        assert(proper(requested).contains(x));
        assert(seeds.contains(x));
    }
    assert forall|i: int| #[trigger] autouse_pick(defs, nodeid, i) implies names.contains(
        defs[i].name@,
    ) by {
        autouse_is_ordered(defs, nodeid);
        let order = autouse_order(defs, nodeid);
        assert(order.contains(i));
        let k = choose|k: int| 0 <= k < order.len() && order[k] == i;
        assert(auto[k] == defs[i].name@);
        assert(auto.contains(defs[i].name@));
        assert(with_all(seq![], auto).contains(defs[i].name@));
        assert(seeds.contains(defs[i].name@));
    }
    assert forall|n: Seq<char>, x: Seq<char>|
        names.contains(n) && #[trigger] requests(defs, nodeid, ignore, n).contains(
            x,
        ) implies names.contains(x) by {
        let k = choose|k: int| 0 <= k < names.len() && names[k] == n;
        let at = names_after(defs, nodeid, ignore, seeds, k as nat);
        let next = names_after(defs, nodeid, ignore, seeds, (k + 1) as nat);
        visited_in_time(defs, nodeid, ignore, seeds, k as nat, bound);
        names_grow(defs, nodeid, ignore, seeds, k as nat, bound);
        names_grow(defs, nodeid, ignore, seeds, (k + 1) as nat, bound);
        assert(at[k] == n);
        with_all_facts(at, requests(defs, nodeid, ignore, n));
        assert(next.contains(x));
        let j = choose|j: int| 0 <= j < next.len() && next[j] == x;
        assert(names[j] == x);
    }
}

/// A name that is in the list in the end is there when its turn comes.
proof fn visited_in_time(
    defs: Seq<FixtureDef>,
    nodeid: Seq<char>,
    ignore: Seq<Seq<char>>,
    seeds: Seq<Seq<char>>,
    k: nat,
    bound: nat,
)
    requires
        k < names_after(defs, nodeid, ignore, seeds, bound).len() <= bound,
    ensures
        k < names_after(defs, nodeid, ignore, seeds, k).len(),
{
    if names_after(defs, nodeid, ignore, seeds, k).len() <= k {
        names_settle(defs, nodeid, ignore, seeds, k, bound);
    }
}

proof fn of_scope_facts(defs: Seq<FixtureDef>, ixs: Seq<int>, scope: Scope)
    ensures
        forall|i: int|
            0 <= i < of_scope(defs, ixs, scope).len() ==> defs[#[trigger] of_scope(
                defs,
                ixs,
                scope,
            )[i]].scope == scope,
        forall|x: int| #[trigger]
            of_scope(defs, ixs, scope).contains(x) <==> ixs.contains(x) && defs[x].scope == scope,
    decreases ixs.len(),
{
    let keep = |i: int| defs[i].scope == scope;
    if ixs.len() == 0 {
        assert(of_scope(defs, ixs, scope) =~= seq![]) by {
            reveal(Seq::filter);
        }
    } else {
        let init = ixs.drop_last();
        of_scope_facts(defs, init, scope);
        init.lemma_filter_push(ixs.last(), keep);
        assert(init.push(ixs.last()) =~= ixs);
        let r = of_scope(defs, ixs, scope);
        assert forall|x: int| #[trigger]
            r.contains(x) <==> ixs.contains(x) && defs[x].scope == scope by {
            contains_split(ixs, x);
            if defs[ixs.last()].scope == scope {
                contains_split(r, x);
                assert(r.drop_last() =~= of_scope(defs, init, scope));
            } else {
                assert(r == of_scope(defs, init, scope));
            }
        }
        assert forall|i: int| 0 <= i < r.len() implies defs[#[trigger] r[i]].scope == scope by {
            assert(r.contains(r[i]));
        }
    }
}

/// A closure holds wider scopes before narrower ones, and moving them there
/// neither adds nor loses a definition.
pub proof fn closure_is_widest_first(defs: Seq<FixtureDef>, ixs: Seq<int>)
    ensures
        forall|i: int, j: int|
            0 <= i < j < widest_first(defs, ixs).len() ==> defs[#[trigger] widest_first(
                defs,
                ixs,
            )[i]].scope.width() >= defs[#[trigger] widest_first(defs, ixs)[j]].scope.width(),
        forall|x: int| #[trigger] widest_first(defs, ixs).contains(x) <==> ixs.contains(x),
{
    of_scope_facts(defs, ixs, Scope::Session);
    of_scope_facts(defs, ixs, Scope::Package);
    of_scope_facts(defs, ixs, Scope::Module);
    of_scope_facts(defs, ixs, Scope::Class);
    of_scope_facts(defs, ixs, Scope::Function);
    let a = of_scope(defs, ixs, Scope::Session);
    let b = of_scope(defs, ixs, Scope::Package);
    let c = of_scope(defs, ixs, Scope::Module);
    let d = of_scope(defs, ixs, Scope::Class);
    let e = of_scope(defs, ixs, Scope::Function);
    let r = widest_first(defs, ixs);
    assert forall|i: int| 0 <= i < r.len() implies defs[#[trigger] r[i]].scope == (if i < a.len() {
        Scope::Session
    } else if i < a.len() + b.len() {
        Scope::Package
    } else if i < a.len() + b.len() + c.len() {
        Scope::Module
    } else if i < a.len() + b.len() + c.len() + d.len() {
        Scope::Class
    } else {
        Scope::Function
    }) by {
        let n = a.len() as int;
        if i < n {
            assert(r[i] == a[i]);
        } else if i < n + b.len() {
            assert(r[i] == b[i - n]);
        } else if i < n + b.len() + c.len() {
            assert(r[i] == c[i - n - b.len()]);
        } else if i < n + b.len() + c.len() + d.len() {
            assert(r[i] == d[i - n - b.len() - c.len()]);
        } else {
            assert(r[i] == e[i - n - b.len() - c.len() - d.len()]);
        }
    }
    assert forall|x: int| #[trigger] r.contains(x) <==> ixs.contains(x) by {
        contains_sum(a, b, x);
        contains_sum(a + b, c, x);
        contains_sum(a + b + c, d, x);
        contains_sum(a + b + c + d, e, x);
    }
}

proof fn chain_goes_on(
    defs: Seq<FixtureDef>,
    nodeid: Seq<char>,
    def: FixtureDef,
    t: int,
    path: Seq<int>,
)
    requires
        uses_def(defs, nodeid, def, t),
        place_of_def(defs, defs[t]) == t,
        request_chain(defs, nodeid, defs[t], path),
    ensures
        uses_def(defs, nodeid, def, path.last()),
    decreases path.len(),
{
    let from = if path.len() == 1 {
        t
    } else {
        path[path.len() - 2]
    };
    if path.len() > 1 {
        chain_goes_on(defs, nodeid, def, t, path.drop_last());
    }
    let before = choose|p: Seq<int>| #[trigger]
        request_chain(defs, nodeid, def, p) && p.last() == from;
    let longer = before.push(path.last());
    assert(longer.drop_last() =~= before);
    assert(longer[longer.len() - 2] == from);
    assert(request_chain(defs, nodeid, def, longer));
    assert(longer.last() == path.last());
}

/// What a fixture requests is reached with all that it requests in turn. That
/// holds of the definition that a fixture overrides and requests by its own
/// name, too.
pub proof fn requests_are_passed_on(
    defs: Seq<FixtureDef>,
    nodeid: Seq<char>,
    def: FixtureDef,
    t: int,
    name: Seq<char>,
)
    requires
        leads_to(defs, nodeid, place_of_def(defs, def), def, t),
        place_of_def(defs, defs[t]) == t,
        reached(defs, nodeid, defs[t], name),
    ensures
        reached(defs, nodeid, def, name),
{
    let one = seq![t];
    assert(request_chain(defs, nodeid, def, one));
    assert(one.last() == t);
    assert(uses_def(defs, nodeid, def, t));
    if name == defs[t].name@ {
        let asked = choose|asked: Seq<char>| #[trigger]
            asks(def, asked) && requested_def(defs, nodeid, place_of_def(defs, def), def, asked)
                == Some(t);
        place_is_bounded(defs, defs.len() as int, def);
        last_serving_facts(defs, place_of_def(defs, def), asked, nodeid);
        last_serving_facts(defs, defs.len() as int, asked, nodeid);
        assert(name == asked);
    } else if !asks(defs[t], name) {
        let u = choose|u: int| #[trigger]
            uses_def(defs, nodeid, defs[t], u) && asks(defs[u], name);
        let path = choose|path: Seq<int>| #[trigger]
            request_chain(defs, nodeid, defs[t], path) && path.last() == u;
        chain_goes_on(defs, nodeid, def, t, path);
    }
}

/// Items at `nodeid` get definition `i` for `name`: it has that name, its
/// baseid is a prefix of the nodeid, and no later definition is such a one.
pub open spec fn gets(
    defs: Seq<FixtureDef>,
    name: Seq<char>,
    nodeid: Seq<char>,
    i: int,
) -> bool {
    &&& 0 <= i < defs.len()
    &&& defs[i].name@ == name
    &&& defs[i].baseid@.is_prefix_of(nodeid)
    &&& forall|j: int|
        i < j < defs.len() && (#[trigger] defs[j]).name@ == name
            ==> !defs[j].baseid@.is_prefix_of(nodeid)
}

/// A name is looked up as the last registered definition that has the name and
/// whose baseid the nodeid starts with; where there is one, one is found.
pub proof fn lookup_finds_the_last_visible(
    defs: Seq<FixtureDef>,
    name: Seq<char>,
    nodeid: Seq<char>,
)
    ensures
        forall|i: int| found(defs, name, nodeid) == Some(i) <==> #[trigger] gets(
            defs,
            name,
            nodeid,
            i,
        ),
        found(defs, name, nodeid) is None ==> forall|j: int|
            0 <= j < defs.len() && (#[trigger] defs[j]).name@ == name
                ==> !defs[j].baseid@.is_prefix_of(nodeid),
{
    last_serving_facts(defs, defs.len() as int, name, nodeid);
    assert forall|i: int| found(defs, name, nodeid) == Some(i) <==> #[trigger] gets(
        defs,
        name,
        nodeid,
        i,
    ) by {
        match found(defs, name, nodeid) {
            Some(k) => {
                assert(serves(defs[k], name, nodeid));
                if gets(defs, name, nodeid, i) {
                    assert(serves(defs[i], name, nodeid));
                }
            },
            None => {
                if gets(defs, name, nodeid, i) {
                    assert(serves(defs[i], name, nodeid));
                }
            },
        }
    }
}

/// What a definition overrides is the last one before it that has the name and
/// whose baseid the nodeid starts with.
pub proof fn overridden_is_the_last_before(
    defs: Seq<FixtureDef>,
    current: int,
    name: Seq<char>,
    nodeid: Seq<char>,
)
    requires
        0 <= current <= defs.len(),
    ensures
        match last_serving(defs, current, name, nodeid) {
            Some(i) => 0 <= i < current && defs[i].name@ == name && defs[i].baseid@.is_prefix_of(
                nodeid,
            ) && forall|j: int|
                i < j < current && (#[trigger] defs[j]).name@ == name
                    ==> !defs[j].baseid@.is_prefix_of(nodeid),
            None => forall|j: int|
                0 <= j < current && (#[trigger] defs[j]).name@ == name
                    ==> !defs[j].baseid@.is_prefix_of(nodeid),
        },
{
    last_serving_facts(defs, current, name, nodeid);
    assert forall|j: int|
        0 <= j < current && (#[trigger] defs[j]).name@ == name && defs[j].baseid@.is_prefix_of(
            nodeid,
        ) implies serves(defs[j], name, nodeid) by {}
}

/// Which fixtures apply by themselves: for each name the last definition that is
/// marked so and whose baseid the nodeid starts with, every such one and no
/// other. Wider scopes stand before narrower ones, and within a scope shorter
/// baseids before longer ones.
pub proof fn autouse_applies_where_marked(defs: Seq<FixtureDef>, nodeid: Seq<char>)
    ensures
        forall|i: int| #[trigger]
            autouse_order(defs, nodeid).contains(i) <==> 0 <= i < defs.len() && defs[i].autouse
                && defs[i].baseid@.is_prefix_of(nodeid) && forall|j: int|
                i < j < defs.len() && (#[trigger] defs[j]).name@ == defs[i].name@
                    && defs[j].autouse ==> !defs[j].baseid@.is_prefix_of(nodeid),
        forall|a: int, b: int|
            0 <= a < b < autouse_order(defs, nodeid).len() ==> {
                let x = defs[#[trigger] autouse_order(defs, nodeid)[a]];
                let y = defs[#[trigger] autouse_order(defs, nodeid)[b]];
                &&& x.scope == Scope::Function ==> y.scope == Scope::Function
                &&& x.scope == Scope::Class ==> y.scope == Scope::Function || y.scope
                    == Scope::Class
                &&& x.scope == Scope::Package ==> y.scope != Scope::Session
                &&& x.scope == Scope::Module ==> y.scope != Scope::Session && y.scope
                    != Scope::Package
                &&& x.scope == y.scope ==> byte_len(x.baseid@) <= byte_len(y.baseid@)
                &&& x.scope == y.scope && byte_len(x.baseid@) == byte_len(y.baseid@)
                    ==> text_before(x.name@, y.name@)
            },
{
    autouse_is_ordered(defs, nodeid);
    assert forall|i: int| #[trigger] autouse_pick(defs, nodeid, i) <==> 0 <= i < defs.len()
        && defs[i].autouse && defs[i].baseid@.is_prefix_of(nodeid) && forall|j: int|
        i < j < defs.len() && (#[trigger] defs[j]).name@ == defs[i].name@ && defs[j].autouse
            ==> !defs[j].baseid@.is_prefix_of(nodeid) by {
        if 0 <= i < defs.len() && defs[i].autouse && defs[i].baseid@.is_prefix_of(nodeid) && forall|
            j: int,
        |
            i < j < defs.len() && (#[trigger] defs[j]).name@ == defs[i].name@ && defs[j].autouse
                ==> !defs[j].baseid@.is_prefix_of(nodeid) {
            assert(autouse_pick(defs, nodeid, i));
        }
        if autouse_pick(defs, nodeid, i) {
            assert forall|j: int|
                i < j < defs.len() && (#[trigger] defs[j]).name@ == defs[i].name@
                    && defs[j].autouse implies !defs[j].baseid@.is_prefix_of(nodeid) by {
                assert(!applies(defs[j], nodeid));
            }
        }
    }
    let order = autouse_order(defs, nodeid);
    assert forall|a: int, b: int| 0 <= a < b < order.len() implies set_up_before(
        defs[#[trigger] order[a]],
        defs[#[trigger] order[b]],
    ) by {}
}

/// Scopes from the widest to the narrowest: the session, a package, a module, a
/// class, a function.
pub proof fn scopes_are_ordered()
    ensures
        Scope::Session.width() > Scope::Package.width(),
        Scope::Package.width() > Scope::Module.width(),
        Scope::Module.width() > Scope::Class.width(),
        Scope::Class.width() > Scope::Function.width(),
{
}

proof fn resolved_facts(defs: Seq<FixtureDef>, nodeid: Seq<char>, names: Seq<Seq<char>>)
    ensures
        forall|i: int| #[trigger]
            resolved(defs, nodeid, names).contains(i) <==> exists|k: int|
                0 <= k < names.len() && gets(defs, #[trigger] names[k], nodeid, i),
        names.no_duplicates() ==> resolved(defs, nodeid, names).no_duplicates(),
    decreases names.len(),
{
    let r = resolved(defs, nodeid, names);
    if names.len() > 0 {
        let init = names.drop_last();
        let before = resolved(defs, nodeid, init);
        resolved_facts(defs, nodeid, init);
        lookup_finds_the_last_visible(defs, names.last(), nodeid);
        assert forall|i: int| #[trigger] r.contains(i) <==> exists|k: int|
            0 <= k < names.len() && gets(defs, #[trigger] names[k], nodeid, i) by {
            if r.contains(i) {
                if before.contains(i) {
                    let k = choose|k: int|
                        0 <= k < init.len() && gets(defs, #[trigger] init[k], nodeid, i);
                    assert(gets(defs, names[k], nodeid, i));
                } else {
                    contains_split(r, i);
                    assert(r.drop_last() =~= before);
                    assert(gets(defs, names[names.len() - 1], nodeid, i));
                }
            }
            if exists|k: int|
                0 <= k < names.len() && gets(defs, #[trigger] names[k], nodeid, i) {
                let k = choose|k: int|
                    0 <= k < names.len() && gets(defs, #[trigger] names[k], nodeid, i);
                if k < init.len() {
                    assert(gets(defs, init[k], nodeid, i));
                    assert(before.contains(i));
                    let at = choose|at: int| 0 <= at < before.len() && before[at] == i;
                    assert(r[at] == i);
                } else {
                    assert(found(defs, names.last(), nodeid) == Some(i));
                    assert(r[before.len() as int] == i);
                }
            }
        }
        if names.no_duplicates() {
            assert(init.no_duplicates());
            if found(defs, names.last(), nodeid) is Some {
                let i = found(defs, names.last(), nodeid)->0;
                assert(gets(defs, names.last(), nodeid, i));
                if before.contains(i) {
                    let k = choose|k: int|
                        0 <= k < init.len() && gets(defs, #[trigger] init[k], nodeid, i);
                    assert(names[k] == names[names.len() - 1]);
                }
                assert forall|a: int, b: int| 0 <= a < b < r.len() implies r[a] != r[b] by {
                    assert(before.contains(r[a])) by {
                        assert(before[a] == r[a]);
                    }
                    if b < before.len() {
                        assert(before[b] == r[b]);
                    }
                }
            }
        }
    }
}

/// What a fixture closure holds. A fixture that is requested, or that applies by
/// itself, is there, and with each fixture there are all that its parameters
/// name, unless its name is one to ignore; `request` is no fixture. No fixture
/// is there twice.
pub proof fn closure_follows_parameters(
    defs: Seq<FixtureDef>,
    nodeid: Seq<char>,
    requested: Seq<Seq<char>>,
    ignore: Seq<Seq<char>>,
)
    ensures
        closure_of(defs, nodeid, requested, ignore).no_duplicates(),
        forall|x: Seq<char>, i: int|
            requested.contains(x) && x != "request"@ && #[trigger] gets(defs, x, nodeid, i)
                ==> closure_of(defs, nodeid, requested, ignore).contains(i),
        forall|a: int, i: int|
            0 <= a < defs.len() && (#[trigger] defs[a]).autouse && defs[a].baseid@.is_prefix_of(
                nodeid,
            ) && #[trigger] gets(defs, defs[a].name@, nodeid, i) ==> closure_of(
                defs,
                nodeid,
                requested,
                ignore,
            ).contains(i),
        forall|i: int, p: int, t: int|
            #![trigger defs[i].param_names@[p], closure_of(
                defs,
                nodeid,
                requested,
                ignore,
            ).contains(t)]
            closure_of(defs, nodeid, requested, ignore).contains(i) && !ignore.contains(
                defs[i].name@,
            ) && 0 <= p < defs[i].param_names@.len() && defs[i].param_names@[p]@ != "request"@
                && gets(defs, defs[i].param_names@[p]@, nodeid, t) ==> closure_of(
                defs,
                nodeid,
                requested,
                ignore,
            ).contains(t),
{
    let seeds = seed_names(defs, nodeid, requested);
    let names = closure_names(defs, nodeid, ignore, seeds);
    let ixs = resolved(defs, nodeid, names);
    let r = closure_of(defs, nodeid, requested, ignore);
    closure_is_closed(defs, nodeid, requested, ignore);
    closure_is_widest_first(defs, ixs);
    resolved_facts(defs, nodeid, names);
    moving_keeps_apart(defs, ixs);
    assert forall|x: Seq<char>, i: int|
        names.contains(x) && #[trigger] gets(defs, x, nodeid, i) implies r.contains(i) by {
        let k = choose|k: int| 0 <= k < names.len() && names[k] == x;
        assert(gets(defs, names[k], nodeid, i));
        assert(ixs.contains(i));
    }
    assert forall|x: Seq<char>, i: int|
        requested.contains(x) && x != "request"@ && #[trigger] gets(
            defs,
            x,
            nodeid,
            i,
        ) implies r.contains(i) by {
        assert(names.contains(x));
    }
    assert forall|a: int, i: int|
        0 <= a < defs.len() && (#[trigger] defs[a]).autouse && defs[a].baseid@.is_prefix_of(nodeid)
            && #[trigger] gets(defs, defs[a].name@, nodeid, i) implies r.contains(i) by {
        let b = last_autouse(defs, nodeid, a);
        assert(autouse_pick(defs, nodeid, b));
        assert(names.contains(defs[b].name@));
    }
    assert forall|i: int, p: int, t: int|
        #![trigger defs[i].param_names@[p], r.contains(t)]
        r.contains(i) && !ignore.contains(defs[i].name@) && 0 <= p < defs[i].param_names@.len()
            && defs[i].param_names@[p]@ != "request"@ && gets(
            defs,
            defs[i].param_names@[p]@,
            nodeid,
            t,
        ) implies r.contains(t) by {
        assert(ixs.contains(i));
        let k = choose|k: int|
            0 <= k < names.len() && gets(defs, #[trigger] names[k], nodeid, i);
        let x = defs[i].param_names@[p]@;
        lookup_finds_the_last_visible(defs, names[k], nodeid);
        assert(found(defs, names[k], nodeid) == Some(i));
        let params = texts(defs[i].param_names@);
        assert(params[p] == x);
        assert(params.contains(x));
        proper_facts(params);
        assert(requests(defs, nodeid, ignore, names[k]).contains(x));
        assert(names.contains(names[k]));
        assert(names.contains(x));
    }
}

/// The last definition of the name of definition `a` that applies by itself.
proof fn last_autouse(defs: Seq<FixtureDef>, nodeid: Seq<char>, a: int) -> (b: int)
    requires
        0 <= a < defs.len(),
        applies(defs[a], nodeid),
    ensures
        autouse_pick(defs, nodeid, b),
        defs[b].name@ == defs[a].name@,
    decreases defs.len() - a,
{
    if autouse_pick(defs, nodeid, a) {
        a
    } else {
        let j = choose|j: int|
            a < j < defs.len() && (#[trigger] defs[j]).name@ == defs[a].name@ && applies(
                defs[j],
                nodeid,
            );
        last_autouse(defs, nodeid, j)
    }
}

proof fn of_scope_apart(defs: Seq<FixtureDef>, ixs: Seq<int>, scope: Scope)
    requires
        ixs.no_duplicates(),
    ensures
        of_scope(defs, ixs, scope).no_duplicates(),
    decreases ixs.len(),
{
    let keep = |i: int| defs[i].scope == scope;
    let r = of_scope(defs, ixs, scope);
    if ixs.len() == 0 {
        assert(r =~= seq![]) by {
            reveal(Seq::filter);
        }
    } else {
        let init = ixs.drop_last();
        let before = of_scope(defs, init, scope);
        of_scope_apart(defs, init, scope);
        of_scope_facts(defs, init, scope);
        init.lemma_filter_push(ixs.last(), keep);
        assert(init.push(ixs.last()) =~= ixs);
        if before.contains(ixs.last()) {
            let k = choose|k: int| 0 <= k < init.len() && init[k] == ixs.last();
            assert(ixs[k] == ixs[ixs.len() - 1]);
        }
        assert forall|a: int, b: int| 0 <= a < b < r.len() implies r[a] != r[b] by {
            assert(before.contains(before[a]));
        }
    }
}

proof fn moving_keeps_apart(defs: Seq<FixtureDef>, ixs: Seq<int>)
    ensures
        ixs.no_duplicates() ==> widest_first(defs, ixs).no_duplicates(),
{
    if ixs.no_duplicates() {
        let a = of_scope(defs, ixs, Scope::Session);
        let b = of_scope(defs, ixs, Scope::Package);
        let c = of_scope(defs, ixs, Scope::Module);
        let d = of_scope(defs, ixs, Scope::Class);
        let e = of_scope(defs, ixs, Scope::Function);
        of_scope_apart(defs, ixs, Scope::Session);
        of_scope_apart(defs, ixs, Scope::Package);
        of_scope_apart(defs, ixs, Scope::Module);
        of_scope_apart(defs, ixs, Scope::Class);
        of_scope_apart(defs, ixs, Scope::Function);
        of_scope_facts(defs, ixs, Scope::Session);
        of_scope_facts(defs, ixs, Scope::Package);
        of_scope_facts(defs, ixs, Scope::Module);
        of_scope_facts(defs, ixs, Scope::Class);
        of_scope_facts(defs, ixs, Scope::Function);
        let ab = a + b;
        let abc = ab + c;
        let abcd = abc + d;
        assert forall|i: int, j: int| 0 <= i < ab.len() && 0 <= j < ab.len() && i != j implies ab[i]
            != ab[j] by {}
        assert forall|i: int| 0 <= i < ab.len() implies defs[#[trigger] ab[i]].scope.width() >= 3 by {}
        assert forall|i: int, j: int|
            0 <= i < abc.len() && 0 <= j < abc.len() && i != j implies abc[i] != abc[j] by {}
        assert forall|i: int| 0 <= i < abc.len() implies defs[#[trigger] abc[i]].scope.width()
            >= 2 by {}
        assert forall|i: int, j: int|
            0 <= i < abcd.len() && 0 <= j < abcd.len() && i != j implies abcd[i] != abcd[j] by {}
        assert forall|i: int| 0 <= i < abcd.len() implies defs[#[trigger] abcd[i]].scope.width()
            >= 1 by {}
        let all = abcd + e;
        assert forall|i: int, j: int|
            0 <= i < all.len() && 0 <= j < all.len() && i != j implies all[i] != all[j] by {}
    }
}

/// Each name of the closure but the first `start` comes from an earlier one: it
/// is a parameter of the fixture of that name, which is none to ignore. `from`
/// says which; the names stand in the order in which they are found.
pub open spec fn found_in_turn(
    defs: Seq<FixtureDef>,
    nodeid: Seq<char>,
    ignore: Seq<Seq<char>>,
    start: int,
    names: Seq<Seq<char>>,
    from: Seq<int>,
) -> bool {
    &&& from.len() == names.len()
    &&& forall|k: int|
        start <= k < names.len() ==> {
            let f = #[trigger] from[k];
            &&& 0 <= f < k
            &&& !ignore.contains(names[f])
            &&& names[k] != "request"@
            &&& exists|i: int| #[trigger]
                gets(defs, names[f], nodeid, i) && texts(defs[i].param_names@).contains(names[k])
        }
    &&& forall|j: int, k: int|
        start <= j <= k < names.len() ==> #[trigger] from[j] <= #[trigger] from[k]
}

/// Nothing is in a closure without a reason: its names are those that apply by
/// themselves and that are requested, then the parameters of the fixtures
/// before, in the order in which they are found.
pub proof fn closure_names_have_a_reason(
    defs: Seq<FixtureDef>,
    nodeid: Seq<char>,
    requested: Seq<Seq<char>>,
    ignore: Seq<Seq<char>>,
) -> (from: Seq<int>)
    ensures
        ({
            let seeds = seed_names(defs, nodeid, requested);
            let names = closure_names(defs, nodeid, ignore, seeds);
            &&& seeds.len() <= names.len()
            &&& forall|k: int|
                0 <= k < seeds.len() ==> #[trigger] names[k] == seeds[k] && (requested.contains(
                    names[k],
                ) && names[k] != "request"@ || exists|a: int|
                    0 <= a < defs.len() && (#[trigger] defs[a]).autouse
                        && defs[a].baseid@.is_prefix_of(nodeid) && defs[a].name@ == names[k])
            &&& found_in_turn(defs, nodeid, ignore, seeds.len() as int, names, from)
            &&& forall|i: int| #[trigger]
                closure_of(defs, nodeid, requested, ignore).contains(i) <==> exists|k: int|
                    0 <= k < names.len() && gets(defs, #[trigger] names[k], nodeid, i)
        }),
{
    let auto = names_at(defs, autouse_order(defs, nodeid));
    let seeds = seed_names(defs, nodeid, requested);
    let bound = seeds.len() + all_requests(defs, defs.len() as int).len();
    let names = closure_names(defs, nodeid, ignore, seeds);
    with_all_facts(seq![], auto);
    with_all_facts(with_all(seq![], auto), proper(requested));
    proper_facts(requested);
    names_grow(defs, nodeid, ignore, seeds, 0, bound);
    assert forall|k: int| 0 <= k < seeds.len() implies #[trigger] names[k] == seeds[k] && (
    requested.contains(names[k]) && names[k] != "request"@ || exists|a: int|
        0 <= a < defs.len() && (#[trigger] defs[a]).autouse && defs[a].baseid@.is_prefix_of(nodeid)
            && defs[a].name@ == names[k]) by {
        assert(names_after(defs, nodeid, ignore, seeds, 0)[k] == seeds[k]);
        assert(seeds.contains(seeds[k]));
        if auto.contains(seeds[k]) {
            let at = choose|at: int| 0 <= at < auto.len() && auto[at] == seeds[k];
            let a = autouse_order(defs, nodeid)[at];
            autouse_is_ordered(defs, nodeid);
            assert(autouse_order(defs, nodeid).contains(a));
            assert(autouse_pick(defs, nodeid, a));
            assert(defs[a].name@ == names[k]);
        }
    }
    closure_is_widest_first(defs, resolved(defs, nodeid, names));
    resolved_facts(defs, nodeid, names);
    names_are_found(defs, nodeid, ignore, seeds, bound)
}

proof fn names_are_found(
    defs: Seq<FixtureDef>,
    nodeid: Seq<char>,
    ignore: Seq<Seq<char>>,
    seeds: Seq<Seq<char>>,
    n: nat,
) -> (from: Seq<int>)
    ensures
        found_in_turn(
            defs,
            nodeid,
            ignore,
            seeds.len() as int,
            names_after(defs, nodeid, ignore, seeds, n),
            from,
        ),
        seeds.len() <= names_after(defs, nodeid, ignore, seeds, n).len(),
        forall|k: int| seeds.len() <= k < from.len() ==> #[trigger] from[k] < n,
    decreases n,
{
    if n == 0 {
        Seq::new(seeds.len(), |i: int| 0)
    } else {
        let before = names_after(defs, nodeid, ignore, seeds, (n - 1) as nat);
        let earlier = names_are_found(defs, nodeid, ignore, seeds, (n - 1) as nat);
        let names = names_after(defs, nodeid, ignore, seeds, n);
        if n - 1 < before.len() {
            let asker = before[n - 1];
            let more = requests(defs, nodeid, ignore, asker);
            with_all_facts(before, more);
            lookup_finds_the_last_visible(defs, asker, nodeid);
            let from = Seq::new(
                names.len(),
                |k: int|
                    if k < before.len() {
                        earlier[k]
                    } else {
                        n - 1
                    },
            );
            assert forall|k: int| seeds.len() <= k < names.len() implies {
                let f = #[trigger] from[k];
                &&& 0 <= f < k
                &&& !ignore.contains(names[f])
                &&& names[k] != "request"@
                &&& exists|i: int| #[trigger]
                    gets(defs, names[f], nodeid, i) && texts(defs[i].param_names@).contains(
                        names[k],
                    )
            } by {
                if k < before.len() {
                    let f = earlier[k];
                    assert(names[f] == before[f] && names[k] == before[k]);
                    let i = choose|i: int| #[trigger]
                        gets(defs, before[f], nodeid, i) && texts(defs[i].param_names@).contains(
                            before[k],
                        );
                    assert(gets(defs, names[f], nodeid, i));
                } else {
                    fresh_names(before, more, k);
                    assert(more.contains(names[k]));
                    let i = found(defs, asker, nodeid)->0;
                    proper_facts(texts(defs[i].param_names@));
                    assert(names[n - 1] == asker);
                    assert(gets(defs, names[n - 1], nodeid, i));
                }
            }
            assert forall|j: int, k: int| seeds.len() <= j <= k < names.len() implies
                #[trigger] from[j] <= #[trigger] from[k] by {
                if k < before.len() {
                    assert(earlier[j] <= earlier[k]);
                }
            }
            from
        } else {
            earlier
        }
    }
}

/// What is added to a list of names is new to it and one of those to add.
proof fn fresh_names(names: Seq<Seq<char>>, more: Seq<Seq<char>>, k: int)
    requires
        names.len() <= k < with_all(names, more).len(),
    ensures
        more.contains(with_all(names, more)[k]),
    decreases more.len(),
{
    if more.len() > 0 {
        let init = more.drop_last();
        let before = with_all(names, init);
        if k < before.len() {
            fresh_names(names, init, k);
            let j = choose|j: int| 0 <= j < init.len() && init[j] == before[k];
            assert(more[j] == before[k]);
        } else {
            assert(more[more.len() - 1] == with_all(names, more)[k]);
        }
    }
}

/// Within a scope a closure keeps the order in which its names are found: of two
/// fixtures of one scope the one whose name is found first comes first.
pub proof fn closure_keeps_order_within_a_scope(
    defs: Seq<FixtureDef>,
    nodeid: Seq<char>,
    requested: Seq<Seq<char>>,
    ignore: Seq<Seq<char>>,
    a: int,
    b: int,
    i: int,
    j: int,
) -> (at: (int, int))
    requires
        ({
            let names = closure_names(defs, nodeid, ignore, seed_names(defs, nodeid, requested));
            0 <= a < b < names.len() && gets(defs, names[a], nodeid, i) && gets(
                defs,
                names[b],
                nodeid,
                j,
            )
        }),
        defs[i].scope == defs[j].scope,
    ensures
        0 <= at.0 < at.1 < closure_of(defs, nodeid, requested, ignore).len(),
        closure_of(defs, nodeid, requested, ignore)[at.0] == i,
        closure_of(defs, nodeid, requested, ignore)[at.1] == j,
{
    let names = closure_names(defs, nodeid, ignore, seed_names(defs, nodeid, requested));
    let ixs = resolved(defs, nodeid, names);
    let (p, q) = resolved_keeps_order(defs, nodeid, names, a, b, i, j);
    let (u, v) = of_scope_keeps_order(defs, ixs, defs[i].scope, p, q);
    let s1 = of_scope(defs, ixs, Scope::Session);
    let s2 = of_scope(defs, ixs, Scope::Package);
    let s3 = of_scope(defs, ixs, Scope::Module);
    let s4 = of_scope(defs, ixs, Scope::Class);
    let n: nat = match defs[i].scope {
        Scope::Session => 0nat,
        Scope::Package => s1.len(),
        Scope::Module => s1.len() + s2.len(),
        Scope::Class => s1.len() + s2.len() + s3.len(),
        Scope::Function => s1.len() + s2.len() + s3.len() + s4.len(),
    };
    let part = of_scope(defs, ixs, defs[i].scope);
    let r = widest_first(defs, ixs);
    assert(r[n + u] == part[u]);
    assert(r[n + v] == part[v]);
    (n + u, n + v)
}

proof fn resolved_keeps_order(
    defs: Seq<FixtureDef>,
    nodeid: Seq<char>,
    names: Seq<Seq<char>>,
    a: int,
    b: int,
    i: int,
    j: int,
) -> (at: (int, int))
    requires
        0 <= a < b < names.len(),
        gets(defs, names[a], nodeid, i),
        gets(defs, names[b], nodeid, j),
    ensures
        0 <= at.0 < at.1 < resolved(defs, nodeid, names).len(),
        resolved(defs, nodeid, names)[at.0] == i,
        resolved(defs, nodeid, names)[at.1] == j,
    decreases names.len(),
{
    let init = names.drop_last();
    let before = resolved(defs, nodeid, init);
    let r = resolved(defs, nodeid, names);
    lookup_finds_the_last_visible(defs, names.last(), nodeid);
    if b < init.len() {
        let (p, q) = resolved_keeps_order(defs, nodeid, init, a, b, i, j);
        assert(r[p] == before[p] && r[q] == before[q]);
        (p, q)
    } else {
        resolved_facts(defs, nodeid, init);
        assert(gets(defs, init[a], nodeid, i));
        assert(before.contains(i));
        let p = choose|p: int| 0 <= p < before.len() && before[p] == i;
        assert(found(defs, names.last(), nodeid) == Some(j));
        assert(r[before.len() as int] == j);
        assert(r[p] == i);
        (p, before.len() as int)
    }
}

proof fn of_scope_keeps_order(
    defs: Seq<FixtureDef>,
    ixs: Seq<int>,
    scope: Scope,
    p: int,
    q: int,
) -> (at: (int, int))
    requires
        0 <= p < q < ixs.len(),
        defs[ixs[p]].scope == scope,
        defs[ixs[q]].scope == scope,
    ensures
        0 <= at.0 < at.1 < of_scope(defs, ixs, scope).len(),
        of_scope(defs, ixs, scope)[at.0] == ixs[p],
        of_scope(defs, ixs, scope)[at.1] == ixs[q],
    decreases ixs.len(),
{
    let keep = |i: int| defs[i].scope == scope;
    let init = ixs.drop_last();
    let before = of_scope(defs, init, scope);
    let r = of_scope(defs, ixs, scope);
    init.lemma_filter_push(ixs.last(), keep);
    assert(init.push(ixs.last()) =~= ixs);
    if q < init.len() {
        let (u, v) = of_scope_keeps_order(defs, init, scope, p, q);
        assert(r[u] == before[u] && r[v] == before[v]);
        (u, v)
    } else {
        of_scope_facts(defs, init, scope);
        assert(init[p] == ixs[p]);
        assert(init.contains(ixs[p]));
        assert(before.contains(ixs[p]));
        let u = choose|u: int| 0 <= u < before.len() && before[u] == ixs[p];
        assert(r[u] == ixs[p]);
        assert(r[before.len() as int] == ixs[q]);
        (u, before.len() as int)
    }
}

/// What a fixture transitively asks for, in terms of parameter lists: its own
/// name and its parameters but `request`, and with a fixture that a parameter
/// stands for all its parameters, too.
pub proof fn argnames_follow_parameters(
    defs: Seq<FixtureDef>,
    nodeid: Seq<char>,
    def: FixtureDef,
    p: int,
    t: int,
    q: int,
)
    requires
        place_of_def(defs, def) <= defs.len(),
        0 <= p < def.param_names@.len(),
        def.param_names@[p]@ != "request"@,
        def.param_names@[p]@ != def.name@,
        gets(defs, def.param_names@[p]@, nodeid, t),
        0 <= q < defs[t].param_names@.len(),
        defs[t].param_names@[q]@ != "request"@,
    ensures
        reached(defs, nodeid, def, def.name@),
        reached(defs, nodeid, def, def.param_names@[p]@),
        reached(defs, nodeid, def, defs[t].param_names@[q]@),
{
    let name = def.param_names@[p]@;
    assert(texts(def.param_names@)[p] == name);
    assert(asks(def, name));
    lookup_finds_the_last_visible(defs, name, nodeid);
    assert(requested_def(defs, nodeid, place_of_def(defs, def), def, name) == Some(t));
    assert(leads_to(defs, nodeid, place_of_def(defs, def), def, t));
    let one = seq![t];
    assert(request_chain(defs, nodeid, def, one));
    assert(one.last() == t);
    assert(uses_def(defs, nodeid, def, t));
    assert(texts(defs[t].param_names@)[q] == defs[t].param_names@[q]@);
    assert(asks(defs[t], defs[t].param_names@[q]@));
}

/// The scopes by name.
pub proof fn scopes_have_names()
    ensures
        Scope::Function.name() == "function"@,
        Scope::Class.name() == "class"@,
        Scope::Module.name() == "module"@,
        Scope::Package.name() == "package"@,
        Scope::Session.name() == "session"@,
{
}

/// Names are ordered by the code points of their characters: the first difference
/// decides, and a name stands before a longer one that starts with it.
pub proof fn names_are_ordered_by_code_points(
    shared: Seq<char>,
    x: char,
    a: Seq<char>,
    y: char,
    b: Seq<char>,
)
    ensures
        (x as int) < (y as int) ==> text_before(shared + (seq![x] + a), shared + (seq![y] + b)),
        text_before(shared, shared + (seq![y] + b)),
        !text_before(shared, shared),
    decreases shared.len(),
{
    let p = shared + (seq![x] + a);
    let q = shared + (seq![y] + b);
    text_order_total(shared, shared);
    if shared.len() == 0 {
        assert(p[0] == x && q[0] == y);
    } else {
        names_are_ordered_by_code_points(shared.skip(1), x, a, y, b);
        assert(p.skip(1) =~= shared.skip(1) + (seq![x] + a));
        assert(q.skip(1) =~= shared.skip(1) + (seq![y] + b));
        assert(p[0] == q[0] && shared[0] == q[0]);
    }
}

/// What a fixture transitively asks for is nothing but its own name and parameters of
/// fixtures, and never `request` unless that is its own name.
pub proof fn argnames_are_parameters(
    defs: Seq<FixtureDef>,
    nodeid: Seq<char>,
    def: FixtureDef,
    name: Seq<char>,
)
    requires
        reached(defs, nodeid, def, name),
        name != def.name@,
    ensures
        name != "request"@,
        texts(def.param_names@).contains(name) || exists|t: int|
            #[trigger] texts(defs[t].param_names@).contains(name),
{
    if !asks(def, name) {
        let t = choose|t: int| #[trigger] uses_def(defs, nodeid, def, t) && asks(defs[t], name);
        assert(texts(defs[t].param_names@).contains(name));
    }
}

/// A fixture that asks for its own name gets the definition that it overrides, with all
/// that this one asks for.
pub proof fn own_name_means_the_overridden(
    defs: Seq<FixtureDef>,
    nodeid: Seq<char>,
    at: int,
    p: int,
    t: int,
    q: int,
)
    requires
        0 <= t < at < defs.len(),
        place_of_def(defs, defs[at]) == at,
        0 <= p < defs[at].param_names@.len(),
        defs[at].param_names@[p]@ == defs[at].name@,
        defs[at].name@ != "request"@,
        defs[t].name@ == defs[at].name@,
        defs[t].baseid@.is_prefix_of(nodeid),
        forall|j: int|
            t < j < at && (#[trigger] defs[j]).name@ == defs[at].name@
                ==> !defs[j].baseid@.is_prefix_of(nodeid),
        0 <= q < defs[t].param_names@.len(),
        defs[t].param_names@[q]@ != "request"@,
    ensures
        last_serving(defs, at, defs[at].name@, nodeid) == Some(t),
        reached(defs, nodeid, defs[at], defs[t].param_names@[q]@),
{
    let def = defs[at];
    let name = def.name@;
    last_serving_facts(defs, at, name, nodeid);
    assert(serves(defs[t], name, nodeid));
    assert(texts(def.param_names@)[p] == name);
    assert(asks(def, name));
    assert(requested_def(defs, nodeid, at, def, name) == Some(t));
    assert(leads_to(defs, nodeid, at, def, t));
    let one = seq![t];
    assert(request_chain(defs, nodeid, def, one));
    assert(one.last() == t);
    assert(uses_def(defs, nodeid, def, t));
    assert(texts(defs[t].param_names@)[q] == defs[t].param_names@[q]@);
    assert(asks(defs[t], defs[t].param_names@[q]@));
}

/// A definition is found by what it says, and of several that say the same the last one.
pub proof fn definitions_are_found_by_content(defs: Seq<FixtureDef>, i: int)
    requires
        0 <= i < defs.len(),
        forall|j: int| i < j < defs.len() ==> !same_def(#[trigger] defs[j], defs[i]),
    ensures
        place_of_def(defs, defs[i]) == i,
{
    place_is(defs, defs.len() as int, i);
}

proof fn place_is(defs: Seq<FixtureDef>, n: int, i: int)
    requires
        0 <= i < n <= defs.len(),
        forall|j: int| i < j < n ==> !same_def(#[trigger] defs[j], defs[i]),
    ensures
        place_upto(defs, n, defs[i]) == i,
    decreases n,
{
    if i < n - 1 {
        assert(!same_def(defs[n - 1], defs[i]));
        place_is(defs, n - 1, i);
    }
}

} // verus!
