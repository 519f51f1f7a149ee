//! What a module's namespace holds: which names are tests, test classes and
//! fixtures, and the items and definitions made of them.

use vstd::prelude::*;

use crate::fixture::{scope_name_round_trip, scopes_have_names, FixtureDef, Scope};
use crate::item::{MarkData, TestItem};
use crate::lists::{contains_split, copy_texts, placed_within, rising};
use crate::object::Handle;
use crate::parametrize::{append_marks, append_params, copy_marks, ParamVariant};
use crate::text::{opt_text, same, starts_with};

verus! {

/// One entry of the namespace of a module or a class.
pub struct NameEntry {
    /// The key; None when it is not a string.
    pub name: Option<String>,
    pub is_class: bool,
    pub is_callable: bool,
    /// The value carries the fixture marker.
    pub is_fixture: bool,
}

/// Something to collect from a module, by the position of its entry.
#[derive(Debug, Clone, Copy, PartialEq, Eq, Structural)]
pub enum ModuleStep {
    Class(usize),
    Test(usize),
}

/// Something to collect from a test class, by the position of its entry.
#[derive(Debug, Clone, Copy, PartialEq, Eq, Structural)]
pub enum ClassStep {
    Fixture(usize),
    Test(usize),
    /// Give the module up: the key of this entry is no string.
    BadKey(usize),
}

/// How a callable runs.
#[derive(Debug, Clone, Copy, PartialEq, Eq, Structural)]
pub struct AsyncFlags {
    pub is_coroutine: bool,
    pub is_generator: bool,
    pub is_async_gen: bool,
}

/// What the fixture marker of a callable says.
pub struct FixtureMarker {
    pub scope: String,
    pub autouse: bool,
    pub name: Option<String>,
    pub params: Option<Handle>,
    pub ids: Option<Handle>,
}

/// A test function as it was found.
pub struct TestFunction {
    pub name: String,
    pub func: Handle,
    /// The class, for a method.
    pub cls: Option<Handle>,
    pub flags: AsyncFlags,
    /// The names of the parameters, in order.
    pub param_names: Vec<String>,
    pub marks: Vec<MarkData>,
}

/// What resuming a generator fixture came to.
#[derive(Debug, Clone, Copy, PartialEq, Eq, Structural)]
pub enum Resumed {
    /// It yielded another value.
    Yielded,
    /// It raised StopIteration.
    Stopped,
    /// It raised another exception.
    Raised,
}

/// How the teardown of a generator fixture ends.
pub enum GeneratorEnd {
    Finished,
    Error(String),
    Reraise,
}

// ---------------------------------------------------------------------------
// Model
// ---------------------------------------------------------------------------

/// The name starts with `prefix`.
pub open spec fn name_starts(entry: NameEntry, prefix: Seq<char>) -> bool {
    entry.name matches Some(name) && prefix.is_prefix_of(name@)
}

/// What is collected of the first `n` entries of a module: classes named
/// `Test*`, and callables named `test_*` that are no fixtures.
pub open spec fn module_steps(entries: Seq<NameEntry>, n: int) -> Seq<ModuleStep>
    decreases n,
{
    if n <= 0 {
        seq![]
    } else {
        let before = module_steps(entries, n - 1);
        let e = entries[n - 1];
        if e.name is None {
            before
        } else if e.is_class {
            if name_starts(e, "Test"@) {
                before.push(ModuleStep::Class((n - 1) as usize))
            } else {
                before
            }
        } else if name_starts(e, "test_"@) && e.is_callable && !e.is_fixture {
            before.push(ModuleStep::Test((n - 1) as usize))
        } else {
            before
        }
    }
}

/// The fixtures among the first `n` entries of a module.
pub open spec fn fixture_entries(entries: Seq<NameEntry>, n: int) -> Seq<usize>
    decreases n,
{
    if n <= 0 {
        seq![]
    } else {
        let before = fixture_entries(entries, n - 1);
        let e = entries[n - 1];
        if e.name is Some && e.is_callable && e.is_fixture {
            before.push((n - 1) as usize)
        } else {
            before
        }
    }
}

/// What is collected of the first `n` entries of a test class: its fixtures,
/// and its other callables named `test_*`.
pub open spec fn class_steps(entries: Seq<NameEntry>, n: int) -> Seq<ClassStep>
    decreases n,
{
    if n <= 0 {
        seq![]
    } else {
        let before = class_steps(entries, n - 1);
        let e = entries[n - 1];
        if !e.is_callable {
            before
        } else if e.is_fixture {
            before.push(ClassStep::Fixture((n - 1) as usize))
        } else if name_starts(e, "test_"@) {
            before.push(ClassStep::Test((n - 1) as usize))
        } else {
            before
        }
    }
}

/// The number of entries from `n` on that come before the first one whose key
/// is no string, counted from the start of the namespace.
pub open spec fn named_until(entries: Seq<NameEntry>, n: int) -> int
    decreases entries.len() - n,
{
    if 0 <= n < entries.len() && entries[n].name is Some {
        named_until(entries, n + 1)
    } else {
        n
    }
}

/// What is done about the namespace of a test class: its entries are collected
/// in order, and the first one whose key is no string ends this with an error.
pub open spec fn class_plan(entries: Seq<NameEntry>) -> Seq<ClassStep> {
    let k = named_until(entries, 0);
    if k < entries.len() {
        class_steps(entries, k).push(ClassStep::BadKey(k as usize))
    } else {
        class_steps(entries, k)
    }
}

/// The names without a leading `self`, where an instance is passed.
pub open spec fn without_self(names: Seq<String>, instance: bool) -> Seq<String> {
    if instance && names.len() > 0 && names[0]@ == "self"@ {
        names.skip(1)
    } else {
        names
    }
}

/// The nodeid of a test.
pub open spec fn test_nodeid(
    prefix: Seq<char>,
    name: Seq<char>,
    id: Option<Seq<char>>,
) -> Seq<char> {
    match id {
        Some(id) => prefix + "::"@ + name + "["@ + id + "]"@,
        None => prefix + "::"@ + name,
    }
}

/// `item` is the item for a variant of a test function.
pub open spec fn item_for(
    prefix: Seq<char>,
    module_name: Seq<char>,
    path: Seq<String>,
    test: TestFunction,
    variant: ParamVariant,
    item: TestItem,
) -> bool {
    &&& item.nodeid@ == test_nodeid(prefix, test.name@, opt_text(variant.id))
    &&& item.path@ == path
    &&& item.module_name@ == module_name
    &&& item.func_name == test.name
    &&& item.func == test.func
    &&& item.cls == test.cls
    &&& item.is_coroutine == test.flags.is_coroutine
    &&& item.fixture_names@ == without_self(test.param_names@, test.cls is Some)
    &&& item.extra_fixture_names@.len() == 0
    &&& item.marks@ == test.marks@ + variant.extra_marks@
    &&& item.callspec@ == variant.params@
    &&& item.max_param_scope == Scope::Function
    &&& item.scope_sort_keys@.len() == 0
    &&& !item.is_doctest
    &&& item.collector_class@.len() == 0
    &&& item.func_class@.len() == 0
}

/// `def` is the definition that a marked callable makes.
pub open spec fn definition_for(
    attr_name: Seq<char>,
    marker: FixtureMarker,
    func: Handle,
    flags: AsyncFlags,
    params: Seq<String>,
    baseid: Seq<char>,
    needs_instance: bool,
    def: FixtureDef,
) -> bool {
    &&& def.name@ == (match marker.name {
        Some(name) => name@,
        None => attr_name,
    })
    &&& def.func == func
    &&& def.scope == (match Scope::named(marker.scope@) {
        Some(scope) => scope,
        None => Scope::Function,
    })
    &&& def.autouse == marker.autouse
    &&& def.is_coroutine == flags.is_coroutine
    &&& def.is_generator == flags.is_generator
    &&& def.is_async_gen == flags.is_async_gen
    &&& def.param_names@ == without_self(params, needs_instance)
    &&& def.baseid@ == baseid
    &&& def.needs_instance == needs_instance
    &&& def.params == marker.params
    &&& def.ids == marker.ids
}

// ---------------------------------------------------------------------------
// Executable functions
// ---------------------------------------------------------------------------

/// Whether the name starts with `prefix`.
fn named_like(entry: &NameEntry, prefix: &str) -> (r: bool)
    ensures
        r == name_starts(*entry, prefix@),
{
    match &entry.name {
        Some(name) => starts_with(name.as_str(), prefix),
        None => false,
    }
}

/// What to collect of a module, in the order of its namespace.
pub fn introspect_namespace(entries: &[NameEntry]) -> (r: Vec<ModuleStep>)
    ensures
        r@ == module_steps(entries@, entries@.len() as int),
{
    let mut r: Vec<ModuleStep> = Vec::new();
    let mut i: usize = 0;
    while i < entries.len()
        invariant
            i <= entries@.len(),
            r@ == module_steps(entries@, i as int),
        decreases entries@.len() - i,
    {
        let e = &entries[i];
        if e.name.is_some() {
            if e.is_class {
                if named_like(e, "Test") {
                    r.push(ModuleStep::Class(i));
                }
            } else if named_like(e, "test_") && e.is_callable && !e.is_fixture {
                r.push(ModuleStep::Test(i));
            }
        }
        i += 1;
    }
    r
}

/// The fixtures that a module defines, in the order of its namespace.
pub fn register_fixtures_from(entries: &[NameEntry]) -> (r: Vec<usize>)
    ensures
        r@ == fixture_entries(entries@, entries@.len() as int),
{
    let mut r: Vec<usize> = Vec::new();
    let mut i: usize = 0;
    while i < entries.len()
        invariant
            i <= entries@.len(),
            r@ == fixture_entries(entries@, i as int),
        decreases entries@.len() - i,
    {
        let e = &entries[i];
        if e.name.is_some() && e.is_callable && e.is_fixture {
            r.push(i);
        }
        i += 1;
    }
    r
}

/// What to collect of a `Test*` class, in the order of its namespace. Classes
/// with a custom `__init__` are not collected.
pub fn collect_class(has_init: bool, entries: &[NameEntry]) -> (r: Vec<ClassStep>)
    ensures
        has_init ==> r@.len() == 0,
        !has_init ==> r@ == class_plan(entries@),
{
    let mut r: Vec<ClassStep> = Vec::new();
    if has_init {
        return r;
    }
    let mut i: usize = 0;
    while i < entries.len()
        invariant
            !has_init,
            i <= entries@.len(),
            r@ == class_steps(entries@, i as int),
            named_until(entries@, 0) == named_until(entries@, i as int),
        decreases entries@.len() - i,
    {
        let e = &entries[i];
        if e.name.is_none() {
            r.push(ClassStep::BadKey(i));
            return r;
        }
        if e.is_callable {
            if e.is_fixture {
                r.push(ClassStep::Fixture(i));
            } else if named_like(e, "test_") {
                r.push(ClassStep::Test(i));
            }
        }
        i += 1;
    }
    r
}

/// The nodeid of a class.
pub fn class_nodeid(base: &str, class_name: &str) -> (r: String)
    ensures
        r@ == base@ + "::"@ + class_name@,
{
    let mut r: String = base.to_owned();
    r.append("::");
    r.append(class_name);
    r
}

/// The marks of a method: its own, then those of its class.
pub fn method_marks(own: &[MarkData], of_class: &[MarkData]) -> (r: Vec<MarkData>)
    ensures
        r@ == own@ + of_class@,
{
    let mut r = copy_marks(own);
    append_marks(&mut r, of_class);
    r
}

/// The baseid of the fixtures defined below a nodeid.
pub fn inner_baseid(nodeid: &str) -> (r: String)
    ensures
        r@ == nodeid@ + "::"@,
{
    let mut r: String = nodeid.to_owned();
    r.append("::");
    r
}

/// The baseid of the fixtures of a conftest: its directory, "" at the root.
pub fn conftest_baseid(dir_nodeid: &str) -> (r: String)
    ensures
        r@ == (if dir_nodeid@.len() == 0 || dir_nodeid@ == "."@ {
            seq![]
        } else {
            dir_nodeid@ + "/"@
        }),
{
    if dir_nodeid.is_empty() || same(dir_nodeid, ".") {
        return String::new();
    }
    let mut r: String = dir_nodeid.to_owned();
    r.append("/");
    r
}

/// The names without a leading `self`, where an instance is passed.
pub fn drop_self(names: &[String], instance: bool) -> (r: Vec<String>)
    ensures
        r@ == without_self(names@, instance),
{
    let mut r = copy_texts(names);
    if instance && r.len() > 0 && same(r[0].as_str(), "self") {
        r.remove(0);
        assert(r@ =~= names@.skip(1));
    }
    r
}

/// The nodeid of a test.
pub fn nodeid_of(prefix: &str, name: &str, id: &Option<String>) -> (r: String)
    ensures
        r@ == test_nodeid(prefix@, name@, opt_text(*id)),
{
    let mut r: String = prefix.to_owned();
    r.append("::");
    r.append(name);
    match id {
        Some(id) => {
            r.append("[");
            r.append(id.as_str());
            r.append("]");
        },
        None => {},
    }
    r
}

/// Appends the items for a test function, one for each variant.
pub fn push_test_items(
    items: &mut Vec<TestItem>,
    prefix: &str,
    module_name: &str,
    path: &[String],
    test: &TestFunction,
    variants: &[ParamVariant],
)
    ensures
        final(items)@.len() == old(items)@.len() + variants@.len(),
        forall|i: int| 0 <= i < old(items)@.len() ==> #[trigger] final(items)@[i] == old(items)@[i],
        forall|i: int|
            0 <= i < variants@.len() ==> item_for(
                prefix@,
                module_name@,
                path@,
                *test,
                #[trigger] variants@[i],
                final(items)@[old(items)@.len() + i],
            ),
{
    let ghost start = items@;
    let mut k: usize = 0;
    while k < variants.len()
        invariant
            k <= variants@.len(),
            items@.len() == start.len() + k,
            forall|i: int| 0 <= i < start.len() ==> #[trigger] items@[i] == start[i],
            forall|i: int|
                0 <= i < k ==> item_for(
                    prefix@,
                    module_name@,
                    path@,
                    *test,
                    #[trigger] variants@[i],
                    items@[start.len() + i],
                ),
        decreases variants@.len() - k,
    {
        let variant = &variants[k];
        let mut callspec: Vec<(String, Handle)> = Vec::new();
        append_params(&mut callspec, variant.params.as_slice());
        assert(callspec@ =~= variant.params@);
        let item = TestItem {
            nodeid: nodeid_of(prefix, test.name.as_str(), &variant.id),
            path: copy_texts(path),
            module_name: module_name.to_owned(),
            func_name: test.name.clone(),
            func: test.func,
            cls: test.cls,
            is_coroutine: test.flags.is_coroutine,
            fixture_names: drop_self(test.param_names.as_slice(), test.cls.is_some()),
            extra_fixture_names: Vec::new(),
            marks: method_marks(test.marks.as_slice(), variant.extra_marks.as_slice()),
            callspec,
            max_param_scope: Scope::Function,
            scope_sort_keys: Vec::new(),
            is_doctest: false,
            collector_class: String::new(),
            func_class: String::new(),
        };
        assert(item_for(prefix@, module_name@, path@, *test, *variant, item));
        items.push(item);
        k += 1;
    }
}

/// The definition that a marked callable makes.
pub fn register_fixture_def(
    attr_name: &str,
    marker: &FixtureMarker,
    func: Handle,
    flags: AsyncFlags,
    params: &[String],
    baseid: &str,
    needs_instance: bool,
) -> (r: FixtureDef)
    ensures
        definition_for(
            attr_name@,
            *marker,
            func,
            flags,
            params@,
            baseid@,
            needs_instance,
            r,
        ),
{
    let name: String = match &marker.name {
        Some(name) => name.clone(),
        None => attr_name.to_owned(),
    };
    let scope: Scope = match Scope::parse(marker.scope.as_str()) {
        Some(scope) => scope,
        None => Scope::Function,
    };
    FixtureDef {
        name,
        func,
        scope,
        autouse: marker.autouse,
        is_coroutine: flags.is_coroutine,
        is_generator: flags.is_generator,
        is_async_gen: flags.is_async_gen,
        param_names: drop_self(params, needs_instance),
        baseid: baseid.to_owned(),
        needs_instance,
        params: marker.params,
        ids: marker.ids,
    }
}

/// What follows after a suspended generator fixture was resumed for its
/// teardown: nothing when it stopped, an error when it yielded again. An
/// exception of its own is raised again as it is.
pub fn finalize_generator(resumed: Resumed) -> (r: GeneratorEnd)
    ensures
        match resumed {
            Resumed::Yielded => r matches GeneratorEnd::Error(message) && message@
                == "fixture generator yielded more than once"@,
            Resumed::Stopped => r is Finished,
            Resumed::Raised => r is Reraise,
        },
{
    match resumed {
        Resumed::Yielded => GeneratorEnd::Error(
            "fixture generator yielded more than once".to_owned(),
        ),
        Resumed::Stopped => GeneratorEnd::Finished,
        Resumed::Raised => GeneratorEnd::Reraise,
    }
}

// ---------------------------------------------------------------------------
// Laws
// ---------------------------------------------------------------------------

/// The entry is a test of a module.
pub open spec fn is_module_test(e: NameEntry) -> bool {
    name_starts(e, "test_"@) && !e.is_class && e.is_callable && !e.is_fixture
}

/// The entry is a test of a class.
pub open spec fn is_class_test(e: NameEntry) -> bool {
    name_starts(e, "test_"@) && e.is_callable && !e.is_fixture
}

/// A name is collected as a test just when it starts with `test_` and stands
/// for a callable that is no fixture and, in a module, no class; a module's
/// class just when its name starts with `Test`; a class's fixture just when
/// it is callable and marked.
pub proof fn collected_names(entries: Seq<NameEntry>, n: int, i: usize)
    requires
        0 <= n <= entries.len() <= usize::MAX,
    ensures
        module_steps(entries, n).contains(ModuleStep::Test(i)) <==> i < n && is_module_test(
            entries[i as int],
        ),
        module_steps(entries, n).contains(ModuleStep::Class(i)) <==> i < n
            && entries[i as int].is_class && name_starts(entries[i as int], "Test"@),
        class_steps(entries, n).contains(ClassStep::Test(i)) <==> i < n && is_class_test(
            entries[i as int],
        ),
        class_steps(entries, n).contains(ClassStep::Fixture(i)) <==> i < n
            && entries[i as int].is_callable && entries[i as int].is_fixture,
    decreases n,
{
    if n > 0 {
        collected_names(entries, n - 1, i);
        let mods = module_steps(entries, n);
        let mods0 = module_steps(entries, n - 1);
        if mods.len() > mods0.len() {
            assert(mods.drop_last() =~= mods0);
            contains_split(mods, ModuleStep::Test(i));
            contains_split(mods, ModuleStep::Class(i));
        }
        let classes = class_steps(entries, n);
        let classes0 = class_steps(entries, n - 1);
        if classes.len() > classes0.len() {
            assert(classes.drop_last() =~= classes0);
            contains_split(classes, ClassStep::Test(i));
            contains_split(classes, ClassStep::Fixture(i));
        }
    }
}

/// The keys of the first `n` entries are strings.
pub open spec fn named_below(entries: Seq<NameEntry>, n: int) -> bool {
    forall|j: int| 0 <= j < n ==> (#[trigger] entries[j]).name is Some
}

proof fn named_until_facts(entries: Seq<NameEntry>, n: int)
    requires
        0 <= n <= entries.len(),
    ensures
        n <= named_until(entries, n) <= entries.len(),
        forall|j: int| n <= j < named_until(entries, n) ==> (#[trigger] entries[j]).name is Some,
        named_until(entries, n) < entries.len() ==> entries[named_until(entries, n)].name is None,
    decreases entries.len() - n,
{
    if n < entries.len() && entries[n].name is Some {
        named_until_facts(entries, n + 1);
    }
}

/// A class is read up to the first key that is no string, which is the one
/// error; what stands before it is collected as ever.
pub proof fn classes_are_read_up_to_a_bad_key(entries: Seq<NameEntry>, i: usize)
    requires
        entries.len() <= usize::MAX,
    ensures
        class_plan(entries).contains(ClassStep::BadKey(i)) <==> i < entries.len()
            && entries[i as int].name is None && named_below(entries, i as int),
        class_plan(entries).contains(ClassStep::Test(i)) <==> i < entries.len() && is_class_test(
            entries[i as int],
        ) && named_below(entries, i + 1),
        class_plan(entries).contains(ClassStep::Fixture(i)) <==> i < entries.len()
            && entries[i as int].is_callable && entries[i as int].is_fixture && named_below(
            entries,
            i + 1,
        ),
{
    let k = named_until(entries, 0);
    let steps = class_steps(entries, k);
    let plan = class_plan(entries);
    named_until_facts(entries, 0);
    collected_names(entries, k, i);
    no_bad_key(entries, k, i);
    if k < entries.len() {
        assert(plan.drop_last() =~= steps);
        contains_split(plan, ClassStep::BadKey(i));
        contains_split(plan, ClassStep::Test(i));
        contains_split(plan, ClassStep::Fixture(i));
    }
    if i < entries.len() && i > k {
        assert(entries[k].name is None);
    }
    if i == k && k < entries.len() {
        assert(entries[k].name is None);
    }
}

proof fn no_bad_key(entries: Seq<NameEntry>, n: int, i: usize)
    requires
        0 <= n <= entries.len(),
    ensures
        !class_steps(entries, n).contains(ClassStep::BadKey(i)),
    decreases n,
{
    if n > 0 {
        no_bad_key(entries, n - 1, i);
        let steps = class_steps(entries, n);
        let before = class_steps(entries, n - 1);
        if steps.len() > before.len() {
            assert(steps.drop_last() =~= before);
            contains_split(steps, ClassStep::BadKey(i));
        }
    }
}

/// A name starts with a prefix where there is a name and it does.
pub proof fn names_are_read_from_the_start(entry: NameEntry, prefix: Seq<char>)
    ensures
        name_starts(entry, prefix) <==> entry.name is Some && prefix.len() <= entry.name->0@.len()
            && entry.name->0@.take(prefix.len() as int) == prefix,
{
    if entry.name is Some {
        let name = entry.name->0@;
        if prefix.is_prefix_of(name) {
            assert(name.take(prefix.len() as int) =~= prefix);
        }
        if prefix.len() <= name.len() && name.take(prefix.len() as int) == prefix {
            assert(prefix =~= name.subrange(0, prefix.len() as int));
        }
    }
}

/// Where in the namespace a step of a module stands.
pub open spec fn module_position(step: ModuleStep) -> int {
    match step {
        ModuleStep::Class(i) => i as int,
        ModuleStep::Test(i) => i as int,
    }
}

/// Where in the namespace a step of a class stands.
pub open spec fn class_position(step: ClassStep) -> int {
    match step {
        ClassStep::Fixture(i) => i as int,
        ClassStep::Test(i) => i as int,
        ClassStep::BadKey(i) => i as int,
    }
}

/// Tests, classes and fixtures are collected in the order of the namespace.
pub proof fn namespaces_are_read_in_order(entries: Seq<NameEntry>, n: int)
    requires
        0 <= n <= entries.len() <= usize::MAX,
    ensures
        rising(module_steps(entries, n), |s: ModuleStep| module_position(s)),
        placed_within(module_steps(entries, n), |s: ModuleStep| module_position(s), 0, n),
        rising(class_steps(entries, n), |s: ClassStep| class_position(s)),
        placed_within(class_steps(entries, n), |s: ClassStep| class_position(s), 0, n),
        rising(fixture_entries(entries, n), |i: usize| i as int),
        placed_within(fixture_entries(entries, n), |i: usize| i as int, 0, n),
    decreases n,
{
    if n > 0 {
        namespaces_are_read_in_order(entries, n - 1);
    }
}

/// The fixtures of a namespace are its callables that are marked so, by name.
pub proof fn marked_callables_are_fixtures(entries: Seq<NameEntry>, n: int, i: usize)
    requires
        0 <= n <= entries.len() <= usize::MAX,
    ensures
        fixture_entries(entries, n).contains(i) <==> i < n && entries[i as int].name is Some
            && entries[i as int].is_callable && entries[i as int].is_fixture,
    decreases n,
{
    if n > 0 {
        marked_callables_are_fixtures(entries, n - 1, i);
        let all = fixture_entries(entries, n);
        let e = entries[n - 1];
        if e.name is Some && e.is_callable && e.is_fixture {
            contains_split(all, i);
            assert(all.drop_last() =~= fixture_entries(entries, n - 1));
        }
    }
}

/// A nodeid is made of the place, the name and, in brackets, the parameter id.
pub proof fn nodeids_are_made_of_parts(prefix: Seq<char>, name: Seq<char>, id: Seq<char>)
    ensures
        test_nodeid(prefix, name, None) == prefix + "::"@ + name,
        test_nodeid(prefix, name, Some(id)) == test_nodeid(prefix, name, None) + "["@ + id + "]"@,
{
}

/// `self` is no fixture of a method: it is dropped where it comes first, and
/// nothing else is.
pub proof fn self_is_dropped(names: Seq<String>, instance: bool)
    ensures
        instance && names.len() > 0 && names[0]@ == "self"@ ==> without_self(names, instance).len()
            == names.len() - 1 && forall|i: int|
            0 <= i < names.len() - 1 ==> #[trigger] without_self(names, instance)[i] == names[i
                + 1],
        !instance || names.len() == 0 || names[0]@ != "self"@ ==> without_self(names, instance)
            == names,
{
}

/// What an item takes over from its test function and its variant: its place and
/// name, the function and its class, the arguments but `self` as fixtures, the
/// marks of the function and then those of the variant, and the values. Nothing is
/// known yet of the scopes of its parameters.
pub proof fn items_take_over(
    prefix: Seq<char>,
    module_name: Seq<char>,
    path: Seq<String>,
    test: TestFunction,
    variant: ParamVariant,
    item: TestItem,
)
    requires
        item_for(prefix, module_name, path, test, variant, item),
    ensures
        variant.id is None ==> item.nodeid@ == prefix + "::"@ + test.name@,
        variant.id is Some ==> item.nodeid@ == prefix + "::"@ + test.name@ + "["@ + variant.id->0@
            + "]"@,
        item.path@ == path && item.module_name@ == module_name,
        item.func_name == test.name && item.func == test.func && item.cls == test.cls,
        item.is_coroutine == test.flags.is_coroutine && !item.is_doctest,
        test.cls is None ==> item.fixture_names@ == test.param_names@,
        test.cls is Some && test.param_names@.len() > 0 && test.param_names@[0]@ == "self"@
            ==> item.fixture_names@ == test.param_names@.skip(1),
        item.marks@ == test.marks@ + variant.extra_marks@,
        item.callspec@ == variant.params@,
        item.max_param_scope == Scope::Function,
        item.scope_sort_keys@.len() == 0,
        item.extra_fixture_names@.len() == 0,
{
}

/// What a fixture definition takes over from its marker and its function: the
/// name that is given, or else that of the attribute; the scope that is named,
/// with the function for a name of none; the arguments but `self` as requests.
pub proof fn definitions_take_over(
    attr_name: Seq<char>,
    marker: FixtureMarker,
    func: Handle,
    flags: AsyncFlags,
    params: Seq<String>,
    baseid: Seq<char>,
    needs_instance: bool,
    def: FixtureDef,
)
    requires
        definition_for(attr_name, marker, func, flags, params, baseid, needs_instance, def),
    ensures
        marker.name is Some ==> def.name@ == marker.name->0@,
        marker.name is None ==> def.name@ == attr_name,
        def.func == func && def.autouse == marker.autouse,
        marker.scope@ == "session"@ <==> def.scope == Scope::Session,
        marker.scope@ == "package"@ <==> def.scope == Scope::Package,
        marker.scope@ == "module"@ <==> def.scope == Scope::Module,
        marker.scope@ == "class"@ <==> def.scope == Scope::Class,
        def.is_coroutine == flags.is_coroutine,
        def.is_generator == flags.is_generator,
        def.is_async_gen == flags.is_async_gen,
        !needs_instance ==> def.param_names@ == params,
        needs_instance && params.len() > 0 && params[0]@ == "self"@ ==> def.param_names@
            == params.skip(1),
        def.baseid@ == baseid && def.needs_instance == needs_instance,
        def.params == marker.params && def.ids == marker.ids,
{
    scope_name_round_trip(Scope::Session, marker.scope@);
    scope_name_round_trip(Scope::Package, marker.scope@);
    scope_name_round_trip(Scope::Module, marker.scope@);
    scope_name_round_trip(Scope::Class, marker.scope@);
    scopes_have_names();
}

} // verus!
