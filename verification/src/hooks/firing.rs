//! Firing the hooks of conftests and plugins: which implementations are
//! called, whether there is anything to do, and the course of
//! `pytest_collection_modifyitems`.

use vstd::prelude::*;

use crate::hooks::order::{
    call_order, conftest_funcs, conftest_hooks_named, hooks_in_order, hooks_named, hooks_take_turns,
    named_funcs, PyHook,
};
use crate::lists::{
    contains_split, contains_sum, next_block, next_step, no_step, placed_within, rising, staircase,
};
use crate::object::Handle;

verus! {

/// A hook that the runner fires.
#[derive(Debug, Clone, Copy, PartialEq, Eq, Structural)]
pub enum Hook {
    AddOption,
    LoadInitialConftests,
    Configure,
    Unconfigure,
    SessionStart,
    ReportHeader,
    CollectStart,
    ItemCollected,
    ModifyItems,
    Deselected,
    CollectionFinish,
    ReportCollectionFinish,
    TerminalSummary,
    SessionFinish,
}

/// Who else listens to a hook.
#[derive(Debug, Clone, Copy, PartialEq, Eq, Structural)]
pub struct Listeners {
    /// The calls of a nested run are recorded.
    pub recording: bool,
    /// A plugin brought a terminal reporter of its own.
    pub delegated: bool,
}

/// What is done with the items after collection, in order.
#[derive(Debug, Clone, Copy, PartialEq, Eq, Structural)]
pub enum ModifyStep {
    /// Fire `pytest_collectstart` for the session and each class, and give
    /// the marks of a class to its items.
    CollectStart,
    /// Fire `pytest_itemcollected` for each item.
    ItemCollected,
    /// Fire `pytest_collection_modifyitems`.
    ModifyItems,
    /// Record the tree of collectors, the items and the call.
    Record,
    /// Give the marks of the session to every item.
    SessionMarks,
    /// Read the items back.
    ReadBack,
    /// Apply `-k` and `-m`.
    Select,
    /// Fire the hooks of native plugins.
    NativePlugins,
}

// ---------------------------------------------------------------------------
// Model
// ---------------------------------------------------------------------------

/// The name of a hook.
pub open spec fn hook_name(hook: Hook) -> Seq<char> {
    match hook {
        Hook::AddOption => "pytest_addoption"@,
        Hook::LoadInitialConftests => "pytest_load_initial_conftests"@,
        Hook::Configure => "pytest_configure"@,
        Hook::Unconfigure => "pytest_unconfigure"@,
        Hook::SessionStart => "pytest_sessionstart"@,
        Hook::ReportHeader => "pytest_report_header"@,
        Hook::CollectStart => "pytest_collectstart"@,
        Hook::ItemCollected => "pytest_itemcollected"@,
        Hook::ModifyItems => "pytest_collection_modifyitems"@,
        Hook::Deselected => "pytest_deselected"@,
        Hook::CollectionFinish => "pytest_collection_finish"@,
        Hook::ReportCollectionFinish => "pytest_report_collectionfinish"@,
        Hook::TerminalSummary => "pytest_terminal_summary"@,
        Hook::SessionFinish => "pytest_sessionfinish"@,
    }
}

/// The implementations that are called, in order. `instances` are those of
/// plugins that were registered as objects.
pub open spec fn callees_of(hook: Hook, hooks: Seq<PyHook>, instances: Seq<Handle>) -> Seq<Handle> {
    let n = hooks.len() as int;
    let name = hook_name(hook);
    match hook {
        // The order that an implementation asks for is kept.
        Hook::LoadInitialConftests => call_order(hooks, name),
        Hook::Configure => call_order(hooks, name),
        Hook::Unconfigure => call_order(hooks, name),
        // Objects come after the others.
        Hook::ModifyItems => named_funcs(hooks, n, name) + instances,
        // Objects come before the others.
        Hook::Deselected => instances + named_funcs(hooks, n, name),
        Hook::CollectionFinish => instances + named_funcs(hooks, n, name),
        Hook::SessionFinish => instances + named_funcs(hooks, n, name),
        // Plugin modules are among the objects already.
        Hook::TerminalSummary => instances + conftest_funcs(hooks, n, name),
        _ => named_funcs(hooks, n, name),
    }
}

/// There is something to do for a hook with `n` implementations.
pub open spec fn worth_firing(hook: Hook, n: int, who: Listeners) -> bool {
    match hook {
        Hook::Configure => n > 0 || who.recording,
        Hook::Unconfigure => n > 0 || who.recording,
        Hook::Deselected => n > 0 || who.recording || who.delegated,
        Hook::CollectionFinish => n > 0 || who.recording || who.delegated,
        Hook::TerminalSummary => n > 0 && !who.delegated,
        _ => n > 0,
    }
}

/// A step that is taken under a condition.
pub open spec fn modify_when(b: bool, step: ModifyStep) -> Seq<ModifyStep> {
    if b {
        seq![step]
    } else {
        seq![]
    }
}

/// What is done with the items after collection. Hooks of conftests come
/// before the selection, which sees the marks that they add, and the selection
/// before native plugins, which see what is left.
pub open spec fn modify_order(
    modify: int,
    collected: int,
    started: int,
    recording: bool,
) -> Seq<ModifyStep> {
    (if modify > 0 || collected > 0 || started > 0 || recording {
        modify_when(started > 0, ModifyStep::CollectStart) + modify_when(
            collected > 0,
            ModifyStep::ItemCollected,
        ) + modify_when(modify > 0, ModifyStep::ModifyItems) + modify_when(
            recording,
            ModifyStep::Record,
        ) + seq![ModifyStep::SessionMarks, ModifyStep::ReadBack]
    } else {
        seq![]
    }) + seq![ModifyStep::Select, ModifyStep::NativePlugins]
}

/// The nodes of a class, among the first `n`.
pub open spec fn of_class(classes: Seq<Option<Handle>>, cls: Handle, n: int) -> Seq<usize>
    decreases n,
{
    if n <= 0 {
        seq![]
    } else {
        let before = of_class(classes, cls, n - 1);
        if classes[n - 1] == Some(cls) {
            before.push((n - 1) as usize)
        } else {
            before
        }
    }
}

// ---------------------------------------------------------------------------
// Executable functions
// ---------------------------------------------------------------------------

/// The name of a hook.
pub fn name_of(hook: Hook) -> (r: &'static str)
    ensures
        r@ == hook_name(hook),
{
    match hook {
        Hook::AddOption => "pytest_addoption",
        Hook::LoadInitialConftests => "pytest_load_initial_conftests",
        Hook::Configure => "pytest_configure",
        Hook::Unconfigure => "pytest_unconfigure",
        Hook::SessionStart => "pytest_sessionstart",
        Hook::ReportHeader => "pytest_report_header",
        Hook::CollectStart => "pytest_collectstart",
        Hook::ItemCollected => "pytest_itemcollected",
        Hook::ModifyItems => "pytest_collection_modifyitems",
        Hook::Deselected => "pytest_deselected",
        Hook::CollectionFinish => "pytest_collection_finish",
        Hook::ReportCollectionFinish => "pytest_report_collectionfinish",
        Hook::TerminalSummary => "pytest_terminal_summary",
        Hook::SessionFinish => "pytest_sessionfinish",
    }
}

/// `first` followed by `second`.
fn both(first: Vec<Handle>, second: Vec<Handle>) -> (r: Vec<Handle>)
    ensures
        r@ == first@ + second@,
{
    let mut r = first;
    let mut second = second;
    r.append(&mut second);
    r
}

/// The implementations that are called, in order. `instances` are those of
/// plugins that were registered as objects.
pub fn callees(hook: Hook, hooks: &[PyHook], instances: Vec<Handle>) -> (r: Vec<Handle>)
    ensures
        r@ == callees_of(hook, hooks@, instances@),
{
    let name = name_of(hook);
    match hook {
        Hook::LoadInitialConftests | Hook::Configure | Hook::Unconfigure => hooks_in_order(
            hooks,
            name,
        ),
        Hook::ModifyItems => both(hooks_named(hooks, name), instances),
        Hook::Deselected | Hook::CollectionFinish | Hook::SessionFinish => both(
            instances,
            hooks_named(hooks, name),
        ),
        Hook::TerminalSummary => both(instances, conftest_hooks_named(hooks, name)),
        _ => hooks_named(hooks, name),
    }
}

/// Whether there is something to do for a hook with `n` implementations.
pub fn fires(hook: Hook, n: usize, who: Listeners) -> (r: bool)
    ensures
        r == worth_firing(hook, n as int, who),
{
    match hook {
        Hook::Configure | Hook::Unconfigure => n > 0 || who.recording,
        Hook::Deselected | Hook::CollectionFinish => n > 0 || who.recording || who.delegated,
        Hook::TerminalSummary => n > 0 && !who.delegated,
        _ => n > 0,
    }
}

/// What is done with the items after collection, in order, with so many
/// implementations of `pytest_collection_modifyitems`, `pytest_itemcollected`
/// and `pytest_collectstart`.
pub fn modify_steps(modify: usize, collected: usize, started: usize, recording: bool) -> (r: Vec<
    ModifyStep,
>)
    ensures
        r@ == modify_order(modify as int, collected as int, started as int, recording),
{
    let mut r: Vec<ModifyStep> = Vec::new();
    if modify > 0 || collected > 0 || started > 0 || recording {
        if started > 0 {
            r.push(ModifyStep::CollectStart);
        }
        if collected > 0 {
            r.push(ModifyStep::ItemCollected);
        }
        if modify > 0 {
            r.push(ModifyStep::ModifyItems);
        }
        if recording {
            r.push(ModifyStep::Record);
        }
        r.push(ModifyStep::SessionMarks);
        r.push(ModifyStep::ReadBack);
    }
    r.push(ModifyStep::Select);
    r.push(ModifyStep::NativePlugins);
    assert(r@ =~= modify_order(modify as int, collected as int, started as int, recording));
    r
}

/// The nodes of a class: those that get its marks.
pub fn nodes_of_class(classes: &[Option<Handle>], cls: Handle) -> (r: Vec<usize>)
    ensures
        r@ == of_class(classes@, cls, classes@.len() as int),
{
    let n: usize = classes.len();
    let mut r: Vec<usize> = Vec::new();
    let mut i: usize = 0;
    while i < n
        invariant
            n == classes@.len(),
            i <= n,
            r@ == of_class(classes@, cls, i as int),
        decreases n - i,
    {
        let hit = match classes[i] {
            Some(c) => c == cls,
            None => false,
        };
        if hit {
            r.push(i);
        }
        i += 1;
    }
    r
}

// ---------------------------------------------------------------------------
// Laws
// ---------------------------------------------------------------------------

/// Whatever hooks there are, `-k` and `-m` are applied and native plugins come
/// last; the items are read back just where a hook may have changed them.
pub proof fn selection_always_applies(modify: int, collected: int, started: int, recording: bool)
    ensures
        ({
            let order = modify_order(modify, collected, started, recording);
            &&& order.len() >= 2
            &&& order[order.len() - 2] == ModifyStep::Select
            &&& order.last() == ModifyStep::NativePlugins
            &&& order.contains(ModifyStep::ReadBack) <==> modify > 0 || collected > 0 || started > 0
                || recording
        }),
{
    let order = modify_order(modify, collected, started, recording);
    if modify > 0 || collected > 0 || started > 0 || recording {
        assert(order[order.len() - 3] == ModifyStep::ReadBack);
    } else {
        assert(order =~= seq![ModifyStep::Select, ModifyStep::NativePlugins]);
    }
}

/// Every implementation of a hook in a conftest is called for the end of a
/// session, after those of plugins that were registered as objects.
pub proof fn objects_come_first(hook: Hook, hooks: Seq<PyHook>, instances: Seq<Handle>)
    requires
        hook == Hook::Deselected || hook == Hook::CollectionFinish || hook == Hook::SessionFinish
            || hook == Hook::TerminalSummary,
    ensures
        instances.is_prefix_of(callees_of(hook, hooks, instances)),
{
    assert(instances =~= callees_of(hook, hooks, instances).take(instances.len() as int));
}

/// The hooks go by the names that plugins implement them under.
pub proof fn hooks_have_names()
    ensures
        hook_name(Hook::AddOption) == "pytest_addoption"@,
        hook_name(Hook::LoadInitialConftests) == "pytest_load_initial_conftests"@,
        hook_name(Hook::Configure) == "pytest_configure"@,
        hook_name(Hook::Unconfigure) == "pytest_unconfigure"@,
        hook_name(Hook::SessionStart) == "pytest_sessionstart"@,
        hook_name(Hook::ReportHeader) == "pytest_report_header"@,
        hook_name(Hook::CollectStart) == "pytest_collectstart"@,
        hook_name(Hook::ItemCollected) == "pytest_itemcollected"@,
        hook_name(Hook::ModifyItems) == "pytest_collection_modifyitems"@,
        hook_name(Hook::Deselected) == "pytest_deselected"@,
        hook_name(Hook::CollectionFinish) == "pytest_collection_finish"@,
        hook_name(Hook::ReportCollectionFinish) == "pytest_report_collectionfinish"@,
        hook_name(Hook::TerminalSummary) == "pytest_terminal_summary"@,
        hook_name(Hook::SessionFinish) == "pytest_sessionfinish"@,
{
}

/// Who is called for a hook: each implementation of its name. Those of configuring
/// take turns; objects come after the others when items are modified, and before
/// them when items are deselected and at the end; the summary leaves out plugin
/// modules, which are among the objects.
pub proof fn implementations_are_called(
    hook: Hook,
    hooks: Seq<PyHook>,
    instances: Seq<Handle>,
    i: int,
)
    requires
        0 <= i < hooks.len(),
        hooks[i].name@ == hook_name(hook),
    ensures
        hook != Hook::TerminalSummary || hooks[i].plugin_module is None ==> callees_of(
            hook,
            hooks,
            instances,
        ).contains(hooks[i].func),
        hook == Hook::Configure || hook == Hook::Unconfigure || hook == Hook::LoadInitialConftests
            ==> callees_of(hook, hooks, instances) == call_order(hooks, hook_name(hook)),
        hook == Hook::ModifyItems ==> callees_of(hook, hooks, instances).len() == named_funcs(
            hooks,
            hooks.len() as int,
            hook_name(hook),
        ).len() + instances.len() && instances.is_suffix_of(callees_of(hook, hooks, instances)),
        hook == Hook::Deselected || hook == Hook::CollectionFinish || hook == Hook::SessionFinish
            ==> callees_of(hook, hooks, instances).len() == named_funcs(
            hooks,
            hooks.len() as int,
            hook_name(hook),
        ).len() + instances.len() && instances.is_prefix_of(callees_of(hook, hooks, instances)),
{
    let n = hooks.len() as int;
    let name = hook_name(hook);
    let func = hooks[i].func;
    let named = named_funcs(hooks, n, name);
    named_has(hooks, n, name, i);
    contains_sum(named, instances, func);
    contains_sum(instances, named, func);
    contains_sum(instances, conftest_funcs(hooks, n, name), func);
    let at = hooks_take_turns(hooks, name);
    assert(at.contains(i));
    let k = choose|k: int| 0 <= k < at.len() && at[k] == i;
    assert(call_order(hooks, name)[k] == func);
    let last = named + instances;
    assert(instances =~= last.subrange(last.len() - instances.len(), last.len() as int));
    let first = instances + named;
    assert(instances =~= first.subrange(0, instances.len() as int));
}

proof fn named_has(hooks: Seq<PyHook>, n: int, name: Seq<char>, i: int)
    requires
        0 <= i < n <= hooks.len(),
        hooks[i].name@ == name,
    ensures
        named_funcs(hooks, n, name).contains(hooks[i].func),
        hooks[i].plugin_module is None ==> conftest_funcs(hooks, n, name).contains(hooks[i].func),
    decreases n,
{
    let func = hooks[i].func;
    let a = named_funcs(hooks, n - 1, name);
    let b = conftest_funcs(hooks, n - 1, name);
    if i < n - 1 {
        named_has(hooks, n - 1, name, i);
        let k = choose|k: int| 0 <= k < a.len() && a[k] == func;
        assert(named_funcs(hooks, n, name)[k] == func);
        if hooks[i].plugin_module is None {
            let k = choose|k: int| 0 <= k < b.len() && b[k] == func;
            assert(conftest_funcs(hooks, n, name)[k] == func);
        }
    } else {
        assert(named_funcs(hooks, n, name)[a.len() as int] == func);
        if hooks[i].plugin_module is None {
            assert(conftest_funcs(hooks, n, name)[b.len() as int] == func);
        }
    }
}

/// A hook is fired where it has an implementation; configuring also where it is
/// recorded, deselection and the end of the collection also where someone else
/// listens. The summary is left to whom it is delegated to.
pub proof fn hooks_fire_for_listeners(hook: Hook, n: int, who: Listeners)
    ensures
        n > 0 && hook != Hook::TerminalSummary ==> worth_firing(hook, n, who),
        worth_firing(Hook::TerminalSummary, n, who) <==> n > 0 && !who.delegated,
        n == 0 ==> (worth_firing(hook, n, who) <==> match hook {
            Hook::Configure => who.recording,
            Hook::Unconfigure => who.recording,
            Hook::Deselected => who.recording || who.delegated,
            Hook::CollectionFinish => who.recording || who.delegated,
            _ => false,
        }),
{
}

/// Where a step of modifying the items stands.
pub open spec fn modify_place(step: ModifyStep) -> int {
    match step {
        ModifyStep::CollectStart => 0,
        ModifyStep::ItemCollected => 1,
        ModifyStep::ModifyItems => 2,
        ModifyStep::Record => 3,
        ModifyStep::SessionMarks => 4,
        ModifyStep::ReadBack => 5,
        ModifyStep::Select => 6,
        ModifyStep::NativePlugins => 7,
    }
}

/// How the items are modified, and in which order: the hooks that have an
/// implementation, the recording, then what the hooks did is read back, where there
/// was any; the selection and the plugins of the library come last, in any case.
pub proof fn items_are_modified_in_order(
    modify: int,
    collected: int,
    started: int,
    recording: bool,
    x: ModifyStep,
)
    ensures
        staircase(
            modify_order(modify, collected, started, recording),
            |s: ModifyStep| modify_place(s),
            8,
        ),
        ({
            let any = modify > 0 || collected > 0 || started > 0 || recording;
            modify_order(modify, collected, started, recording).contains(x) <==> match x {
                ModifyStep::CollectStart => started > 0,
                ModifyStep::ItemCollected => collected > 0,
                ModifyStep::ModifyItems => modify > 0,
                ModifyStep::Record => recording,
                ModifyStep::SessionMarks => any,
                ModifyStep::ReadBack => any,
                ModifyStep::Select => true,
                ModifyStep::NativePlugins => true,
            }
        }),
{
    let place = |s: ModifyStep| modify_place(s);
    let none = Seq::<ModifyStep>::empty();
    no_step(place, x);
    let any = modify > 0 || collected > 0 || started > 0 || recording;
    next_step(none, place, 0, started > 0, ModifyStep::CollectStart, x);
    let l1 = modify_when(started > 0, ModifyStep::CollectStart);
    assert(none + l1 == l1) by {
        assert(none + l1 =~= l1);
    }
    next_step(l1, place, 1, collected > 0, ModifyStep::ItemCollected, x);
    let l2 = l1 + modify_when(collected > 0, ModifyStep::ItemCollected);
    next_step(l2, place, 2, modify > 0, ModifyStep::ModifyItems, x);
    let l3 = l2 + modify_when(modify > 0, ModifyStep::ModifyItems);
    next_step(l3, place, 3, recording, ModifyStep::Record, x);
    let l4 = l3 + modify_when(recording, ModifyStep::Record);
    let b5 = seq![ModifyStep::SessionMarks, ModifyStep::ReadBack];
    assert(b5[0] == ModifyStep::SessionMarks && b5[1] == ModifyStep::ReadBack);
    next_block(l4, place, 4, b5, 4, x);
    let l5 = l4 + b5;
    let b6 = seq![ModifyStep::Select, ModifyStep::NativePlugins];
    assert(b6[0] == ModifyStep::Select && b6[1] == ModifyStep::NativePlugins);
    next_block(l5, place, 6, b6, 6, x);
    next_block(none, place, 0, b6, 6, x);
    if !any {
        assert(none + b6 =~= modify_order(modify, collected, started, recording));
    } else {
        assert(l5 + b6 == modify_order(modify, collected, started, recording));
    }
}

/// The nodes of a class are just those with that class, in their order.
pub proof fn nodes_are_found_by_class(classes: Seq<Option<Handle>>, cls: Handle, n: int, i: usize)
    requires
        0 <= n <= classes.len() <= usize::MAX,
    ensures
        of_class(classes, cls, n).contains(i) <==> i < n && classes[i as int] == Some(cls),
        rising(of_class(classes, cls, n), |k: usize| k as int),
        placed_within(of_class(classes, cls, n), |k: usize| k as int, 0, n),
    decreases n,
{
    if n > 0 {
        nodes_are_found_by_class(classes, cls, n - 1, i);
        let all = of_class(classes, cls, n);
        if classes[n - 1] == Some(cls) {
            contains_split(all, i);
            assert(all.drop_last() =~= of_class(classes, cls, n - 1));
        }
    }
}

} // verus!
