//! Which implementations of a hook are called, and in what order.

use vstd::prelude::*;

use crate::lists::contains_sum;
use crate::object::Handle;
use crate::text::{join, joined, opt_text, same, texts};

verus! {

/// An implementation of a hook in a conftest or a plugin module.
pub struct PyHook {
    pub name: String,
    pub func: Handle,
    /// `@pytest.hookimpl(tryfirst=True)`.
    pub tryfirst: bool,
    /// `@pytest.hookimpl(trylast=True)`.
    pub trylast: bool,
    /// The plugin module; None for a conftest.
    pub plugin_module: Option<String>,
}

/// The order of calls: those that try to be first, the others, those that
/// try to be last.
#[derive(Debug, Clone, Copy, PartialEq, Eq, Structural)]
pub enum Turn {
    First,
    Normal,
    Last,
}

/// When an implementation is called.
pub open spec fn turn_of(h: PyHook) -> Turn {
    if h.tryfirst {
        Turn::First
    } else if h.trylast {
        Turn::Last
    } else {
        Turn::Normal
    }
}

/// The functions of the hooks of this name among the first `n`, in order of
/// registration.
pub open spec fn named_funcs(hooks: Seq<PyHook>, n: int, name: Seq<char>) -> Seq<Handle>
    decreases n,
{
    if n <= 0 {
        seq![]
    } else if hooks[n - 1].name@ == name {
        named_funcs(hooks, n - 1, name).push(hooks[n - 1].func)
    } else {
        named_funcs(hooks, n - 1, name)
    }
}

/// Those of them that are called at this turn.
pub open spec fn turn_funcs(hooks: Seq<PyHook>, n: int, name: Seq<char>, turn: Turn) -> Seq<Handle>
    decreases n,
{
    if n <= 0 {
        seq![]
    } else if hooks[n - 1].name@ == name && turn_of(hooks[n - 1]) == turn {
        turn_funcs(hooks, n - 1, name, turn).push(hooks[n - 1].func)
    } else {
        turn_funcs(hooks, n - 1, name, turn)
    }
}

/// The functions of the hooks of this name in the order of their calls.
pub open spec fn call_order(hooks: Seq<PyHook>, name: Seq<char>) -> Seq<Handle> {
    let n = hooks.len() as int;
    turn_funcs(hooks, n, name, Turn::First) + turn_funcs(hooks, n, name, Turn::Normal)
        + turn_funcs(hooks, n, name, Turn::Last)
}

/// The functions of the hooks of this name that conftests define, among the
/// first `n`.
pub open spec fn conftest_funcs(hooks: Seq<PyHook>, n: int, name: Seq<char>) -> Seq<Handle>
    decreases n,
{
    if n <= 0 {
        seq![]
    } else if hooks[n - 1].name@ == name && hooks[n - 1].plugin_module is None {
        conftest_funcs(hooks, n - 1, name).push(hooks[n - 1].func)
    } else {
        conftest_funcs(hooks, n - 1, name)
    }
}

/// The functions of the hooks of this name, in order of registration.
pub fn hooks_named(hooks: &[PyHook], name: &str) -> (r: Vec<Handle>)
    ensures
        r@ == named_funcs(hooks@, hooks@.len() as int, name@),
{
    let mut r: Vec<Handle> = Vec::new();
    let mut i: usize = 0;
    while i < hooks.len()
        invariant
            i <= hooks@.len(),
            r@ == named_funcs(hooks@, i as int, name@),
        decreases hooks@.len() - i,
    {
        if same(hooks[i].name.as_str(), name) {
            r.push(hooks[i].func);
        }
        i += 1;
    }
    r
}

/// The functions of the hooks of this name that conftests define.
pub fn conftest_hooks_named(hooks: &[PyHook], name: &str) -> (r: Vec<Handle>)
    ensures
        r@ == conftest_funcs(hooks@, hooks@.len() as int, name@),
{
    let mut r: Vec<Handle> = Vec::new();
    let mut i: usize = 0;
    while i < hooks.len()
        invariant
            i <= hooks@.len(),
            r@ == conftest_funcs(hooks@, i as int, name@),
        decreases hooks@.len() - i,
    {
        if same(hooks[i].name.as_str(), name) && hooks[i].plugin_module.is_none() {
            r.push(hooks[i].func);
        }
        i += 1;
    }
    r
}

/// When an implementation is called.
fn find_turn(h: &PyHook) -> (r: Turn)
    ensures
        r == turn_of(*h),
{
    if h.tryfirst {
        Turn::First
    } else if h.trylast {
        Turn::Last
    } else {
        Turn::Normal
    }
}

/// Appends the functions that are called at this turn.
fn append_turn(r: &mut Vec<Handle>, hooks: &[PyHook], name: &str, turn: Turn)
    ensures
        final(r)@ == old(r)@ + turn_funcs(hooks@, hooks@.len() as int, name@, turn),
{
    let ghost start = r@;
    let mut i: usize = 0;
    assert(start + turn_funcs(hooks@, 0, name@, turn) =~= start);
    while i < hooks.len()
        invariant
            i <= hooks@.len(),
            r@ == start + turn_funcs(hooks@, i as int, name@, turn),
        decreases hooks@.len() - i,
    {
        if same(hooks[i].name.as_str(), name) && find_turn(&hooks[i]) == turn {
            r.push(hooks[i].func);
        }
        assert(r@ =~= start + turn_funcs(hooks@, i + 1, name@, turn));
        i += 1;
    }
}

/// The functions of the hooks of this name in the order of their calls:
/// `tryfirst` before the others, `trylast` after them, otherwise in order of
/// registration.
pub fn hooks_in_order(hooks: &[PyHook], name: &str) -> (r: Vec<Handle>)
    ensures
        r@ == call_order(hooks@, name@),
{
    let mut r: Vec<Handle> = Vec::new();
    append_turn(&mut r, hooks, name, Turn::First);
    append_turn(&mut r, hooks, name, Turn::Normal);
    append_turn(&mut r, hooks, name, Turn::Last);
    assert(r@ =~= call_order(hooks@, name@));
    r
}

/// What is said of arguments that no plugin knows.
pub open spec fn unrecognized_text(
    unknown: Seq<Seq<char>>,
    inifile: Option<Seq<char>>,
    rootdir: Seq<char>,
) -> Seq<char> {
    "pytest: error: unrecognized arguments: "@ + joined(unknown, " "@) + (match inifile {
        Some(path) => "\n  inifile: "@ + path,
        None => seq![],
    }) + ("\n  rootdir: "@ + rootdir)
}

/// What is said of arguments that no plugin knows, with the configuration
/// file and the root directory.
pub fn unrecognized_arguments(
    unknown: &[String],
    inifile: &Option<String>,
    rootdir: &str,
) -> (r: String)
    ensures
        r@ == unrecognized_text(
            texts(unknown@),
            opt_text(*inifile),
            rootdir@,
        ),
{
    let mut r: String = "pytest: error: unrecognized arguments: ".to_owned();
    r.append(join(unknown, " ").as_str());
    let ghost start = r@;
    match inifile {
        Some(path) => {
            let mut part: String = "\n  inifile: ".to_owned();
            part.append(path.as_str());
            r.append(part.as_str());
        },
        None => {
            assert(start + Seq::<char>::empty() =~= start);
        },
    }
    let mut part: String = "\n  rootdir: ".to_owned();
    part.append(rootdir);
    r.append(part.as_str());
    r
}

// ---------------------------------------------------------------------------
// Laws
// ---------------------------------------------------------------------------

/// Ordering calls neither loses nor repeats an implementation.
pub proof fn every_hook_is_called_once(hooks: Seq<PyHook>, name: Seq<char>)
    ensures
        call_order(hooks, name).to_multiset() =~= named_funcs(
            hooks,
            hooks.len() as int,
            name,
        ).to_multiset(),
{
    let n = hooks.len() as int;
    turns_make_all(hooks, n, name);
    let a = turn_funcs(hooks, n, name, Turn::First);
    let b = turn_funcs(hooks, n, name, Turn::Normal);
    let c = turn_funcs(hooks, n, name, Turn::Last);
    vstd::seq_lib::lemma_multiset_commutative(a, b);
    vstd::seq_lib::lemma_multiset_commutative(a + b, c);
}

proof fn turns_make_all(hooks: Seq<PyHook>, n: int, name: Seq<char>)
    requires
        0 <= n <= hooks.len(),
    ensures
        named_funcs(hooks, n, name).to_multiset() =~= turn_funcs(
            hooks,
            n,
            name,
            Turn::First,
        ).to_multiset().add(turn_funcs(hooks, n, name, Turn::Normal).to_multiset()).add(
            turn_funcs(hooks, n, name, Turn::Last).to_multiset(),
        ),
    decreases n,
{
    broadcast use vstd::seq_lib::group_to_multiset_ensures;

    if n > 0 {
        turns_make_all(hooks, n - 1, name);
    }
}

/// Where the implementations with this name and turn stand among the first `n`.
proof fn turn_places(hooks: Seq<PyHook>, n: int, name: Seq<char>, turn: Turn) -> (at: Seq<int>)
    requires
        0 <= n <= hooks.len(),
    ensures
        at.len() == turn_funcs(hooks, n, name, turn).len(),
        forall|k: int|
            0 <= k < at.len() ==> {
                let i = #[trigger] at[k];
                &&& 0 <= i < n
                &&& hooks[i].name@ == name
                &&& turn_of(hooks[i]) == turn
                &&& turn_funcs(hooks, n, name, turn)[k] == hooks[i].func
            },
        forall|j: int, k: int| 0 <= j < k < at.len() ==> #[trigger] at[j] < #[trigger] at[k],
        forall|i: int|
            0 <= i < n && (#[trigger] hooks[i]).name@ == name && turn_of(hooks[i]) == turn
                ==> at.contains(i),
    decreases n,
{
    if n <= 0 {
        Seq::empty()
    } else {
        let before = turn_places(hooks, n - 1, name, turn);
        if hooks[n - 1].name@ == name && turn_of(hooks[n - 1]) == turn {
            let at = before.push(n - 1);
            assert forall|j: int, k: int| 0 <= j < k < at.len() implies #[trigger] at[j]
                < #[trigger] at[k] by {
                assert(at[j] == before[j]);
                if k < before.len() {
                    assert(at[k] == before[k]);
                }
            }
            assert forall|i: int|
                0 <= i < n && (#[trigger] hooks[i]).name@ == name && turn_of(hooks[i])
                    == turn implies at.contains(i) by {
                if i < n - 1 {
                    assert(before.contains(i));
                    let k = choose|k: int| 0 <= k < before.len() && before[k] == i;
                    assert(at[k] == i);
                } else {
                    assert(at[before.len() as int] == i);
                }
            }
            assert forall|k: int| 0 <= k < at.len() implies {
                let i = #[trigger] at[k];
                &&& 0 <= i < n
                &&& hooks[i].name@ == name
                &&& turn_of(hooks[i]) == turn
                &&& turn_funcs(hooks, n, name, turn)[k] == hooks[i].func
            } by {
                if k < before.len() {
                    assert(at[k] == before[k]);
                }
            }
            at
        } else {
            before
        }
    }
}

/// The implementations of a hook are called one after the other: those that want to
/// be first, then the others, then those that want to be last, and each of these in
/// the order of registration. `at` says which is called when; it is each of that
/// name, and no other.
pub proof fn hooks_take_turns(hooks: Seq<PyHook>, name: Seq<char>) -> (at: Seq<int>)
    ensures
        at.len() == call_order(hooks, name).len(),
        forall|k: int|
            0 <= k < at.len() ==> 0 <= #[trigger] at[k] < hooks.len() && hooks[at[k]].name@ == name
                && call_order(hooks, name)[k] == hooks[at[k]].func,
        forall|j: int, k: int|
            0 <= j < k < at.len() ==> {
                let a = hooks[#[trigger] at[j]];
                let b = hooks[#[trigger] at[k]];
                &&& b.tryfirst ==> a.tryfirst
                &&& a.trylast && !a.tryfirst ==> b.trylast && !b.tryfirst
                &&& a.tryfirst == b.tryfirst && (a.tryfirst || a.trylast == b.trylast) ==> at[j]
                    < at[k]
            },
        forall|i: int|
            0 <= i < hooks.len() && (#[trigger] hooks[i]).name@ == name ==> at.contains(i),
{
    let n = hooks.len() as int;
    let a = turn_places(hooks, n, name, Turn::First);
    let b = turn_places(hooks, n, name, Turn::Normal);
    let c = turn_places(hooks, n, name, Turn::Last);
    let at = a + b + c;
    let order = call_order(hooks, name);
    assert forall|k: int| 0 <= k < at.len() implies 0 <= #[trigger] at[k] < hooks.len()
        && hooks[at[k]].name@ == name && order[k] == hooks[at[k]].func && turn_of(hooks[at[k]])
        == (if k < a.len() {
        Turn::First
    } else if k < a.len() + b.len() {
        Turn::Normal
    } else {
        Turn::Last
    }) by {
        if k < a.len() {
            assert(at[k] == a[k]);
        } else if k < a.len() + b.len() {
            assert(at[k] == b[k - a.len()]);
        } else {
            assert(at[k] == c[k - a.len() - b.len()]);
        }
    }
    assert forall|j: int, k: int| 0 <= j < k < at.len() implies {
        let x = hooks[#[trigger] at[j]];
        let y = hooks[#[trigger] at[k]];
        &&& y.tryfirst ==> x.tryfirst
        &&& x.trylast && !x.tryfirst ==> y.trylast && !y.tryfirst
        &&& x.tryfirst == y.tryfirst && (x.tryfirst || x.trylast == y.trylast) ==> at[j] < at[k]
    } by {
        if k < a.len() {
            assert(at[j] == a[j] && at[k] == a[k]);
        } else if k < a.len() + b.len() {
            assert(at[k] == b[k - a.len()]);
            if j >= a.len() {
                assert(at[j] == b[j - a.len()]);
            }
        } else {
            assert(at[k] == c[k - a.len() - b.len()]);
            if j >= a.len() + b.len() {
                assert(at[j] == c[j - a.len() - b.len()]);
            }
        }
    }
    assert forall|i: int|
        0 <= i < hooks.len() && (#[trigger] hooks[i]).name@ == name implies at.contains(i) by {
        contains_sum(a + b, c, i);
        contains_sum(a, b, i);
        match turn_of(hooks[i]) {
            Turn::First => assert(a.contains(i)),
            Turn::Normal => assert(b.contains(i)),
            Turn::Last => assert(c.contains(i)),
        }
    }
    at
}

/// The implementations by name alone, in the order of registration; one more at the
/// end comes last where it has the name, and of the conftests where it comes from no
/// plugin module.
pub proof fn hooks_are_found_by_name(hooks: Seq<PyHook>, n: int, name: Seq<char>)
    requires
        0 < n <= hooks.len(),
    ensures
        named_funcs(hooks, 0, name).len() == 0,
        conftest_funcs(hooks, 0, name).len() == 0,
        hooks[n - 1].name@ == name ==> named_funcs(hooks, n, name) == named_funcs(
            hooks,
            n - 1,
            name,
        ).push(hooks[n - 1].func),
        hooks[n - 1].name@ != name ==> named_funcs(hooks, n, name) == named_funcs(
            hooks,
            n - 1,
            name,
        ),
        hooks[n - 1].name@ == name && hooks[n - 1].plugin_module is None ==> conftest_funcs(
            hooks,
            n,
            name,
        ) == conftest_funcs(hooks, n - 1, name).push(hooks[n - 1].func),
        hooks[n - 1].name@ != name || hooks[n - 1].plugin_module is Some ==> conftest_funcs(
            hooks,
            n,
            name,
        ) == conftest_funcs(hooks, n - 1, name),
{
}

/// Arguments that nobody knows are all named, with the configuration file, where
/// there is one, and the root directory.
pub proof fn unknown_arguments_are_named(
    unknown: Seq<Seq<char>>,
    inifile: Seq<char>,
    rootdir: Seq<char>,
)
    ensures
        unrecognized_text(unknown, None, rootdir) == "pytest: error: unrecognized arguments: "@
            + joined(unknown, " "@) + ("\n  rootdir: "@ + rootdir),
        unrecognized_text(unknown, Some(inifile), rootdir)
            == "pytest: error: unrecognized arguments: "@ + joined(unknown, " "@) + (
        "\n  inifile: "@ + inifile) + ("\n  rootdir: "@ + rootdir),
{
    let start = "pytest: error: unrecognized arguments: "@ + joined(unknown, " "@);
    assert(start + Seq::<char>::empty() =~= start);
}

} // verus!
