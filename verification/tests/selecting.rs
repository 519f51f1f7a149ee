use pytest_rs_core::collect::param_scope::{
    dedup_keys, reorder_items_by_param_scope, scope_boundary, take_in_order, ParamKey,
};
use pytest_rs_core::collect::reorder::{next_lower_scope, reorder_items_atscope, Slot};
use pytest_rs_core::fixture::Scope;
use pytest_rs_core::hooks::firing::{
    callees, fires, modify_steps, name_of, nodes_of_class, Hook, Listeners, ModifyStep,
};
use pytest_rs_core::hooks::order::{
    conftest_hooks_named, hooks_in_order, hooks_named, unrecognized_arguments, PyHook,
};
use pytest_rs_core::hooks::readback::{distinct_classes, read_back, NodeState};
use pytest_rs_core::item::{MarkData, SortKey, TestItem};
use pytest_rs_core::object::Handle;
use pytest_rs_core::selection::{
    apply_deselect, apply_results, auto_workers, check_strict_markers, first_raised,
    keyword_expression, mark_expression, marker_name, strict_markers, strict_parametrization_ids,
    workers_plan, WorkersPlan,
};

fn strings(v: &[&str]) -> Vec<String> {
    v.iter().map(|s| s.to_string()).collect()
}

fn item(nodeid: &str, marks: &[&str]) -> TestItem {
    TestItem {
        nodeid: nodeid.to_string(),
        path: strings(&["/", "r", "a.py"]),
        module_name: "m".to_string(),
        func_name: "f".to_string(),
        func: Handle { id: 0 },
        cls: None,
        is_coroutine: false,
        fixture_names: vec![],
        extra_fixture_names: vec![],
        marks: marks
            .iter()
            .map(|m| MarkData { name: m.to_string(), obj: Handle { id: 1 } })
            .collect(),
        callspec: vec![],
        max_param_scope: Scope::Function,
        scope_sort_keys: vec![],
        is_doctest: false,
        collector_class: String::new(),
        func_class: String::new(),
    }
}

fn nodeids(items: &[TestItem]) -> Vec<String> {
    items.iter().map(|i| i.nodeid.clone()).collect()
}

#[test]
fn strictness_of_markers() {
    assert!(!strict_markers(false, false, None, None));
    assert!(strict_markers(true, false, None, None));
    assert!(strict_markers(false, true, None, None));
    assert!(strict_markers(false, false, Some(" True "), None));
    assert!(strict_markers(false, false, Some("no"), Some("1")));
    assert!(!strict_markers(false, false, Some("TRUE"), Some("yes")));
    assert!(strict_parametrization_ids(None, Some("true")));
    assert!(!strict_parametrization_ids(Some("false"), Some("true")));
    assert!(strict_parametrization_ids(Some("1"), None));
    assert!(!strict_parametrization_ids(None, None));
}

#[test]
fn marker_names_of_lines() {
    assert_eq!(marker_name(" slow: takes long "), "slow");
    assert_eq!(marker_name("timeout(n): stop"), "timeout");
    assert_eq!(marker_name("bare"), "bare");
    assert_eq!(marker_name(": x"), "");
}

#[test]
fn unregistered_marks_are_errors() {
    let items = vec![item("a", &["skip", "slow"]), item("b", &["fast", "odd"])];
    let lines = strings(&["slow: x"]);
    assert_eq!(
        check_strict_markers(true, &lines, &strings(&["other"]), &items),
        Err("'fast' not found in `markers` configuration option".to_string())
    );
    assert_eq!(
        check_strict_markers(true, &lines, &strings(&["fast(x)", "odd"]), &items),
        Ok(())
    );
    assert_eq!(check_strict_markers(false, &[], &[], &items), Ok(()));
}

#[test]
fn deselection_by_prefix() {
    let items = vec![item("a.py::t", &[]), item("a.py::t2", &[]), item("b.py::t", &[])];
    let (kept, removed) = apply_deselect(items, &strings(&["a.py::t", "c.py"]));
    assert_eq!(nodeids(&kept), strings(&["b.py::t"]));
    assert_eq!(nodeids(&removed), strings(&["a.py::t", "a.py::t2"]));
}

#[test]
fn results_of_expressions() {
    let items = vec![item("a", &[]), item("b", &[]), item("c", &[])];
    let results = [Some(true), None, Some(false)];
    assert_eq!(first_raised(&results), Some(1));
    let (kept, removed) = apply_results(items, &results);
    assert_eq!(nodeids(&kept), strings(&["a", "b"]));
    assert_eq!(nodeids(&removed), strings(&["c"]));
    assert_eq!(first_raised(&[Some(false)]), None);
    assert_eq!(keyword_expression("  a "), Some("a ".to_string()));
    assert_eq!(mark_expression("  a "), Some("a".to_string()));
    assert_eq!(keyword_expression("   "), None);
    assert_eq!(mark_expression(""), None);
}

#[test]
fn numbers_of_workers() {
    assert_eq!(workers_plan(None, false, false, Some(3)), WorkersPlan::Fixed(None));
    assert_eq!(workers_plan(None, true, false, Some(3)), WorkersPlan::Fixed(Some(3)));
    assert_eq!(workers_plan(None, false, true, Some(0)), WorkersPlan::Fixed(None));
    assert_eq!(workers_plan(None, true, true, None), WorkersPlan::Fixed(None));
    assert_eq!(workers_plan(Some("4"), true, true, Some(9)), WorkersPlan::Fixed(Some(4)));
    assert_eq!(workers_plan(Some("0"), false, false, None), WorkersPlan::Fixed(None));
    assert_eq!(workers_plan(Some("x"), false, false, None), WorkersPlan::Fixed(None));
    assert_eq!(
        workers_plan(Some("auto"), false, false, None),
        WorkersPlan::Auto { logical: false }
    );
    assert_eq!(
        workers_plan(Some("logical"), false, false, None),
        WorkersPlan::Auto { logical: true }
    );
    assert_eq!(auto_workers(None, 8, None), Some(8));
    assert_eq!(auto_workers(Some(3), 8, Some(2)), Some(2));
    assert_eq!(auto_workers(Some(3), 8, Some(20)), Some(3));
    assert_eq!(auto_workers(Some(0), 8, None), None);
}

#[test]
fn next_lower_scopes() {
    assert_eq!(next_lower_scope(Scope::Session), Scope::Package);
    assert_eq!(next_lower_scope(Scope::Package), Scope::Module);
    assert_eq!(next_lower_scope(Scope::Module), Scope::Class);
    assert_eq!(next_lower_scope(Scope::Class), Scope::Function);
}

#[test]
fn parameters_of_wide_scopes_group_items() {
    let with_key = |nodeid: &str, index: usize| {
        let mut it = item(nodeid, &[]);
        it.max_param_scope = Scope::Session;
        it.scope_sort_keys =
            vec![SortKey { arg: "p".to_string(), scope: Scope::Session, index }];
        it
    };
    let mut items = vec![
        with_key("a.py::x[0]", 0),
        with_key("a.py::x[1]", 1),
        with_key("a.py::y[0]", 0),
        with_key("a.py::y[1]", 1),
    ];
    reorder_items_by_param_scope(&mut items);
    assert_eq!(
        nodeids(&items),
        strings(&["a.py::x[0]", "a.py::y[0]", "a.py::x[1]", "a.py::y[1]"])
    );
}

#[test]
fn items_of_one_key_stand_together() {
    let slot = |scope: Scope, key: usize| vec![Slot { scope, key }];
    let of_item = vec![
        slot(Scope::Module, 0),
        slot(Scope::Module, 1),
        Vec::new(),
        slot(Scope::Module, 0),
    ];
    let mut of_key = vec![vec![0, 3], vec![1]];
    let order = reorder_items_atscope(&[0, 1, 2, 3], &of_item, &mut of_key, Scope::Module);
    assert_eq!(order, vec![0, 3, 1, 2]);
    assert_eq!(of_key, vec![vec![0, 3], vec![1]]);
    let few = reorder_items_atscope(&[1, 0], &of_item, &mut of_key, Scope::Module);
    assert_eq!(few, vec![1, 0]);
    assert_eq!(take_in_order(vec!['a', 'b', 'c', 'd'], &order), vec!['a', 'd', 'b', 'c']);
}

#[test]
fn groups_follow_the_first_use_of_their_key() {
    let keyed = |nodeid: &str, scope: Scope, index: usize| {
        let mut it = item(nodeid, &[]);
        it.max_param_scope = scope;
        it.scope_sort_keys = vec![SortKey { arg: "p".to_string(), scope, index }];
        it
    };
    for scope in [Scope::Session, Scope::Package, Scope::Module] {
        let mut items = vec![
            item("a.py::n", &[]),
            keyed("a.py::p[2]", scope, 2),
            keyed("a.py::p[0]", scope, 0),
            keyed("a.py::q[2]", scope, 2),
            item("a.py::m", &[]),
            keyed("a.py::q[0]", scope, 0),
            keyed("a.py::r[2]", scope, 2),
        ];
        reorder_items_by_param_scope(&mut items);
        assert_eq!(
            nodeids(&items),
            strings(&[
                "a.py::n",
                "a.py::p[2]",
                "a.py::q[2]",
                "a.py::r[2]",
                "a.py::p[0]",
                "a.py::q[0]",
                "a.py::m",
            ])
        );
    }
    // Keys of several scopes need not stand together.
    let mut items = vec![
        keyed("a.py::m1", Scope::Module, 0),
        keyed("a.py::s1", Scope::Session, 0),
        keyed("a.py::m2", Scope::Module, 0),
        keyed("a.py::s2", Scope::Session, 0),
    ];
    reorder_items_by_param_scope(&mut items);
    assert_eq!(nodeids(&items), strings(&["a.py::m1", "a.py::s1", "a.py::s2", "a.py::m2"]));
}

#[test]
fn keys_are_kept_once() {
    let key = |arg: &str, index: usize| ParamKey {
        scope: Scope::Session,
        arg: arg.to_string(),
        index,
        boundary: String::new(),
    };
    let kept = dedup_keys(vec![key("b", 1), key("a", 1), key("b", 1), key("b", 2)]);
    let shown: Vec<(String, usize)> = kept.into_iter().map(|k| (k.arg, k.index)).collect();
    assert_eq!(
        shown,
        vec![("b".to_string(), 1), ("a".to_string(), 1), ("b".to_string(), 2)]
    );
}

#[test]
fn items_without_parameters_keep_their_order() {
    let mut items = vec![item("b", &[]), item("a", &[]), item("c", &[])];
    reorder_items_by_param_scope(&mut items);
    assert_eq!(nodeids(&items), strings(&["b", "a", "c"]));
}

#[test]
fn boundaries_of_scopes() {
    assert_eq!(scope_boundary("d/a.py::T::m", Scope::Session), "");
    assert_eq!(scope_boundary("d/a.py::T::m", Scope::Module), "d/a.py");
    assert_eq!(scope_boundary("d/a.py::T::m", Scope::Package), "d");
    assert_eq!(scope_boundary("d/a.py::T::m", Scope::Class), "d/a.py::T");
    assert_eq!(scope_boundary("t.py::A::B::test_x", Scope::Class), "t.py::A::B");
    assert_eq!(scope_boundary("t.py::A::test_x[u::v]", Scope::Class), "t.py::A");
    assert_eq!(scope_boundary("t.py::f[u::v]", Scope::Class), "t.py");
    assert_eq!(scope_boundary("t.py", Scope::Class), "t.py");
    assert_eq!(scope_boundary("d[x]/t.py::A::test", Scope::Class), "d[x]/t.py::A");
    assert_eq!(scope_boundary("d[x]/t.py::test[u::v]", Scope::Class), "d[x]/t.py");
    assert_eq!(scope_boundary("d[x]/t.py", Scope::Class), "d[x]/t.py");
}

fn hook(name: &str, id: u64, tryfirst: bool, trylast: bool, module: Option<&str>) -> PyHook {
    PyHook {
        name: name.to_string(),
        func: Handle { id },
        tryfirst,
        trylast,
        plugin_module: module.map(|m| m.to_string()),
    }
}

#[test]
fn hooks_are_called_in_turn() {
    let hooks = [
        hook("pytest_configure", 1, false, true, None),
        hook("pytest_configure", 2, false, false, Some("plug")),
        hook("other", 3, true, false, None),
        hook("pytest_configure", 4, true, false, None),
        hook("pytest_configure", 5, true, true, None),
    ];
    let ids = |v: Vec<Handle>| v.iter().map(|h| h.id).collect::<Vec<u64>>();
    assert_eq!(ids(hooks_in_order(&hooks, "pytest_configure")), vec![4, 5, 2, 1]);
    assert_eq!(ids(hooks_named(&hooks, "pytest_configure")), vec![1, 2, 4, 5]);
    assert_eq!(ids(conftest_hooks_named(&hooks, "pytest_configure")), vec![1, 4, 5]);
    assert_eq!(ids(callees(Hook::Configure, &hooks, vec![])), vec![4, 5, 2, 1]);
}

#[test]
fn objects_are_called_before_or_after() {
    let hooks = [
        hook("pytest_collection_modifyitems", 1, false, false, None),
        hook("pytest_deselected", 2, false, false, None),
        hook("pytest_terminal_summary", 3, false, false, Some("plug")),
        hook("pytest_terminal_summary", 4, false, false, None),
    ];
    let ids = |v: Vec<Handle>| v.iter().map(|h| h.id).collect::<Vec<u64>>();
    let objects = || vec![Handle { id: 9 }];
    assert_eq!(ids(callees(Hook::ModifyItems, &hooks, objects())), vec![1, 9]);
    assert_eq!(ids(callees(Hook::Deselected, &hooks, objects())), vec![9, 2]);
    assert_eq!(ids(callees(Hook::TerminalSummary, &hooks, objects())), vec![9, 4]);
    assert_eq!(name_of(Hook::SessionFinish), "pytest_sessionfinish");
}

#[test]
fn hooks_without_listeners_do_not_fire() {
    let nobody = Listeners { recording: false, delegated: false };
    let recorder = Listeners { recording: true, delegated: false };
    let reporter = Listeners { recording: false, delegated: true };
    assert!(!fires(Hook::Configure, 0, nobody));
    assert!(fires(Hook::Configure, 0, recorder));
    assert!(!fires(Hook::SessionStart, 0, recorder));
    assert!(fires(Hook::SessionStart, 1, nobody));
    assert!(fires(Hook::Deselected, 0, reporter));
    assert!(!fires(Hook::TerminalSummary, 1, reporter));
}

#[test]
fn course_of_modifyitems() {
    assert_eq!(
        modify_steps(0, 0, 0, false),
        vec![ModifyStep::Select, ModifyStep::NativePlugins]
    );
    assert_eq!(
        modify_steps(1, 1, 1, true),
        vec![
            ModifyStep::CollectStart,
            ModifyStep::ItemCollected,
            ModifyStep::ModifyItems,
            ModifyStep::Record,
            ModifyStep::SessionMarks,
            ModifyStep::ReadBack,
            ModifyStep::Select,
            ModifyStep::NativePlugins
        ]
    );
    let c = Some(Handle { id: 7 });
    assert_eq!(nodes_of_class(&[c, None, Some(Handle { id: 8 }), c], Handle { id: 7 }), vec![0, 3]);
    let classes = distinct_classes(&[None, c, Some(Handle { id: 8 }), c]);
    assert_eq!(classes, vec![Handle { id: 7 }, Handle { id: 8 }]);
}

#[test]
fn items_are_read_back() {
    let items = vec![item("a", &["x"]), item("b", &[]), item("a", &["y"])];
    let node = |nodeid: &str, mark: &str| NodeState {
        nodeid: nodeid.to_string(),
        marks: vec![MarkData { name: mark.to_string(), obj: Handle { id: 2 } }],
    };
    let nodes = [node("b", "m1"), node("a", "m2"), node("gone", "m3"), node("b", "m4")];
    let back = read_back(items, &nodes);
    assert_eq!(nodeids(&back), strings(&["b", "a"]));
    assert_eq!(back[0].marks[0].name, "m1");
    assert_eq!(back[1].marks[0].name, "m2");
}

#[test]
fn unrecognized_arguments_are_listed() {
    let text =
        unrecognized_arguments(&strings(&["--x", "-y"]), &Some("/r/pytest.ini".to_string()), "/r");
    assert_eq!(
        text,
        "pytest: error: unrecognized arguments: --x -y\n  inifile: /r/pytest.ini\n  rootdir: /r"
    );
    let text = unrecognized_arguments(&strings(&["--x"]), &None, "/r");
    assert_eq!(text, "pytest: error: unrecognized arguments: --x\n  rootdir: /r");
}
