use pytest_rs_core::fixture::Scope;
use pytest_rs_core::hooks::recorded::{
    above, children, recorded_calls, report_place, Below, Collector, RecordedCall,
};
use pytest_rs_core::hooks::recorder::{collector_tree, dir_key, file_name, SkippedFile};
use pytest_rs_core::introspect::{
    class_nodeid, collect_class, conftest_baseid, drop_self, finalize_generator, inner_baseid,
    introspect_namespace, method_marks, nodeid_of, push_test_items, register_fixture_def,
    register_fixtures_from, AsyncFlags, ClassStep, FixtureMarker, GeneratorEnd, ModuleStep,
    NameEntry, Resumed, TestFunction,
};
use pytest_rs_core::item::{MarkData, TestItem};
use pytest_rs_core::object::Handle;
use pytest_rs_core::parametrize::{
    build_dim, expand_parametrize, id_for_value, parametrize_marks, set_shape, split_argnames, Dim,
    ParamValue, ParamVariant, SetShape, ValueKind, ValueSet,
};
use pytest_rs_core::report::SkippedModule;

fn strings(v: &[&str]) -> Vec<String> {
    v.iter().map(|s| s.to_string()).collect()
}

fn mark(name: &str, id: u64) -> MarkData {
    MarkData { name: name.to_string(), obj: Handle { id } }
}

fn entry(name: &str, is_class: bool, is_callable: bool, is_fixture: bool) -> NameEntry {
    NameEntry { name: Some(name.to_string()), is_class, is_callable, is_fixture }
}

#[test]
fn names_that_are_collected() {
    let entries = [
        entry("TestA", true, true, false),
        entry("Other", true, true, false),
        entry("test_f", false, true, false),
        entry("test_value", false, false, false),
        entry("test_fixture", false, true, true),
        NameEntry { name: None, is_class: false, is_callable: true, is_fixture: false },
        entry("helper", false, true, false),
        entry("testing", false, true, false),
    ];
    assert_eq!(
        introspect_namespace(&entries),
        vec![ModuleStep::Class(0), ModuleStep::Test(2)]
    );
    assert_eq!(register_fixtures_from(&entries), vec![4]);
}

#[test]
fn methods_that_are_collected() {
    let entries = [
        entry("test_m", false, true, false),
        entry("fix", false, true, true),
        entry("test_attr", false, false, false),
        entry("helper", false, true, false),
    ];
    assert_eq!(
        collect_class(false, &entries),
        vec![ClassStep::Test(0), ClassStep::Fixture(1)]
    );
    assert!(collect_class(true, &entries).is_empty());
}

#[test]
fn a_key_that_is_no_string_ends_a_class() {
    let odd = |is_callable: bool, is_fixture: bool| NameEntry {
        name: None,
        is_class: false,
        is_callable,
        is_fixture,
    };
    let entries = [
        entry("test_m", false, true, false),
        entry("value", false, false, false),
        odd(false, false),
        entry("test_n", false, true, false),
        odd(true, true),
    ];
    assert_eq!(
        collect_class(false, &entries),
        vec![ClassStep::Test(0), ClassStep::BadKey(2)]
    );
    assert_eq!(collect_class(false, &entries[3..]), vec![ClassStep::Test(0), ClassStep::BadKey(1)]);
    assert!(collect_class(true, &entries).is_empty());
    // In a module such keys are passed over.
    assert_eq!(
        introspect_namespace(&entries),
        vec![ModuleStep::Test(0), ModuleStep::Test(3)]
    );
    assert!(register_fixtures_from(&entries).is_empty());
}

#[test]
fn marks_that_parametrize() {
    let marks = [
        mark("parametrize", 1),
        mark("skip", 2),
        mark("parametrize", 3),
        mark("parametrized", 4),
    ];
    assert_eq!(parametrize_marks(&marks), vec![0, 2]);
    assert!(parametrize_marks(&marks[1..2]).is_empty());
}

#[test]
fn nodeids_of_tests() {
    assert_eq!(class_nodeid("a.py", "TestX"), "a.py::TestX");
    assert_eq!(inner_baseid("a.py"), "a.py::");
    assert_eq!(conftest_baseid("sub"), "sub/");
    assert_eq!(conftest_baseid(""), "");
    assert_eq!(conftest_baseid("."), "");
    assert_eq!(nodeid_of("a.py", "t", &None), "a.py::t");
    assert_eq!(nodeid_of("a.py", "t", &Some("1-x".to_string())), "a.py::t[1-x]");
    assert_eq!(drop_self(&strings(&["self", "db"]), true), strings(&["db"]));
    assert_eq!(drop_self(&strings(&["self", "db"]), false), strings(&["self", "db"]));
    assert_eq!(drop_self(&strings(&["db"]), true), strings(&["db"]));
    let marks = method_marks(&[mark("own", 1)], &[mark("cls", 2)]);
    let names: Vec<&str> = marks.iter().map(|m| m.name.as_str()).collect();
    assert_eq!(names, vec!["own", "cls"]);
}

#[test]
fn items_of_a_test_function() {
    let test = TestFunction {
        name: "test_f".to_string(),
        func: Handle { id: 5 },
        cls: Some(Handle { id: 6 }),
        flags: AsyncFlags { is_coroutine: true, is_generator: false, is_async_gen: false },
        param_names: strings(&["self", "x"]),
        marks: vec![mark("slow", 1)],
    };
    let variants = [
        ParamVariant {
            id: Some("1".to_string()),
            params: vec![("x".to_string(), Handle { id: 9 })],
            extra_marks: vec![mark("extra", 2)],
        },
        ParamVariant { id: None, params: vec![], extra_marks: vec![] },
    ];
    let mut items: Vec<TestItem> = vec![];
    push_test_items(&mut items, "a.py::T", "a", &strings(&["/", "a.py"]), &test, &variants);
    assert_eq!(items.len(), 2);
    assert_eq!(items[0].nodeid, "a.py::T::test_f[1]");
    assert_eq!(items[1].nodeid, "a.py::T::test_f");
    assert_eq!(items[0].fixture_names, strings(&["x"]));
    assert!(items[0].is_coroutine);
    let names: Vec<&str> = items[0].marks.iter().map(|m| m.name.as_str()).collect();
    assert_eq!(names, vec!["slow", "extra"]);
    assert_eq!(items[0].callspec, vec![("x".to_string(), Handle { id: 9 })]);
}

#[test]
fn fixtures_of_a_module() {
    let marker = FixtureMarker {
        scope: "module".to_string(),
        autouse: true,
        name: Some("other".to_string()),
        params: None,
        ids: None,
    };
    let flags = AsyncFlags { is_coroutine: false, is_generator: true, is_async_gen: false };
    let names = strings(&["self", "db"]);
    let def = register_fixture_def("fix", &marker, Handle { id: 1 }, flags, &names, "a.py::", true);
    assert_eq!(def.name, "other");
    assert_eq!(def.scope, Scope::Module);
    assert!(def.autouse && def.is_generator && def.needs_instance);
    assert_eq!(def.baseid, "a.py::");
    assert_eq!(def.param_names, strings(&["db"]));
    let odd = FixtureMarker { scope: "galaxy".to_string(), name: None, ..marker };
    let def = register_fixture_def("fix", &odd, Handle { id: 1 }, flags, &names, "", false);
    assert_eq!(def.name, "fix");
    assert_eq!(def.scope, Scope::Function);
}

#[test]
fn generators_are_finished() {
    assert!(matches!(finalize_generator(Resumed::Stopped), GeneratorEnd::Finished));
    assert!(matches!(finalize_generator(Resumed::Raised), GeneratorEnd::Reraise));
    assert!(matches!(
        finalize_generator(Resumed::Yielded),
        GeneratorEnd::Error(m) if m == "fixture generator yielded more than once"
    ));
}

fn value(id: u64, kind: ValueKind) -> ParamValue {
    ParamValue { obj: Handle { id }, kind }
}

#[test]
fn ids_of_values() {
    assert_eq!(id_for_value(&ValueKind::Nothing, "x", 0), "None");
    assert_eq!(id_for_value(&ValueKind::Bool(true), "x", 0), "True");
    assert_eq!(id_for_value(&ValueKind::Bool(false), "x", 0), "False");
    assert_eq!(id_for_value(&ValueKind::Text("ab".to_string()), "x", 0), "ab");
    assert_eq!(id_for_value(&ValueKind::Number(Some("1.5".to_string())), "x", 0), "1.5");
    assert_eq!(id_for_value(&ValueKind::Other, "x", 3), "x3");
    assert_eq!(split_argnames("a, b ,c"), strings(&["a", "b", "c"]));
    assert_eq!(split_argnames("a"), strings(&["a"]));
    assert_eq!(set_shape(true, 1), SetShape::Spec);
    assert_eq!(set_shape(false, 2), SetShape::Spread);
    assert_eq!(set_shape(false, 1), SetShape::Single);
}

fn numbers(argname: &str, values: &[&str]) -> Dim {
    let sets: Vec<ValueSet> = values
        .iter()
        .enumerate()
        .map(|(i, v)| ValueSet {
            values: vec![value(i as u64, ValueKind::Text(v.to_string()))],
            id: None,
            marks: vec![],
        })
        .collect();
    build_dim(&strings(&[argname]), &sets, &None).unwrap()
}

#[test]
fn parametrize_is_a_product() {
    let dims = vec![numbers("x", &["a", "b"]), numbers("y", &["1", "2"])];
    let variants = expand_parametrize(&dims);
    let ids: Vec<String> = variants.iter().map(|v| v.id.clone().unwrap()).collect();
    assert_eq!(ids, strings(&["a-1", "a-2", "b-1", "b-2"]));
    assert_eq!(
        variants[2].params,
        vec![("x".to_string(), Handle { id: 1 }), ("y".to_string(), Handle { id: 0 })]
    );
    let none = expand_parametrize(&vec![]);
    assert_eq!(none.len(), 1);
    assert_eq!(none[0].id, None);
}

#[test]
fn a_mark_without_sets_gives_no_variants() {
    let empty = build_dim(&strings(&["x"]), &[], &None).unwrap();
    assert_eq!(empty.sets.len(), 0);
    let sets = [ValueSet { values: vec![value(0, ValueKind::Other)], id: None, marks: vec![] }];
    let one = build_dim(&strings(&["y"]), &sets, &None).unwrap();
    assert_eq!(expand_parametrize(&vec![one, empty]).len(), 0);
}

#[test]
fn value_sets_need_a_value_per_argument() {
    let sets = [ValueSet { values: vec![value(0, ValueKind::Other)], id: None, marks: vec![] }];
    let wrong = build_dim(&strings(&["a", "b"]), &sets, &None);
    assert_eq!(
        wrong.err(),
        Some("parametrize: 2 argnames but 1 values".to_string())
    );
}

#[test]
fn ids_are_chosen_in_turn() {
    let set = |id: Option<&str>| ValueSet {
        values: vec![value(0, ValueKind::Bool(true)), value(1, ValueKind::Other)],
        id: id.map(|s| s.to_string()),
        marks: vec![mark("m", 3)],
    };
    let ids = Some(vec![Some("first".to_string()), Some("second".to_string()), None]);
    let sets = [set(Some("own")), set(None), set(None), set(None)];
    let dim = build_dim(&strings(&["a", "b"]), &sets, &ids).unwrap();
    let found: Vec<String> = dim.sets.iter().map(|s| s.id.clone()).collect();
    assert_eq!(found, strings(&["own", "second", "True-b2", "True-b3"]));
    assert_eq!(dim.sets[0].marks[0].name, "m");
}

fn item(nodeid: &str) -> TestItem {
    TestItem {
        nodeid: nodeid.to_string(),
        path: strings(&["/", "r", "a.py"]),
        module_name: "m".to_string(),
        func_name: "f".to_string(),
        func: Handle { id: 0 },
        cls: None,
        is_coroutine: false,
        fixture_names: vec![],
        extra_fixture_names: vec![],
        marks: vec![],
        callspec: vec![],
        max_param_scope: Scope::Function,
        scope_sort_keys: vec![],
        is_doctest: false,
        collector_class: String::new(),
        func_class: String::new(),
    }
}

#[test]
fn tree_of_collectors() {
    let items = [item("d/a.py::T::m"), item("d/a.py::f"), item("d/a.py::T::n"), item("b.py::g")];
    let skipped = [SkippedModule {
        nodeid: "d/s.py".to_string(),
        reason: "later".to_string(),
        location: "d/s.py:4".to_string(),
    }];
    let file_skips: [SkippedFile; 0] = [];
    let tree = collector_tree(&items, &strings(&["bad.py"]), &skipped, &file_skips);
    let modules: Vec<&str> = tree.modules.iter().map(|m| m.file.as_str()).collect();
    assert_eq!(modules, vec!["d/a.py", "b.py"]);
    assert_eq!(tree.classes.len(), 1);
    assert_eq!(tree.classes[0].key, "d/a.py::T");
    assert_eq!(tree.classes[0].items.len(), 2);
    assert_eq!(tree.modules[0].items.len(), 1);
    assert_eq!(tree.modules[0].items[0].name, "f");
    assert_eq!(tree.skipped[0].nodeid, "d/s.py");
    assert_eq!(tree.failing[0].nodeid, "bad.py");
    assert_eq!(dir_key("d/e/a.py"), "d/e");
    assert_eq!(file_name("d/e/a.py"), "a.py");
}

#[test]
fn single_dots_in_paths_are_dropped() {
    let paths = ["a/./b.py", "./b.py", "b.py", "a//b.py", "a/b/.", "a/../b.py", "/b.py", "/a/./b"];
    for path in paths {
        let path = std::path::Path::new(path);
        let dir = path.parent().unwrap().to_str().unwrap();
        let text = path.to_str().unwrap();
        assert_eq!(dir_key(text), if dir.is_empty() { "." } else { dir }, "{text}");
        assert_eq!(file_name(text), path.file_name().unwrap().to_str().unwrap(), "{text}");
    }
    assert_eq!(dir_key("/"), ".");
    assert_eq!(file_name("/"), "/");
    assert_eq!(file_name("a/.."), "a/..");
}

#[test]
fn calls_for_a_tree_of_collectors() {
    let items = [item("a.py::T::m"), item("a.py::f")];
    let skipped = [SkippedModule {
        nodeid: "s.py".to_string(),
        reason: "later".to_string(),
        location: "s.py:4".to_string(),
    }];
    let file_skips: [SkippedFile; 0] = [];
    let tree = collector_tree(&items, &strings(&["d/bad.py"]), &skipped, &file_skips);
    let three = |c: Collector| {
        vec![RecordedCall::Start(c), RecordedCall::MakeReport(c), RecordedCall::Report(c)]
    };
    let module = Collector::Module(0);
    let mut expected = three(Collector::Session);
    expected.extend(three(Collector::Class(0)));
    expected.push(RecordedCall::Start(module));
    expected.push(RecordedCall::MakeReport(module));
    expected.push(RecordedCall::MakeItem { module: 0, name: 0 });
    expected.push(RecordedCall::MakeItem { module: 0, name: 1 });
    expected.push(RecordedCall::Report(module));
    expected.extend(three(Collector::Skipped(0)));
    expected.push(RecordedCall::Start(Collector::Failing(0)));
    expected.extend(three(Collector::Dir(0)));
    expected.extend(three(Collector::Dir(1)));
    assert_eq!(recorded_calls(&tree), expected);
    assert_eq!(tree.modules[0].made, strings(&["T", "f"]));
    assert_eq!(children(&tree, Collector::Session), vec![Below::Dir(0), Below::Dir(1)]);
    assert_eq!(children(&tree, Collector::Dir(0)), vec![Below::Module(0)]);
    assert_eq!(
        children(&tree, module),
        vec![Below::Class(0), Below::ModuleItem { module: 0, item: 0 }]
    );
    assert_eq!(
        children(&tree, Collector::Class(0)),
        vec![Below::ClassItem { class: 0, item: 0 }]
    );
    assert_eq!(children(&tree, Collector::Failing(0)), vec![]);
    assert_eq!(above(&tree, Collector::Class(0)), Some(module));
    assert_eq!(above(&tree, Collector::Failing(0)), Some(Collector::Dir(1)));
    assert_eq!(above(&tree, Collector::Skipped(0)), Some(Collector::Dir(0)));
    assert_eq!(above(&tree, Collector::Session), None);
    assert_eq!(
        report_place(&tree, Collector::Class(0)),
        ("a.py::T".to_string(), "a.py".to_string())
    );
}
