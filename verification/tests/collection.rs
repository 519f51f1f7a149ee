use pytest_rs_core::collect::arguments::{
    path_part, resolve_pyarg, testpaths_plan, testpaths_warning, PathsPlan,
};
use pytest_rs_core::collect::config::{
    goes_to_stderr, next_config, strict_config, ConfigAction, ConfigEvent, ConfigOptions,
    WarningPlace,
};
use pytest_rs_core::collect::configure::{
    next_configure, usage_message, ConfigureAction, ConfigureEvent,
};
use pytest_rs_core::collect::conftests::{conftest_dirs, dirs_below, start_dirs, PathArg};
use pytest_rs_core::collect::extra::{
    drop_skipped, extra_steps, module_failure, new_text_files, ExtraStep,
};
use pytest_rs_core::collect::files::{
    doctests_first, import_effect, next_file, raised_event, raised_kind, start_files,
    wanted_traceback, with_sections, FileAction, FileEvent, FileOptions, Raised, RaisedKind,
    SourceFile, Traceback,
};
use pytest_rs_core::collect::finalize::{
    arg_sel, item_closure, item_name, missing_args, record_closure, select_by_args, selects_items,
    ArgPlace, ArgSel,
};
use pytest_rs_core::collect::ignores::{left_out, settle_file, IgnoreWalk, Verdict, WalkStep};
use pytest_rs_core::collect::phases::{
    next_phase, skip_module_import, was_collected, CollectAction, CollectEvent, CollectOptions,
    ImportOptions,
};
use pytest_rs_core::collect::scan::{inspect_conftest, visits, Child, Visit};
use pytest_rs_core::fixture::{FixtureDef, FixtureRegistry, Scope};
use pytest_rs_core::item::TestItem;
use pytest_rs_core::object::Handle;
use pytest_rs_core::report::{Outcome, Phase, Section};
use pytest_rs_core::session::abort::collect_failure;

fn strings(v: &[&str]) -> Vec<String> {
    v.iter().map(|s| s.to_string()).collect()
}

fn path(s: &str) -> Vec<String> {
    let mut r = strings(&["/"]);
    r.extend(s.split('/').filter(|p| !p.is_empty()).map(|p| p.to_string()));
    r
}

fn item(nodeid: &str, file: &str) -> TestItem {
    TestItem {
        nodeid: nodeid.to_string(),
        path: path(file),
        module_name: "m".to_string(),
        func_name: "f".to_string(),
        func: Handle { id: 0 },
        cls: None,
        is_coroutine: false,
        fixture_names: vec![],
        extra_fixture_names: vec![],
        marks: vec![],
        callspec: vec![],
        max_param_scope: Scope::Function,
        scope_sort_keys: vec![],
        is_doctest: false,
        collector_class: String::new(),
        func_class: String::new(),
    }
}

fn nodeids(items: &[TestItem]) -> Vec<String> {
    items.iter().map(|i| i.nodeid.clone()).collect()
}

fn file(name: &str, extension: Option<&str>, rejected: bool) -> SourceFile {
    SourceFile {
        shown: format!("/r/{name}"),
        nodeid: name.to_string(),
        extension: extension.map(|e| e.to_string()),
        rejected,
    }
}

fn options() -> FileOptions {
    FileOptions {
        maxfail: None,
        skip_module_import: false,
        doctest_modules: false,
        doctest_ignore_import_errors: false,
    }
}

fn raised() -> Raised {
    Raised {
        keyboard_interrupt: false,
        system_exit: false,
        skip: None,
        location: None,
        collect_error: None,
        import_error: false,
    }
}

#[test]
fn testpaths_count_only_at_the_root() {
    let lines = strings(&["tests  more", "", "docs"]);
    assert!(matches!(
        testpaths_plan(0, &lines, true, false),
        PathsPlan::Glob(g) if g == strings(&["tests", "more", "docs"])
    ));
    assert!(matches!(
        testpaths_plan(0, &lines, true, true),
        PathsPlan::Modules(m) if m.len() == 3
    ));
    assert!(matches!(testpaths_plan(1, &lines, true, false), PathsPlan::Keep));
    assert!(matches!(testpaths_plan(0, &lines, false, false), PathsPlan::Keep));
    assert!(matches!(testpaths_plan(0, &strings(&[" "]), true, false), PathsPlan::Keep));
    assert!(testpaths_warning(0).unwrap().starts_with("No files were found in testpaths; "));
    assert_eq!(testpaths_warning(2), None);
}

#[test]
fn pyargs_are_resolved() {
    assert_eq!(path_part("pkg.mod::T::m"), "pkg.mod");
    assert_eq!(path_part("pkg"), "pkg");
    let found = Some("/lib/pkg/mod.py".to_string());
    assert_eq!(
        resolve_pyarg("pkg.mod::T::m", &found, false),
        Ok("/lib/pkg/mod.py::T::m".to_string())
    );
    assert_eq!(resolve_pyarg("pkg", &found, true), Ok("/lib/pkg/mod.py".to_string()));
    assert_eq!(resolve_pyarg("t.py::f", &None, true), Ok("t.py::f".to_string()));
    assert_eq!(
        resolve_pyarg("nope", &None, false),
        Err("module or package not found: nope (missing __init__.py?)".to_string())
    );
}

#[test]
fn conftest_search_starts() {
    let args = [
        PathArg { path: path("r/a"), is_dir: true },
        PathArg { path: path("r/b/t.py"), is_dir: false },
        PathArg { path: path(""), is_dir: false },
    ];
    let files = [path("r/c/x.py")];
    assert_eq!(
        start_dirs(false, &path("r"), &args, &files),
        vec![path("r/a"), path("r/b"), path("r/c")]
    );
    assert_eq!(
        start_dirs(true, &path("r"), &args, &files),
        vec![path("r/a"), path("r/b"), strings(&[])]
    );
    assert_eq!(start_dirs(false, &path("r"), &[], &files), vec![path("r"), path("r/c")]);
    assert_eq!(start_dirs(true, &path("r"), &[], &files), vec![path("r")]);
}

#[test]
fn outer_conftests_come_first() {
    let starts = [path("r/a/b"), path("r/c"), path("r/a")];
    assert_eq!(
        conftest_dirs(&starts, &path("r"), &None),
        vec![path("r"), path("r/a"), path("r/a/b"), path("r/c")]
    );
    assert_eq!(
        conftest_dirs(&starts, &path("r"), &Some(path("r/a"))),
        vec![path("r/a"), path("r/a/b"), path("r/c")]
    );
    // A start outside the root directory is followed to the top.
    assert_eq!(
        conftest_dirs(&[path("x/y")], &path("r"), &None),
        vec![path(""), path("x"), path("x/y")]
    );
}

#[test]
fn directories_to_ask() {
    assert_eq!(dirs_below(&path("r/a/b"), &path("r")), vec![path("r/a/b"), path("r/a")]);
    assert_eq!(dirs_below(&path("r"), &path("r")), Vec::<Vec<String>>::new());
    assert_eq!(dirs_below(&path("x"), &path("r")), vec![path("x"), path("")]);
}

#[test]
fn conftests_leave_files_out() {
    let ignored = [path("r/skip"), path("r/one.py")];
    assert!(left_out(&path("r/skip/x.py"), &ignored, &[]));
    assert!(left_out(&path("r/one.py"), &ignored, &[]));
    assert!(!left_out(&path("r/one.pyx"), &ignored, &[false]));
    assert!(left_out(&path("r/two.py"), &ignored, &[false, true]));
}

#[test]
fn ignored_directories_are_asked_once() {
    let mut walk = IgnoreWalk::new();
    let chain = dirs_below(&path("r/a/b"), &path("r"));
    assert_eq!(walk.step(&chain, 0), WalkStep::AskDir(0));
    walk.record(&chain[0], false);
    assert_eq!(walk.step(&chain, 1), WalkStep::AskDir(1));
    walk.record(&chain[1], true);
    assert_eq!(walk.step(&chain, 0), WalkStep::DirIgnored);
    let other = dirs_below(&path("r/c"), &path("r"));
    walk.record(&other[0], false);
    assert_eq!(walk.step(&other, 0), WalkStep::AskFile);
}

#[test]
fn files_are_kept_ignored_or_skipped() {
    let mut kept = vec![];
    let mut reports = vec![];
    settle_file(path("r/a.py"), "a.py", &Verdict::Keep, &mut kept, &mut reports);
    settle_file(path("r/b.py"), "b.py", &Verdict::Ignore, &mut kept, &mut reports);
    let skip = Verdict::Skip("later".to_string());
    settle_file(path("r/c.py"), "c.py", &skip, &mut kept, &mut reports);
    assert_eq!(kept, vec![path("r/a.py")]);
    assert_eq!(reports.len(), 1);
    assert_eq!(reports[0].nodeid, "c.py");
    assert_eq!(reports[0].outcome, Outcome::Skipped);
    assert_eq!(reports[0].phase, Phase::Setup);
    assert_eq!(reports[0].longrepr.as_deref(), Some("later"));
    assert_eq!(reports[0].location, None);
}

#[test]
fn files_are_collected_in_order() {
    let files = [
        file("no.py", Some("py"), true),
        file("a.py", Some("py"), false),
        file("b.pyc", Some("pyc"), false),
        file("c.txt", Some("txt"), false),
        file("Makefile", None, false),
        file("d.py", Some("py"), false),
    ];
    let o = options();
    let s = start_files(&o, &files, 0);
    assert_eq!(s.action, FileAction::Import(1));
    let s = next_file(&o, &files, s, FileEvent::Loaded);
    assert_eq!(s.action, FileAction::CollectText(3));
    assert_eq!(s.left_over, vec![2]);
    let s = next_file(&o, &files, s, FileEvent::Failed);
    assert_eq!(s.action, FileAction::Import(5));
    assert_eq!(s.errors, 1);
    assert_eq!(s.left_over, vec![2, 4]);
    let s = next_file(&o, &files, s, FileEvent::Done);
    assert_eq!(s.action, FileAction::Finish);
}

#[test]
fn maxfail_stops_collection() {
    let files = [file("a.py", Some("py"), false), file("b.py", Some("py"), false)];
    let o = FileOptions { maxfail: Some(1), ..options() };
    let s = start_files(&o, &files, 0);
    assert_eq!(s.action, FileAction::Import(0));
    let s = next_file(&o, &files, s, FileEvent::Failed);
    assert_eq!(s.action, FileAction::Finish);
    assert_eq!(start_files(&o, &files, 1).action, FileAction::Finish);
}

#[test]
fn controller_does_not_import() {
    let files = [file("a.py", Some("py"), false), file("b.md", Some("md"), false)];
    let o = FileOptions { skip_module_import: true, ..options() };
    assert_eq!(start_files(&o, &files, 0).action, FileAction::CollectText(1));
    let spread = ImportOptions {
        numbered: true,
        dist_load: false,
        has_tx: false,
        collect_only: false,
        fixtures: false,
        fixtures_per_test: false,
    };
    assert!(skip_module_import(&spread));
    assert!(!skip_module_import(&ImportOptions { collect_only: true, ..spread }));
    assert!(!skip_module_import(&ImportOptions { numbered: false, ..spread }));
    assert!(skip_module_import(&ImportOptions { numbered: false, has_tx: true, ..spread }));
}

#[test]
fn doctests_follow_the_import() {
    let files = [file("a.py", Some("py"), false)];
    let o = FileOptions { doctest_modules: true, ..options() };
    let s = start_files(&o, &files, 0);
    let s = next_file(&o, &files, s, FileEvent::Loaded);
    assert_eq!(s.action, FileAction::CollectDoctests(0));
    let s = next_file(&o, &files, s, FileEvent::Done);
    assert_eq!(s.action, FileAction::Finish);
    let s = start_files(&o, &files, 0);
    let s = next_file(&o, &files, s, FileEvent::Fatal);
    assert_eq!(s.action, FileAction::Fail);
}

#[test]
fn doctests_stand_before_functions() {
    assert_eq!(doctests_first(vec![1, 2, 3, 4, 5], 1, 3), vec![1, 4, 5, 2, 3]);
    assert_eq!(doctests_first(vec![1, 2], 0, 2), vec![1, 2]);
}

#[test]
fn exceptions_of_imports_are_told_apart() {
    let mut r = raised();
    assert_eq!(raised_kind(&r), RaisedKind::Other);
    r.import_error = true;
    assert_eq!(raised_kind(&r), RaisedKind::ImportError);
    r.collect_error = Some("m".to_string());
    assert_eq!(raised_kind(&r), RaisedKind::CollectError);
    r.skip = Some(Err("wrong place".to_string()));
    assert_eq!(raised_kind(&r), RaisedKind::MisplacedSkip);
    r.skip = Some(Ok("why".to_string()));
    assert_eq!(raised_kind(&r), RaisedKind::ModuleSkip);
    r.system_exit = true;
    assert_eq!(raised_kind(&r), RaisedKind::Exit);
    r.keyboard_interrupt = true;
    assert_eq!(raised_kind(&r), RaisedKind::Interrupt);
    assert_eq!(raised_event(RaisedKind::Interrupt), FileEvent::Fatal);
    assert_eq!(raised_event(RaisedKind::ModuleSkip), FileEvent::Done);
    assert_eq!(raised_event(RaisedKind::Other), FileEvent::Failed);
    assert_eq!(wanted_traceback(RaisedKind::ImportError, 1), Traceback::Short);
    assert_eq!(wanted_traceback(RaisedKind::ImportError, 2), Traceback::Verbose);
    assert_eq!(wanted_traceback(RaisedKind::Other, 0), Traceback::Chosen);
    assert_eq!(wanted_traceback(RaisedKind::Exit, 0), Traceback::Plain);
}

#[test]
fn import_errors_have_a_header() {
    let f = file("a.py", Some("py"), false);
    let r = Raised { import_error: true, ..raised() };
    let sections = [Section { title: "Captured stdout".to_string(), text: "hi\n\n".to_string() }];
    let x = import_effect(&options(), &f, &r, "E   no", &sections);
    let rule = format!("{} Captured stdout {}", "-".repeat(31), "-".repeat(32));
    assert_eq!(
        x.error.unwrap(),
        format!(
            "ImportError while importing test module '/r/a.py'.\nHint: make sure your test \
             modules/packages have valid Python names.\nTraceback:\nE   no\n{rule}\nhi"
        )
    );
    assert!(x.fatal.is_none() && x.skipped_module.is_none() && x.reports.is_empty());
}

#[test]
fn ignored_import_errors_skip_the_doctests() {
    let f = file("a.py", Some("py"), false);
    let o = FileOptions {
        doctest_modules: true,
        doctest_ignore_import_errors: true,
        ..options()
    };
    let x = import_effect(&o, &f, &raised(), "trace", &[]);
    assert_eq!(x.error.as_deref(), Some("trace"));
    assert_eq!(x.recorded_skip.as_deref(), Some("unable to import module PosixPath('/r/a.py')"));
    assert_eq!(x.reports.len(), 1);
    assert_eq!(x.reports[0].location.as_deref(), Some("a.py:1"));
    let misplaced = Raised { skip: Some(Err("bad".to_string())), ..raised() };
    let x = import_effect(&o, &f, &misplaced, "", &[]);
    assert_eq!(x.error.as_deref(), Some("bad"));
    assert!(x.reports.is_empty());
}

#[test]
fn module_skips_are_reported() {
    let f = file("a.py", Some("py"), false);
    let r = Raised { skip: Some(Ok("why".to_string())), ..raised() };
    let x = import_effect(&options(), &f, &r, "", &[]);
    let skipped = x.skipped_module.unwrap();
    assert_eq!(skipped.location, "a.py:1");
    assert_eq!(skipped.reason, "why");
    assert_eq!(x.reports[0].longrepr.as_deref(), Some("why"));
    let r = Raised { location: Some("a.py:7".to_string()), ..r };
    let x = import_effect(&options(), &f, &r, "", &[]);
    assert_eq!(x.reports[0].location.as_deref(), Some("a.py:7"));
    assert!(x.error.is_none() && x.fatal.is_none());
}

#[test]
fn interrupts_of_imports_are_fatal() {
    let f = file("a.py", Some("py"), false);
    let r = Raised { keyboard_interrupt: true, ..raised() };
    let x = import_effect(&options(), &f, &r, "", &[]);
    assert_eq!(x.fatal.as_deref(), Some("\x00KEYBOARD_INTERRUPT\x00"));
    let r = Raised { system_exit: true, ..raised() };
    let x = import_effect(&options(), &f, &r, "SystemExit: 1", &[]);
    assert_eq!(x.fatal.as_deref(), Some("\x00INTERNAL\x00SystemExit: 1"));
    let ending = collect_failure(&x.fatal.unwrap(), &None);
    assert_eq!(ending.code, 3);
    assert_eq!(ending.stdout, strings(&["INTERNALERROR> SystemExit: 1"]));
}

#[test]
fn output_is_appended_to_messages() {
    assert_eq!(with_sections("m".to_string(), &[]), "m");
}

#[test]
fn extra_files_are_collected_in_order() {
    assert_eq!(
        extra_steps(true, true),
        vec![
            ExtraStep::Modules,
            ExtraStep::TextFiles,
            ExtraStep::CustomFiles,
            ExtraStep::CloseLog
        ]
    );
    assert_eq!(extra_steps(false, false), vec![ExtraStep::TextFiles, ExtraStep::CloseLog]);
    let x = module_failure(true, "m.py", "/r/m.py", "boom");
    assert!(x.error.is_none());
    assert_eq!(
        x.skipped_module.unwrap().reason,
        "unable to import module PosixPath('/r/m.py')"
    );
    let x = module_failure(false, "m.py", "/r/m.py", "boom");
    assert_eq!(x.error.as_deref(), Some("boom"));
    assert!(x.reports.is_empty());
}

#[test]
fn text_files_are_collected_once() {
    let fresh = new_text_files(vec![path("a.txt"), path("b.txt")], &[path("a.txt")]);
    assert_eq!(fresh, vec![path("b.txt")]);
}

#[test]
fn items_of_skipped_files_are_dropped() {
    let items = vec![item("a.py::t", "r/a.py"), item("b.py::t", "r/b.py")];
    let kept = drop_skipped(items, &[path("r/a.py")]);
    assert_eq!(nodeids(&kept), strings(&["b.py::t"]));
}

#[test]
fn arguments_select_items() {
    assert!(!selects_items(&strings(&["tests", "a.py"])));
    assert!(selects_items(&strings(&["tests", "a.py::t"])));
    let place = ArgPlace { path: path("r/a.py"), nodeid: "a.py".to_string() };
    assert!(matches!(
        arg_sel("x/../a.py::T::m", &place),
        ArgSel::NodeId(s) if s == "a.py::T::m"
    ));
    assert!(matches!(arg_sel("a.py", &place), ArgSel::Path(p) if p == path("r/a.py")));
    let sels = vec![
        ArgSel::NodeId("a.py::T".to_string()),
        ArgSel::NodeId("a.py::t".to_string()),
        ArgSel::Path(path("r/sub")),
        ArgSel::NodeId("a.py::gone".to_string()),
    ];
    let items = vec![
        item("a.py::T::m", "r/a.py"),
        item("a.py::T2::m", "r/a.py"),
        item("a.py::t", "r/a.py"),
        item("a.py::t[1]", "r/a.py"),
        item("a.py::tt", "r/a.py"),
        item("sub/b.py::x", "r/sub/b.py"),
        item("subx/b.py::x", "r/subx/b.py"),
    ];
    let kept = select_by_args(items, &sels);
    assert_eq!(
        nodeids(&kept),
        strings(&["a.py::T::m", "a.py::t", "a.py::t[1]", "sub/b.py::x"])
    );
    assert_eq!(missing_args(&sels, &kept), strings(&["ERROR: not found: a.py::gone"]));
}

#[test]
fn closures_are_recorded() {
    let mut registry = FixtureRegistry::default();
    for (name, params) in [("a", vec!["b"]), ("b", vec![]), ("p", vec!["q"]), ("q", vec![])] {
        registry.register(FixtureDef {
            name: name.to_string(),
            func: Handle { id: 0 },
            scope: Scope::Function,
            autouse: false,
            is_coroutine: false,
            is_generator: false,
            is_async_gen: false,
            param_names: strings(&params),
            baseid: String::new(),
            needs_instance: false,
            params: None,
            ids: None,
        });
    }
    let mut it = item("a.py::t", "r/a.py");
    it.fixture_names = strings(&["a", "p"]);
    it.callspec = vec![("p".to_string(), Handle { id: 1 })];
    let mut closure = item_closure(&registry, &it);
    closure.sort();
    assert_eq!(closure, vec![0, 1, 2]);
    record_closure(&registry, &mut it);
    assert_eq!(it.extra_fixture_names, strings(&["b"]));
    assert_eq!(it.fixture_names, strings(&["a", "p"]));
    assert_eq!(item_name("a.py::T::m[x]"), "m[x]");
    assert_eq!(item_name("a:::b"), "b");
}

#[test]
fn nested_conftests_with_plugins_are_errors() {
    let child = |name: &str, is_dir: bool| Child { name: name.to_string(), is_dir };
    let children = [
        child("z", true),
        child("conftest.py", false),
        child(".hidden", true),
        child("__pycache__", true),
        child("node_modules", true),
        child("a", true),
        child("test_x.py", false),
    ];
    assert_eq!(
        visits(&path("r/s"), &children, &path("r"), &[]),
        vec![Visit::Descend(5), Visit::Inspect(1), Visit::Descend(0)]
    );
    // The conftest of the root directory and loaded ones may have plugins.
    assert_eq!(
        visits(&path("r"), &children, &path("r"), &[]),
        vec![Visit::Descend(5), Visit::Descend(0)]
    );
    assert_eq!(
        visits(&path("r/s"), &children, &path("r"), &[path("r/s/conftest.py")]),
        vec![Visit::Descend(5), Visit::Descend(0)]
    );
    assert_eq!(
        inspect_conftest(&path("r/s/conftest.py"), &path("r"), "pytest_plugins = []"),
        Some(
            "Defining 'pytest_plugins' in a non-top-level conftest is no longer supported: \
             please remove it from s/conftest.py"
                .to_string()
        )
    );
    assert_eq!(inspect_conftest(&path("r/s/conftest.py"), &path("r"), "x = 1"), None);
}

fn config() -> ConfigOptions {
    ConfigOptions {
        conftests: 2,
        help: false,
        is_worker: false,
        strict_config: false,
        strict_config_ini: None,
        strict: false,
        strict_ini: None,
        has_overrides: false,
    }
}

#[test]
fn configuration_is_checked_in_order() {
    let o = config();
    let go = |a: ConfigAction, e: ConfigEvent| next_config(&o, "usage\n", a, &e).action;
    assert_eq!(
        go(ConfigAction::RegisterBuiltinFixtures, ConfigEvent::Done),
        ConfigAction::LoadConftest(0)
    );
    assert_eq!(
        go(ConfigAction::LoadConftest(0), ConfigEvent::Done),
        ConfigAction::LoadConftest(1)
    );
    assert_eq!(go(ConfigAction::LoadConftest(1), ConfigEvent::Done), ConfigAction::ScanPlugins);
    assert_eq!(go(ConfigAction::ScanPlugins, ConfigEvent::Done), ConfigAction::AddOptions);
    assert_eq!(go(ConfigAction::AddOptions, ConfigEvent::Done), ConfigAction::ResolveArguments);
    assert_eq!(
        go(ConfigAction::ResolveArguments, ConfigEvent::Done),
        ConfigAction::FindUnknownKeys
    );
    assert_eq!(
        go(ConfigAction::FindUnknownKeys, ConfigEvent::Unknown(vec![])),
        ConfigAction::Finish
    );
}

#[test]
fn broken_conftests_fail_or_warn() {
    let e = ConfigEvent::ConftestFailed {
        shown: "/r/conftest.py".to_string(),
        message: "boom".to_string(),
    };
    let o = config();
    let step = next_config(&o, "", ConfigAction::LoadConftest(0), &e);
    assert_eq!(step.failure.as_deref(), Some("\x00CONFTEST_IMPORT_ERROR\x00boom"));
    assert_eq!(step.action, ConfigAction::Fail);
    let ending = collect_failure(&step.failure.unwrap(), &None);
    assert_eq!(ending.code, 4);
    assert_eq!(ending.stderr, strings(&["boom"]));
    let o = ConfigOptions { help: true, ..config() };
    let step = next_config(&o, "", ConfigAction::LoadConftest(0), &e);
    assert_eq!(
        step.warnings,
        strings(&["could not load initial conftests: /r/conftest.py"])
    );
    assert_eq!(step.place, WarningPlace::Conftest);
    assert_eq!(step.action, ConfigAction::LoadConftest(1));
    assert!(goes_to_stderr("Captured stderr"));
    assert!(!goes_to_stderr("Captured stdout"));
}

#[test]
fn unknown_options_warn_or_fail() {
    let unknown = ConfigEvent::Unknown(strings(&["x", "y"]));
    let o = config();
    let step = next_config(&o, "", ConfigAction::FindUnknownKeys, &unknown);
    assert_eq!(
        step.warnings,
        strings(&["Unknown config option: x", "Unknown config option: y"])
    );
    assert_eq!(step.place, WarningPlace::IniFile);
    let o = ConfigOptions { strict: true, ..config() };
    assert!(strict_config(&o));
    let step = next_config(&o, "", ConfigAction::FindUnknownKeys, &unknown);
    assert_eq!(step.failure.as_deref(), Some("Unknown config option: x"));
    // The ini option overrides `--strict`.
    let o = ConfigOptions { strict: true, strict_config_ini: Some(false), ..config() };
    assert!(!strict_config(&o));
    let o = ConfigOptions { strict_config: true, strict_config_ini: Some(false), ..config() };
    assert!(strict_config(&o));
    let o = ConfigOptions { has_overrides: true, ..config() };
    let step = next_config(&o, "", ConfigAction::FindUnknownKeys, &ConfigEvent::Unknown(vec![]));
    assert_eq!(step.action, ConfigAction::FindUnknownOverrides);
    let step = next_config(&o, "", ConfigAction::FindUnknownOverrides, &unknown);
    assert_eq!(step.place, WarningPlace::CommandLine);
    assert_eq!(step.warnings.len(), 2);
}

#[test]
fn usage_errors_follow_the_synopsis() {
    let o = config();
    let e = ConfigEvent::UsageError("unrecognized arguments: --x".to_string());
    let step = next_config(&o, "usage: pytest\n", ConfigAction::ResolveArguments, &e);
    assert_eq!(
        step.failure.as_deref(),
        Some("usage: pytest\nunrecognized arguments: --x")
    );
    let e = ConfigEvent::Raised("trace".to_string());
    let step = next_config(&o, "usage", ConfigAction::ResolveArguments, &e);
    assert_eq!(step.failure.as_deref(), Some("trace"));
    let step = next_config(&o, "usage", ConfigAction::AddOptions, &e);
    assert_eq!(step.error.as_deref(), Some("trace"));
    assert!(step.failure.is_none());
    let worker = ConfigOptions { is_worker: true, ..config() };
    let step = next_config(&worker, "", ConfigAction::ResolveArguments, &ConfigEvent::Done);
    assert_eq!(step.action, ConfigAction::Finish);
}

#[test]
fn usage_messages_drop_the_class() {
    assert_eq!(usage_message("Traceback:\npytest.UsageError: bad option"), "bad option");
    assert_eq!(usage_message(" other \n"), "other");
    assert_eq!(usage_message(""), "");
}

#[test]
fn configure_hooks_may_end_the_session() {
    let exit = ConfigureEvent::Exit { code: 7, message: "bye".to_string() };
    let step = next_configure(false, false, ConfigureAction::Configure, &exit);
    assert_eq!(step.action, ConfigureAction::InstallWarnings { failed: true });
    assert_eq!(step.stderr.as_deref(), Some("Exit: bye"));
    assert_eq!(step.banner, None);
    assert_eq!(collect_failure(&step.failure.unwrap(), &None).code, 7);
    let step = next_configure(false, false, ConfigureAction::SessionStart { replaced: false }, &exit);
    assert_eq!(step.action, ConfigureAction::Fail);
    assert_eq!(step.banner.as_deref(), Some("Exit: bye"));
    let failed = ConfigureAction::InstallWarnings { failed: true };
    let step = next_configure(false, false, failed, &ConfigureEvent::Done);
    assert_eq!(step.action, ConfigureAction::Fail);
}

#[test]
fn configure_failures_are_internal_errors() {
    let e = ConfigureEvent::Raised("one\ntwo".to_string());
    let step = next_configure(false, false, ConfigureAction::Configure, &e);
    let ending = collect_failure(&step.failure.unwrap(), &None);
    assert_eq!(ending.code, 3);
    assert_eq!(ending.stderr, strings(&["INTERNALERROR> one", "INTERNALERROR> two"]));
    let start = ConfigureAction::SessionStart { replaced: true };
    let step = next_configure(false, false, start, &e);
    let ending = collect_failure(&step.failure.unwrap(), &None);
    assert_eq!(ending.code, 3);
    assert_eq!(ending.stdout, strings(&["INTERNALERROR> one", "INTERNALERROR> two"]));
    let e = ConfigureEvent::Interrupted("k".to_string());
    let step = next_configure(false, false, start, &e);
    let ending = collect_failure(&step.failure.unwrap(), &None);
    assert_eq!(ending.code, 2);
    assert_eq!(ending.stdout, strings(&["!!! KeyboardInterrupt !!!"]));
    let e = ConfigureEvent::UsageError("x\npytest.UsageError: no".to_string());
    let step = next_configure(false, false, ConfigureAction::LoadInitialConftests, &e);
    assert_eq!(step.stderr.as_deref(), Some("ERROR: no"));
    assert_eq!(collect_failure(&step.failure.unwrap(), &None).code, 4);
}

#[test]
fn listings_end_before_collection() {
    let done = ConfigureEvent::Done;
    let step = next_configure(true, false, ConfigureAction::RegisterInstanceFixtures, &done);
    assert_eq!(step.action, ConfigureAction::ShowHelp);
    let step = next_configure(true, false, ConfigureAction::ShowHelp, &done);
    assert_eq!(step.action, ConfigureAction::Shown);
    let step = next_configure(false, true, ConfigureAction::ReportHeader, &done);
    assert_eq!(step.action, ConfigureAction::Markers);
    let step = next_configure(false, false, ConfigureAction::ReportHeader, &done);
    assert_eq!(step.action, ConfigureAction::Collect);
    let step =
        next_configure(false, false, ConfigureAction::FindReporter, &ConfigureEvent::Reporter(true));
    assert_eq!(step.action, ConfigureAction::SessionStart { replaced: true });
    let step = next_configure(false, false, step.action, &done);
    assert_eq!(step.action, ConfigureAction::ReporterSessionStart);
}

#[test]
fn phases_of_collection() {
    let o = CollectOptions { help: false, not_found: vec![] };
    let order = [
        CollectAction::ResolvePaths,
        CollectAction::LoadPlugins,
        CollectAction::PluginsRegistered,
        CollectAction::AddOptions,
        CollectAction::EarlyArguments,
        CollectAction::LoadInitialConftests,
        CollectAction::LoadConfig,
        CollectAction::ArmLogging,
        CollectAction::Configure,
        CollectAction::ApplyIgnores,
        CollectAction::BeginPhase,
        CollectAction::CollectFiles,
        CollectAction::CollectExtra,
        CollectAction::CheckLeftOver,
        CollectAction::ValidateScopes,
        CollectAction::FinalizeItems,
        CollectAction::EndPhase { failed: false },
        CollectAction::FindCmdlineMain,
        CollectAction::Finish,
    ];
    for pair in order.windows(2) {
        assert_eq!(next_phase(&o, pair[0], &CollectEvent::Done).action, pair[1]);
    }
}

#[test]
fn missing_arguments_are_reported_after_configure() {
    let o = CollectOptions { help: false, not_found: strings(&["x.py", "y"]) };
    let step = next_phase(&o, CollectAction::Configure, &CollectEvent::Done);
    assert_eq!(step.action, CollectAction::Fail);
    assert_eq!(
        step.stderr,
        strings(&[
            "ERROR: file or directory not found: x.py",
            "ERROR: file or directory not found: y"
        ])
    );
    assert_eq!(step.failure.as_deref(), Some("\x00USAGE_ERROR\x00"));
    let step = next_phase(&o, CollectAction::ResolvePaths, &CollectEvent::Done);
    assert_eq!(step.action, CollectAction::LoadPlugins);
    let step = next_phase(&o, CollectAction::Configure, &CollectEvent::Shown);
    assert_eq!(step.action, CollectAction::Finish);
}

#[test]
fn failures_inside_collection_end_its_phase() {
    let o = CollectOptions { help: true, not_found: vec![] };
    let failed = CollectEvent::Failed("m".to_string());
    let step = next_phase(&o, CollectAction::CollectFiles, &failed);
    assert_eq!(step.action, CollectAction::EndPhase { failed: true });
    assert_eq!(step.failure.as_deref(), Some("m"));
    let step = next_phase(&o, step.action, &CollectEvent::Done);
    assert_eq!(step.action, CollectAction::Fail);
    let left = CollectEvent::LeftOver(strings(&["/r/a.pyc"]));
    let step = next_phase(&o, CollectAction::CheckLeftOver, &left);
    assert_eq!(
        step.stderr,
        strings(&["ERROR: not found: /r/a.pyc", "(no match in any of [<Session ''>])", ""])
    );
    let step = next_phase(&o, CollectAction::LoadConfig, &failed);
    assert_eq!(step.action, CollectAction::ShowMinimalHelp);
    let step = next_phase(&o, CollectAction::ValidateScopes, &failed);
    assert_eq!(step.action, CollectAction::FinalizeItems);
    assert_eq!(step.error.as_deref(), Some("m"));
    assert!(was_collected(&[item("a.py::t", "r/a.py")], &path("r/a.py")));
    assert!(!was_collected(&[item("a.py::t", "r/a.py")], &path("r/b.py")));
}

#[test]
fn plugins_may_claim_the_run() {
    let o = CollectOptions { help: false, not_found: vec![] };
    let step = next_phase(&o, CollectAction::FindCmdlineMain, &CollectEvent::Found(true));
    assert_eq!(step.action, CollectAction::RecordCollection);
    let step = next_phase(&o, CollectAction::ResumeCapture, &CollectEvent::Found(false));
    assert_eq!(step.action, CollectAction::CmdlineMain { installed: false });
    let claimed = next_phase(&o, step.action, &CollectEvent::Claimed(9));
    assert_eq!(claimed.action, CollectAction::Finish);
    assert_eq!(claimed.claimed, Some(9));
    let step = next_phase(&o, step.action, &CollectEvent::Done);
    assert_eq!(step.action, CollectAction::SuspendCapture { failed: false });
    let installed = CollectAction::CmdlineMain { installed: true };
    let step = next_phase(&o, installed, &CollectEvent::Done);
    assert_eq!(step.action, CollectAction::Finish);
    let step = next_phase(&o, installed, &CollectEvent::Failed("x".to_string()));
    assert_eq!(step.action, CollectAction::Fail);
    assert_eq!(step.failure.as_deref(), Some("x"));
}

#[test]
fn initial_conftest_failures_are_usage_errors() {
    let o = CollectOptions { help: false, not_found: vec![] };
    let e = CollectEvent::UsageError("pytest.UsageError: no".to_string());
    let step = next_phase(&o, CollectAction::LoadInitialConftests, &e);
    assert_eq!(step.stderr, strings(&["ERROR: no"]));
    let e = CollectEvent::Failed("trace".to_string());
    let step = next_phase(&o, CollectAction::LoadInitialConftests, &e);
    assert_eq!(step.stderr, strings(&["trace"]));
    assert_eq!(step.failure.as_deref(), Some("\x00USAGE_ERROR\x00"));
}
