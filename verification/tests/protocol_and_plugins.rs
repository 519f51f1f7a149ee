use pytest_rs_core::ipc::{decode_frame, encode_frame, ParentMsg, WorkerMsg, FRAME_PREFIX};
use pytest_rs_core::looponfail::{
    after_outcome, after_run, child_args, run_failed, wait_lines, watch_entry, LoopStep,
    RunOutcome, Snapshot, Watch,
};
use pytest_rs_core::pastebin::{next_tee, pipe_ended, Descriptor, TeeAction};
use pytest_rs_core::plugins::{
    blocked_plugins, exit_zero_message, named_plugins, plugin_is_disabled, DISABLE_PLUGINS_ENV,
    EXIT_ZERO_SENTINEL,
};
use pytest_rs_core::session::debug::{debug_ended, debug_file, debug_started};
use pytest_rs_core::terminal::line::Style;

fn strings(v: &[&str]) -> Vec<String> {
    v.iter().map(|s| s.to_string()).collect()
}

#[test]
fn frames_round_trip() {
    let json = "{\"op\":\"done\"}";
    let frame = encode_frame(json);
    assert_eq!(frame, "\n##pytest-rs-ipc##{\"op\":\"done\"}\n");
    assert_eq!(FRAME_PREFIX, "##pytest-rs-ipc##");
    let line = frame.trim_matches('\n');
    assert_eq!(decode_frame(line), Some(json.to_string()));
}

#[test]
fn frames_survive_unfinished_output() {
    let output = format!("printed without a line end{}", encode_frame("{}"));
    let found: Vec<String> = output.lines().filter_map(decode_frame).collect();
    assert_eq!(found, strings(&["{}"]));
}

#[test]
fn frames_arrive_in_order() {
    let mut output = String::new();
    for json in ["1", "2", "3"] {
        output.push_str(&encode_frame(json));
        output.push_str("noise");
    }
    let found: Vec<String> = output.lines().filter_map(decode_frame).collect();
    assert_eq!(found, strings(&["1", "2", "3"]));
}

#[test]
fn test_output_is_no_frame() {
    assert_eq!(decode_frame("hello"), None);
    assert_eq!(decode_frame(" ##pytest-rs-ipc##{}"), None);
    assert_eq!(decode_frame(""), None);
}

#[test]
fn messages_can_be_built() {
    let run = ParentMsg::Run { nodeids: strings(&["a.py::t"]) };
    assert!(matches!(run, ParentMsg::Run { nodeids } if nodeids.len() == 1));
    assert!(matches!(ParentMsg::Shutdown, ParentMsg::Shutdown));
    let msg = WorkerMsg::Interrupted { code: 2, banner: None };
    assert!(matches!(msg, WorkerMsg::Interrupted { code: 2, banner: None }));
}

#[test]
fn plugins_are_switched_off_by_options() {
    let opts = strings(&["no:cov", "no:pytest_xdist", "no: pytest-asyncio ", "mock"]);
    assert!(plugin_is_disabled("cov", &opts, None));
    assert!(plugin_is_disabled("xdist", &opts, None));
    assert!(plugin_is_disabled("asyncio", &opts, None));
    assert!(!plugin_is_disabled("mock", &opts, None));
    assert!(!plugin_is_disabled("timeout", &opts, None));
}

#[test]
fn full_names_switch_plugins_off() {
    let opts = strings(&["no:pytest_foo", "no: pytest-bar "]);
    assert!(plugin_is_disabled("pytest_foo", &opts, None));
    assert!(plugin_is_disabled("foo", &opts, None));
    assert!(plugin_is_disabled("pytest-bar", &opts, None));
    assert!(!plugin_is_disabled("pytest_bar", &opts, None));
    assert!(plugin_is_disabled("pytest_cov", &[], Some("x, pytest_cov")));
    assert!(!plugin_is_disabled("pytest_cov", &[], Some("cov")));
}

#[test]
fn plugins_are_switched_off_by_the_environment() {
    assert_eq!(DISABLE_PLUGINS_ENV, "PYTEST_RS_DISABLE_PLUGINS");
    let env = Some("benchmark, pytest-cov pytest_pytest_x,,");
    assert!(plugin_is_disabled("benchmark", &[], env));
    assert!(plugin_is_disabled("cov", &[], env));
    assert!(plugin_is_disabled("x", &[], env));
    assert!(!plugin_is_disabled("", &[], env));
    assert!(!plugin_is_disabled("mock", &[], env));
    assert!(!plugin_is_disabled("benchmark", &[], None));
}

#[test]
fn plugins_to_load_and_to_block() {
    let opts = strings(&["a", "no:b", "c", "a"]);
    assert_eq!(named_plugins(&opts, None), strings(&["a", "c", "a"]));
    assert_eq!(
        named_plugins(&opts, Some(" c , d,, e,d")),
        strings(&["a", "c", "a", "d", "e"])
    );
    assert_eq!(blocked_plugins(&opts), strings(&["b"]));
}

#[test]
fn exit_zero_messages() {
    let message = format!("{EXIT_ZERO_SENTINEL}usage");
    assert_eq!(exit_zero_message(&message), Some("usage".to_string()));
    assert_eq!(exit_zero_message("usage"), None);
}

#[test]
fn runs_of_the_loop() {
    let argv = strings(&["pytest-rs", "-f", "tests", "--looponfail", "-x"]);
    assert_eq!(child_args(&argv), strings(&["tests", "-x"]));
    assert!(run_failed(Some(1)));
    assert!(!run_failed(Some(0)));
    assert!(!run_failed(Some(2)));
    assert!(!run_failed(None));
    assert_eq!(after_run(true, false), LoopStep::Wait { failing: true });
    assert_eq!(after_run(true, true), LoopStep::Wait { failing: true });
    assert_eq!(after_run(false, true), LoopStep::Rerun);
    assert_eq!(after_run(false, false), LoopStep::Wait { failing: false });
}

#[test]
fn a_run_that_cannot_start_ends_the_loop() {
    for was_failing in [false, true] {
        assert_eq!(
            after_outcome(RunOutcome::NotStarted, was_failing),
            LoopStep::Exit { code: 3 }
        );
        assert_eq!(
            after_outcome(RunOutcome::Ended(Some(1)), was_failing),
            LoopStep::Wait { failing: true }
        );
    }
    assert_eq!(after_outcome(RunOutcome::Ended(Some(0)), true), LoopStep::Rerun);
    assert_eq!(
        after_outcome(RunOutcome::Ended(None), false),
        LoopStep::Wait { failing: false }
    );
}

#[test]
fn waiting_is_announced() {
    let lines = wait_lines(true, "/w");
    assert_eq!(lines.len(), 3);
    assert_eq!(
        lines[0].text,
        format!("{} LOOPONFAILING {}", "#".repeat(32), "#".repeat(33))
    );
    assert_eq!(lines[0].style, Style::Bold);
    assert_eq!(lines[2].text, "### Watching:   /w");
    assert_eq!(wait_lines(false, "/w").len(), 2);
}

#[test]
fn watched_entries() {
    assert_eq!(watch_entry(".git", true, false, None), Watch::Skip);
    assert_eq!(watch_entry("src", true, false, None), Watch::Descend);
    assert_eq!(watch_entry("a.py", false, true, Some("py")), Watch::Record);
    assert_eq!(watch_entry("a.pyc", false, true, Some("pyc")), Watch::Skip);
    assert_eq!(watch_entry("README", false, true, None), Watch::Record);
    assert_eq!(watch_entry("socket", false, false, None), Watch::Skip);
}

#[test]
fn snapshots_are_compared() {
    let mut a = Snapshot::new();
    a.insert("x".to_string(), 1, 10);
    a.insert("y".to_string(), 2, 20);
    let mut b = Snapshot::new();
    b.insert("y".to_string(), 2, 20);
    assert!(a.differs(&b));
    b.insert("x".to_string(), 0, 0);
    assert!(a.differs(&b));
    b.insert("x".to_string(), 1, 10);
    assert!(!a.differs(&b));
    assert!(!b.differs(&a));
    b.insert("z".to_string(), 1, 10);
    assert!(a.differs(&b));
}

#[test]
fn tee_closes_what_it_opened() {
    let step = next_tee(TeeAction::Duplicate, true);
    assert_eq!(step.action, TeeAction::OpenPipe);
    assert_eq!(step.close, vec![]);
    let step = next_tee(TeeAction::OpenPipe, false);
    assert_eq!(step.action, TeeAction::Abandon);
    assert_eq!(step.close, vec![Descriptor::Original]);
    let step = next_tee(TeeAction::Redirect, false);
    assert_eq!(
        step.close,
        vec![Descriptor::Original, Descriptor::Reader, Descriptor::Writer]
    );
    let step = next_tee(TeeAction::Redirect, true);
    assert_eq!(step.action, TeeAction::Relay);
    assert_eq!(step.close, vec![Descriptor::Writer]);
    assert!(pipe_ended(0));
    assert!(pipe_ended(-1));
    assert!(!pipe_ended(5));
}

#[test]
fn debug_texts() {
    assert_eq!(
        debug_file("0.1.0", "3.12.1 (main, Dec 2023)"),
        "versions pytest-rs-0.1.0, python-3.12.1\npytest_configure\npytest_sessionstart\n"
    );
    assert_eq!(debug_started("d.log"), "writing pytest debug information to d.log");
    assert_eq!(debug_ended("d.log"), "wrote pytest debug information to d.log");
}
