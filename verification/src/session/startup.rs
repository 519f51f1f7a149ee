//! Startup: which steps a run takes before its session, and the options that
//! it rejects on the way.

use vstd::prelude::*;

use crate::lists::{next_block, next_step, no_step, staircase, texts_prefix};
use crate::report::{INTERNAL_ERROR, USAGE_ERROR};
use crate::text::{opt_text, same, texts};

verus! {

/// A step of the startup, for the application to take.
#[derive(Debug, Clone, Copy, PartialEq, Eq, Structural)]
pub enum StartStep {
    DisableGc,
    EnableGc,
    ActivateVirtualenv,
    InstallShim,
    /// Set `PYTEST_VERSION`.
    SetVersion,
    /// Add the `pythonpath` entries to the module search path.
    AddPythonPaths,
    InstallDebugGuard,
    InstallWarningCapture,
    ConfigureLogging,
    ConfigureColor,
    ConfigureShowLocals,
    ConfigureFullTrace,
    ConfigureTruncateArgs,
    CheckTheme,
    ConfigureCapture,
    ConfigureTmpPath,
    ConfigureUnraisable,
    ConfigureThreadException,
    ConfigureAssertionVerbosity,
    ConfigureAssertionRewrite,
    ConfigureAssertionTruncation,
    ConfigurePythonFiles,
    ConfigureJunit,
    ConfigureMarkGenerator,
    /// `--runxfail`: make `pytest.xfail` do nothing.
    NeutralizeXfail,
    ConfigureDebugging,
    StartRecording,
    PushConfigProxy,
    SnapshotPluginManager,
    RunSession,
    ResetJunit,
    RestoreColor,
}

/// The texts of an exception.
pub struct ErrorTexts {
    /// Its message.
    pub message: String,
    /// Its type and its message.
    pub shown: String,
    /// Its traceback.
    pub rendered: String,
}

/// The options that startup looks at.
pub struct StartOptions {
    pub warnings_disabled: bool,
    pub unraisable_disabled: bool,
    pub threadexception_disabled: bool,
    pub debugging_disabled: bool,
    /// `--log-file-mode`, and the ini option of that name.
    pub log_file_mode: Option<String>,
    pub log_file_mode_ini: Option<String>,
    /// `--color`.
    pub color: Option<String>,
    /// `-s`.
    pub capture_disable: bool,
    /// `--capture`.
    pub capture: Option<String>,
    /// `--basetemp` as given.
    pub basetemp: Option<String>,
    /// The components of that directory, resolved.
    pub basetemp_path: Vec<String>,
    /// The components of the directory of the invocation, resolved.
    pub cwd: Vec<String>,
    /// `--junitxml`.
    pub junit_xml: Option<String>,
    /// The path of `--junitxml` is a directory.
    pub junit_is_dir: bool,
    pub is_worker: bool,
    pub runxfail: bool,
}

/// The steps to take; a rejected option ends them, and the run.
pub struct StartPlan {
    pub steps: Vec<StartStep>,
    pub rejection: Option<String>,
}

// ---------------------------------------------------------------------------
// Model
// ---------------------------------------------------------------------------

/// A plan as a mathematical value.
pub struct PlanView {
    pub steps: Seq<StartStep>,
    pub rejection: Option<Seq<char>>,
}

impl View for StartPlan {
    type V = PlanView;

    open spec fn view(&self) -> PlanView {
        PlanView {
            steps: self.steps@,
            rejection: match self.rejection {
                Some(m) => Some(m@),
                None => None,
            },
        }
    }
}

/// What is said of a value that an option does not have.
pub open spec fn invalid_choice(
    option: Seq<char>,
    value: Seq<char>,
    choices: Seq<char>,
) -> Seq<char> {
    "error: argument "@ + option + ": invalid choice: '"@ + value + "' (choose from "@ + choices
        + ")"@
}

/// The mode of the log file: the option, else the ini option.
pub open spec fn log_mode(o: StartOptions) -> Option<Seq<char>> {
    match o.log_file_mode {
        Some(mode) => Some(mode@),
        None => match o.log_file_mode_ini {
            Some(mode) => Some(mode@),
            None => None,
        },
    }
}

/// What is wrong with the mode of the log file.
pub open spec fn log_mode_error(o: StartOptions) -> Option<Seq<char>> {
    match log_mode(o) {
        Some(mode) => if mode == "w"@ || mode == "a"@ {
            None
        } else {
            Some(invalid_choice("--log-file-mode"@, mode, "'w', 'a'"@))
        },
        None => None,
    }
}

/// What is wrong with `--color`.
pub open spec fn color_error(o: StartOptions) -> Option<Seq<char>> {
    match o.color {
        Some(c) => if c@ == "yes"@ || c@ == "no"@ || c@ == "auto"@ {
            None
        } else {
            Some(invalid_choice("--color"@, c@, "'yes', 'no', 'auto'"@))
        },
        None => None,
    }
}

/// The mode of output capture: none with `-s`, by default that of file
/// descriptors.
pub open spec fn capture_of(o: StartOptions) -> Seq<char> {
    if o.capture_disable {
        "no"@
    } else {
        match o.capture {
            Some(mode) => mode@,
            None => "fd"@,
        }
    }
}

/// What is wrong with the mode of output capture.
pub open spec fn capture_error(o: StartOptions) -> Option<Seq<char>> {
    let mode = capture_of(o);
    if mode == "fd"@ || mode == "sys"@ || mode == "no"@ || mode == "tee-sys"@ {
        None
    } else {
        Some(invalid_choice("--capture"@, mode, "'fd', 'sys', 'no', 'tee-sys'"@))
    }
}

/// What is wrong with `--basetemp`: it must not be the current directory or
/// one above it.
pub open spec fn basetemp_error(o: StartOptions) -> Option<Seq<char>> {
    match o.basetemp {
        Some(given) => if texts(o.basetemp_path@).is_prefix_of(texts(o.cwd@)) {
            Some(
                "ERROR: basetemp must not be the current directory or an ancestor directory. Use a relative path: "@
                    + given@,
            )
        } else {
            None
        },
        None => None,
    }
}

/// What is wrong with `--junitxml`, where this process writes the file.
pub open spec fn junit_error(o: StartOptions) -> Option<Seq<char>> {
    match o.junit_xml {
        Some(path) => if !o.is_worker && o.junit_is_dir {
            Some("ERROR: --junitxml must be a filename, given: "@ + path@)
        } else {
            None
        },
        None => None,
    }
}

/// A step that is taken under a condition.
pub open spec fn step_if(b: bool, step: StartStep) -> Seq<StartStep> {
    if b {
        seq![step]
    } else {
        seq![]
    }
}

/// The steps of a run up to the check of the log file's mode.
pub open spec fn run_part1(o: StartOptions) -> Seq<StartStep> {
    seq![
        StartStep::DisableGc,
        StartStep::ActivateVirtualenv,
        StartStep::InstallShim,
        StartStep::SetVersion,
        StartStep::AddPythonPaths,
        StartStep::InstallDebugGuard,
    ] + step_if(!o.warnings_disabled, StartStep::InstallWarningCapture)
}

/// ... up to the check of `--color`.
pub open spec fn run_part2(o: StartOptions) -> Seq<StartStep> {
    run_part1(o).push(StartStep::ConfigureLogging)
}

/// ... up to the check of the capture mode.
pub open spec fn run_part3(o: StartOptions) -> Seq<StartStep> {
    run_part2(o) + seq![
        StartStep::ConfigureColor,
        StartStep::ConfigureShowLocals,
        StartStep::ConfigureFullTrace,
        StartStep::CheckTheme,
    ]
}

/// ... up to the check of `--basetemp`.
pub open spec fn run_part4(o: StartOptions) -> Seq<StartStep> {
    run_part3(o).push(StartStep::ConfigureCapture)
}

/// ... up to the check of `--junitxml`.
pub open spec fn run_part5(o: StartOptions) -> Seq<StartStep> {
    run_part4(o).push(StartStep::ConfigureTmpPath) + step_if(
        !o.unraisable_disabled,
        StartStep::ConfigureUnraisable,
    ) + step_if(!o.threadexception_disabled, StartStep::ConfigureThreadException) + seq![
        StartStep::ConfigureAssertionVerbosity,
        StartStep::ConfigureAssertionRewrite,
        StartStep::ConfigureAssertionTruncation,
        StartStep::ConfigurePythonFiles,
    ]
}

/// All steps of a run.
pub open spec fn run_part6(o: StartOptions) -> Seq<StartStep> {
    run_part5(o) + step_if(o.junit_xml is Some && !o.is_worker, StartStep::ConfigureJunit) + seq![
        StartStep::ConfigureMarkGenerator,
    ] + step_if(o.runxfail, StartStep::NeutralizeXfail) + seq![
        StartStep::ConfigureDebugging,
        StartStep::RunSession,
    ]
}

/// The startup of a run.
pub open spec fn run_plan_of(o: StartOptions) -> PlanView {
    if log_mode_error(o) is Some {
        PlanView { steps: run_part1(o), rejection: log_mode_error(o) }
    } else if color_error(o) is Some {
        PlanView { steps: run_part2(o), rejection: color_error(o) }
    } else if capture_error(o) is Some {
        PlanView { steps: run_part3(o), rejection: capture_error(o) }
    } else if basetemp_error(o) is Some {
        PlanView { steps: run_part4(o), rejection: basetemp_error(o) }
    } else if junit_error(o) is Some {
        PlanView { steps: run_part5(o), rejection: junit_error(o) }
    } else {
        PlanView { steps: run_part6(o), rejection: None }
    }
}

/// The steps of a nested run up to the check of the log file's mode.
pub open spec fn nested_part1() -> Seq<StartStep> {
    seq![
        StartStep::StartRecording,
        StartStep::PushConfigProxy,
        StartStep::SnapshotPluginManager,
        StartStep::InstallDebugGuard,
        StartStep::AddPythonPaths,
        StartStep::ConfigureCapture,
    ]
}

/// ... up to the check of `--basetemp`.
pub open spec fn nested_part2() -> Seq<StartStep> {
    nested_part1().push(StartStep::ConfigureLogging)
}

/// ... up to the check of `--junitxml`.
pub open spec fn nested_part3() -> Seq<StartStep> {
    nested_part2() + seq![
        StartStep::ConfigureTmpPath,
        StartStep::EnableGc,
        StartStep::SetVersion,
    ]
}

/// All steps of a nested run: what it changes for good is put back after.
pub open spec fn nested_part4(o: StartOptions) -> Seq<StartStep> {
    nested_part3() + step_if(o.junit_xml is Some && !o.is_worker, StartStep::ConfigureJunit)
        + step_if(!o.debugging_disabled, StartStep::ConfigureDebugging) + seq![
        StartStep::ConfigureAssertionVerbosity,
        StartStep::ConfigureAssertionTruncation,
        StartStep::ConfigureMarkGenerator,
    ] + step_if(o.runxfail, StartStep::NeutralizeXfail) + step_if(
        !o.warnings_disabled,
        StartStep::InstallWarningCapture,
    ) + seq![
        StartStep::ConfigureColor,
        StartStep::ConfigureShowLocals,
        StartStep::ConfigureFullTrace,
        StartStep::ConfigureTruncateArgs,
        StartStep::RunSession,
        StartStep::ResetJunit,
        StartStep::RestoreColor,
    ]
}

/// The startup of a nested run.
pub open spec fn nested_plan_of(o: StartOptions) -> PlanView {
    if log_mode_error(o) is Some {
        PlanView { steps: nested_part1(), rejection: log_mode_error(o) }
    } else if basetemp_error(o) is Some {
        PlanView { steps: nested_part2(), rejection: basetemp_error(o) }
    } else if junit_error(o) is Some {
        PlanView { steps: nested_part3(), rejection: junit_error(o) }
    } else {
        PlanView { steps: nested_part4(o), rejection: None }
    }
}

/// The exit code of a run in which a step failed, where the failure ends it.
pub open spec fn failure_code_of(step: StartStep, nested: bool) -> Option<i32> {
    match step {
        StartStep::ActivateVirtualenv => Some(INTERNAL_ERROR),
        StartStep::InstallShim => Some(INTERNAL_ERROR),
        StartStep::ConfigureJunit => Some(INTERNAL_ERROR),
        StartStep::ConfigureMarkGenerator => Some(INTERNAL_ERROR),
        StartStep::CheckTheme => Some(USAGE_ERROR),
        StartStep::InstallWarningCapture => if nested {
            None
        } else {
            Some(USAGE_ERROR)
        },
        _ => None,
    }
}

/// What is said of a step that failed, where the failure ends the run.
pub open spec fn failure_notice_of(
    step: StartStep,
    nested: bool,
    error: ErrorTexts,
) -> Option<Seq<char>> {
    match step {
        StartStep::ActivateVirtualenv => Some(
            "INTERNAL ERROR: failed to activate virtualenv: "@ + error.shown@,
        ),
        StartStep::InstallShim => Some(
            "INTERNAL ERROR: failed to install pytest shim: "@ + error.shown@,
        ),
        StartStep::ConfigureJunit => Some("INTERNAL ERROR: "@ + error.rendered@),
        StartStep::ConfigureMarkGenerator => Some("INTERNAL ERROR: "@ + error.rendered@),
        StartStep::CheckTheme => Some("ERROR: "@ + error.message@),
        StartStep::InstallWarningCapture => if nested {
            None
        } else {
            Some("ERROR: "@ + error.message@)
        },
        _ => None,
    }
}

/// The choices of `--doctest-report`.
pub open spec fn is_doctest_choice(s: Seq<char>) -> bool {
    ||| s == "none"@
    ||| s == "cdiff"@
    ||| s == "udiff"@
    ||| s == "ndiff"@
    ||| s == "only_first_failure"@
}

/// A character in lower case, if it is an ASCII letter.
pub open spec fn ascii_lower(c: char) -> char {
    if 'A' <= c <= 'Z' {
        (c as int + 32) as char
    } else {
        c
    }
}

/// A text with its ASCII letters in lower case.
pub open spec fn ascii_lowered(s: Seq<char>) -> Seq<char> {
    s.map_values(|c: char| ascii_lower(c))
}

/// What is wrong with `--doctest-report`; case does not matter.
pub open spec fn doctest_error(report: Seq<char>) -> Option<Seq<char>> {
    if is_doctest_choice(ascii_lowered(report)) {
        None
    } else {
        Some(
            invalid_choice(
                "--doctest-report"@,
                report,
                "none, cdiff, udiff, ndiff, only_first_failure"@,
            ),
        )
    }
}

// ---------------------------------------------------------------------------
// Executable functions
// ---------------------------------------------------------------------------

fn invalid(option: &str, value: &str, choices: &str) -> (r: String)
    ensures
        r@ == invalid_choice(option@, value@, choices@),
{
    let mut r: String = "error: argument ".to_owned();
    r.append(option);
    r.append(": invalid choice: '");
    r.append(value);
    r.append("' (choose from ");
    r.append(choices);
    r.append(")");
    r
}

/// What is wrong with the mode of the log file.
pub fn check_log_file_mode(o: &StartOptions) -> (r: Option<String>)
    ensures
        opt_text(r) == log_mode_error(*o),
{
    let mode = match &o.log_file_mode {
        Some(mode) => mode,
        None => match &o.log_file_mode_ini {
            Some(mode) => mode,
            None => {
                return None;
            },
        },
    };
    if same(mode.as_str(), "w") || same(mode.as_str(), "a") {
        None
    } else {
        Some(invalid("--log-file-mode", mode.as_str(), "'w', 'a'"))
    }
}

/// What is wrong with `--color`.
pub fn check_color(o: &StartOptions) -> (r: Option<String>)
    ensures
        opt_text(r) == color_error(*o),
{
    match &o.color {
        Some(c) => if same(c.as_str(), "yes") || same(c.as_str(), "no") || same(
            c.as_str(),
            "auto",
        ) {
            None
        } else {
            Some(invalid("--color", c.as_str(), "'yes', 'no', 'auto'"))
        },
        None => None,
    }
}

/// The mode of output capture.
pub fn capture_mode(o: &StartOptions) -> (r: String)
    ensures
        r@ == capture_of(*o),
{
    if o.capture_disable {
        "no".to_owned()
    } else {
        match &o.capture {
            Some(mode) => mode.clone(),
            None => "fd".to_owned(),
        }
    }
}

/// What is wrong with the mode of output capture.
pub fn check_capture(o: &StartOptions) -> (r: Option<String>)
    ensures
        opt_text(r) == capture_error(*o),
{
    let mode = capture_mode(o);
    if same(mode.as_str(), "fd") || same(mode.as_str(), "sys") || same(mode.as_str(), "no") || same(
        mode.as_str(),
        "tee-sys",
    ) {
        None
    } else {
        Some(invalid("--capture", mode.as_str(), "'fd', 'sys', 'no', 'tee-sys'"))
    }
}

/// What is wrong with `--basetemp`.
pub fn check_basetemp(o: &StartOptions) -> (r: Option<String>)
    ensures
        opt_text(r) == basetemp_error(*o),
{
    match &o.basetemp {
        Some(given) => if texts_prefix(o.basetemp_path.as_slice(), o.cwd.as_slice()) {
            let mut m: String =
                "ERROR: basetemp must not be the current directory or an ancestor directory. Use a relative path: ".to_owned();
            m.append(given.as_str());
            Some(m)
        } else {
            None
        },
        None => None,
    }
}

/// What is wrong with `--junitxml`.
pub fn check_junit(o: &StartOptions) -> (r: Option<String>)
    ensures
        opt_text(r) == junit_error(*o),
{
    match &o.junit_xml {
        Some(path) => if !o.is_worker && o.junit_is_dir {
            let mut m: String = "ERROR: --junitxml must be a filename, given: ".to_owned();
            m.append(path.as_str());
            Some(m)
        } else {
            None
        },
        None => None,
    }
}

/// Appends a step under a condition.
fn push_if(steps: &mut Vec<StartStep>, b: bool, step: StartStep)
    ensures
        final(steps)@ == old(steps)@ + step_if(b, step),
{
    let ghost start = steps@;
    if b {
        steps.push(step);
    }
    assert(steps@ =~= start + step_if(b, step));
}

/// The startup of a run.
pub fn run_plan(o: &StartOptions) -> (r: StartPlan)
    ensures
        r@ == run_plan_of(*o),
{
    let mut steps: Vec<StartStep> = Vec::new();
    steps.push(StartStep::DisableGc);
    steps.push(StartStep::ActivateVirtualenv);
    steps.push(StartStep::InstallShim);
    steps.push(StartStep::SetVersion);
    steps.push(StartStep::AddPythonPaths);
    steps.push(StartStep::InstallDebugGuard);
    push_if(&mut steps, !o.warnings_disabled, StartStep::InstallWarningCapture);
    assert(steps@ =~= run_part1(*o));
    if let Some(m) = check_log_file_mode(o) {
        return StartPlan { steps, rejection: Some(m) };
    }
    steps.push(StartStep::ConfigureLogging);
    assert(steps@ =~= run_part2(*o));
    if let Some(m) = check_color(o) {
        return StartPlan { steps, rejection: Some(m) };
    }
    steps.push(StartStep::ConfigureColor);
    steps.push(StartStep::ConfigureShowLocals);
    steps.push(StartStep::ConfigureFullTrace);
    steps.push(StartStep::CheckTheme);
    assert(steps@ =~= run_part3(*o));
    if let Some(m) = check_capture(o) {
        return StartPlan { steps, rejection: Some(m) };
    }
    steps.push(StartStep::ConfigureCapture);
    assert(steps@ =~= run_part4(*o));
    if let Some(m) = check_basetemp(o) {
        return StartPlan { steps, rejection: Some(m) };
    }
    steps.push(StartStep::ConfigureTmpPath);
    push_if(&mut steps, !o.unraisable_disabled, StartStep::ConfigureUnraisable);
    push_if(&mut steps, !o.threadexception_disabled, StartStep::ConfigureThreadException);
    steps.push(StartStep::ConfigureAssertionVerbosity);
    steps.push(StartStep::ConfigureAssertionRewrite);
    steps.push(StartStep::ConfigureAssertionTruncation);
    steps.push(StartStep::ConfigurePythonFiles);
    assert(steps@ =~= run_part5(*o));
    if let Some(m) = check_junit(o) {
        return StartPlan { steps, rejection: Some(m) };
    }
    push_if(&mut steps, o.junit_xml.is_some() && !o.is_worker, StartStep::ConfigureJunit);
    steps.push(StartStep::ConfigureMarkGenerator);
    push_if(&mut steps, o.runxfail, StartStep::NeutralizeXfail);
    steps.push(StartStep::ConfigureDebugging);
    steps.push(StartStep::RunSession);
    assert(steps@ =~= run_part6(*o));
    StartPlan { steps, rejection: None }
}

/// The startup of a nested run.
pub fn nested_plan(o: &StartOptions) -> (r: StartPlan)
    ensures
        r@ == nested_plan_of(*o),
{
    let mut steps: Vec<StartStep> = Vec::new();
    steps.push(StartStep::StartRecording);
    steps.push(StartStep::PushConfigProxy);
    steps.push(StartStep::SnapshotPluginManager);
    steps.push(StartStep::InstallDebugGuard);
    steps.push(StartStep::AddPythonPaths);
    steps.push(StartStep::ConfigureCapture);
    assert(steps@ =~= nested_part1());
    if let Some(m) = check_log_file_mode(o) {
        return StartPlan { steps, rejection: Some(m) };
    }
    steps.push(StartStep::ConfigureLogging);
    assert(steps@ =~= nested_part2());
    if let Some(m) = check_basetemp(o) {
        return StartPlan { steps, rejection: Some(m) };
    }
    steps.push(StartStep::ConfigureTmpPath);
    steps.push(StartStep::EnableGc);
    steps.push(StartStep::SetVersion);
    assert(steps@ =~= nested_part3());
    if let Some(m) = check_junit(o) {
        return StartPlan { steps, rejection: Some(m) };
    }
    finish_nested_steps(&mut steps, o);
    StartPlan { steps, rejection: None }
}

/// Appends the steps of a nested run after its checks.
fn finish_nested_steps(steps: &mut Vec<StartStep>, o: &StartOptions)
    requires
        old(steps)@ == nested_part3(),
    ensures
        final(steps)@ == nested_part4(*o),
{
    push_if(steps, o.junit_xml.is_some() && !o.is_worker, StartStep::ConfigureJunit);
    push_if(steps, !o.debugging_disabled, StartStep::ConfigureDebugging);
    push_nested_middle(steps);
    push_if(steps, o.runxfail, StartStep::NeutralizeXfail);
    push_if(steps, !o.warnings_disabled, StartStep::InstallWarningCapture);
    push_nested_end(steps);
}

fn push_nested_middle(steps: &mut Vec<StartStep>)
    ensures
        final(steps)@ == old(steps)@ + seq![
            StartStep::ConfigureAssertionVerbosity,
            StartStep::ConfigureAssertionTruncation,
            StartStep::ConfigureMarkGenerator,
        ],
{
    steps.push(StartStep::ConfigureAssertionVerbosity);
    steps.push(StartStep::ConfigureAssertionTruncation);
    steps.push(StartStep::ConfigureMarkGenerator);
}

fn push_nested_end(steps: &mut Vec<StartStep>)
    ensures
        final(steps)@ == old(steps)@ + seq![
            StartStep::ConfigureColor,
            StartStep::ConfigureShowLocals,
            StartStep::ConfigureFullTrace,
            StartStep::ConfigureTruncateArgs,
            StartStep::RunSession,
            StartStep::ResetJunit,
            StartStep::RestoreColor,
        ],
{
    steps.push(StartStep::ConfigureColor);
    steps.push(StartStep::ConfigureShowLocals);
    steps.push(StartStep::ConfigureFullTrace);
    steps.push(StartStep::ConfigureTruncateArgs);
    steps.push(StartStep::RunSession);
    steps.push(StartStep::ResetJunit);
    steps.push(StartStep::RestoreColor);
}

/// The exit code of a run in which a step failed, where the failure ends it.
pub fn failure_code(step: StartStep, nested: bool) -> (r: Option<i32>)
    ensures
        r == failure_code_of(step, nested),
{
    match step {
        StartStep::ActivateVirtualenv => Some(INTERNAL_ERROR),
        StartStep::InstallShim => Some(INTERNAL_ERROR),
        StartStep::ConfigureJunit => Some(INTERNAL_ERROR),
        StartStep::ConfigureMarkGenerator => Some(INTERNAL_ERROR),
        StartStep::CheckTheme => Some(USAGE_ERROR),
        StartStep::InstallWarningCapture => if nested {
            None
        } else {
            Some(USAGE_ERROR)
        },
        _ => None,
    }
}

fn notice(prefix: &str, text: &String) -> (r: Option<String>)
    ensures
        r matches Some(s) && s@ == prefix@ + text@,
{
    let mut line: String = prefix.to_owned();
    line.append(text.as_str());
    Some(line)
}

/// What is said of a step that failed, where the failure ends the run.
pub fn failure_notice(step: StartStep, nested: bool, error: &ErrorTexts) -> (r: Option<String>)
    ensures
        opt_text(r) == failure_notice_of(step, nested, *error),
        r is Some <==> failure_code_of(step, nested) is Some,
{
    match step {
        StartStep::ActivateVirtualenv => notice(
            "INTERNAL ERROR: failed to activate virtualenv: ",
            &error.shown,
        ),
        StartStep::InstallShim => notice(
            "INTERNAL ERROR: failed to install pytest shim: ",
            &error.shown,
        ),
        StartStep::ConfigureJunit => notice("INTERNAL ERROR: ", &error.rendered),
        StartStep::ConfigureMarkGenerator => notice("INTERNAL ERROR: ", &error.rendered),
        StartStep::CheckTheme => notice("ERROR: ", &error.message),
        StartStep::InstallWarningCapture => if nested {
            None
        } else {
            notice("ERROR: ", &error.message)
        },
        _ => None,
    }
}

/// A text with its ASCII letters in lower case.
fn to_ascii_lower(s: &str) -> (r: String)
    ensures
        r@ == ascii_lowered(s@),
{
    let cs = crate::text::chars_of(s);
    let mut r = String::new();
    let mut i: usize = 0;
    while i < cs.len()
        invariant
            i <= cs@.len(),
            cs@ == s@,
            r@ == ascii_lowered(s@).take(i as int),
        decreases cs@.len() - i,
    {
        let c: char = cs[i];
        let lower: char = if 'A' <= c && c <= 'Z' {
            let n: u8 = c as u8;
            (n + 32) as char
        } else {
            c
        };
        r.push(lower);
        assert(r@ =~= ascii_lowered(s@).take(i + 1));
        i += 1;
    }
    assert(ascii_lowered(s@).take(i as int) =~= ascii_lowered(s@));
    r
}

/// What is wrong with `--doctest-report`; case does not matter.
pub fn check_doctest_report(report: &str) -> (r: Option<String>)
    ensures
        opt_text(r) == doctest_error(report@),
{
    let lower = to_ascii_lower(report);
    if same(lower.as_str(), "none") || same(lower.as_str(), "cdiff") || same(
        lower.as_str(),
        "udiff",
    ) || same(lower.as_str(), "ndiff") || same(lower.as_str(), "only_first_failure") {
        None
    } else {
        Some(
            invalid(
                "--doctest-report",
                report,
                "none, cdiff, udiff, ndiff, only_first_failure",
            ),
        )
    }
}

// ---------------------------------------------------------------------------
// Laws
// ---------------------------------------------------------------------------

/// A run reaches its session just when no option was rejected, and then as
/// the last step of a plain run.
pub proof fn session_runs_unless_rejected(o: StartOptions)
    ensures
        run_plan_of(o).rejection is None <==> run_plan_of(o).steps.contains(StartStep::RunSession),
        run_plan_of(o).rejection is None ==> run_plan_of(o).steps.last() == StartStep::RunSession,
        nested_plan_of(o).rejection is None <==> nested_plan_of(o).steps.contains(
            StartStep::RunSession,
        ),
{
    let run = StartStep::RunSession;
    let plan = run_plan_of(o);
    let nested = nested_plan_of(o);
    if plan.rejection is None {
        assert(plan.steps[plan.steps.len() - 1] == run);
    }
    if nested.rejection is None {
        assert(nested.steps[nested.steps.len() - 3] == run);
    }
    assert(!run_part1(o).contains(run));
    assert(!run_part2(o).contains(run));
    assert(!run_part3(o).contains(run));
    assert(!run_part4(o).contains(run));
    assert(!run_part5(o).contains(run));
    assert(!nested_part1().contains(run));
    assert(!nested_part2().contains(run));
    assert(!nested_part3().contains(run));
}

/// A nested run puts the colors and the XML writer back after its session.
pub proof fn nested_run_cleans_up(o: StartOptions)
    requires
        nested_plan_of(o).rejection is None,
    ensures
        ({
            let steps = nested_plan_of(o).steps;
            let n = steps.len() as int;
            &&& steps[n - 3] == StartStep::RunSession
            &&& steps[n - 2] == StartStep::ResetJunit
            &&& steps[n - 1] == StartStep::RestoreColor
        }),
{
}

/// Where a step of the start of a session stands.
pub open spec fn run_place(step: StartStep) -> int {
    match step {
        StartStep::DisableGc => 0,
        StartStep::ActivateVirtualenv => 1,
        StartStep::InstallShim => 2,
        StartStep::SetVersion => 3,
        StartStep::AddPythonPaths => 4,
        StartStep::InstallDebugGuard => 5,
        StartStep::InstallWarningCapture => 6,
        StartStep::ConfigureLogging => 7,
        StartStep::ConfigureColor => 8,
        StartStep::ConfigureShowLocals => 9,
        StartStep::ConfigureFullTrace => 10,
        StartStep::CheckTheme => 11,
        StartStep::ConfigureCapture => 12,
        StartStep::ConfigureTmpPath => 13,
        StartStep::ConfigureUnraisable => 14,
        StartStep::ConfigureThreadException => 15,
        StartStep::ConfigureAssertionVerbosity => 16,
        StartStep::ConfigureAssertionRewrite => 17,
        StartStep::ConfigureAssertionTruncation => 18,
        StartStep::ConfigurePythonFiles => 19,
        StartStep::ConfigureJunit => 20,
        StartStep::ConfigureMarkGenerator => 21,
        StartStep::NeutralizeXfail => 22,
        StartStep::ConfigureDebugging => 23,
        StartStep::RunSession => 24,
        _ => -1,
    }
}

/// Where a step of the start of a nested session stands.
pub open spec fn nested_place(step: StartStep) -> int {
    match step {
        StartStep::StartRecording => 0,
        StartStep::PushConfigProxy => 1,
        StartStep::SnapshotPluginManager => 2,
        StartStep::InstallDebugGuard => 3,
        StartStep::AddPythonPaths => 4,
        StartStep::ConfigureCapture => 5,
        StartStep::ConfigureLogging => 6,
        StartStep::ConfigureTmpPath => 7,
        StartStep::EnableGc => 8,
        StartStep::SetVersion => 9,
        StartStep::ConfigureJunit => 10,
        StartStep::ConfigureDebugging => 11,
        StartStep::ConfigureAssertionVerbosity => 12,
        StartStep::ConfigureAssertionTruncation => 13,
        StartStep::ConfigureMarkGenerator => 14,
        StartStep::NeutralizeXfail => 15,
        StartStep::InstallWarningCapture => 16,
        StartStep::ConfigureColor => 17,
        StartStep::ConfigureShowLocals => 18,
        StartStep::ConfigureFullTrace => 19,
        StartStep::ConfigureTruncateArgs => 20,
        StartStep::RunSession => 21,
        StartStep::ResetJunit => 22,
        StartStep::RestoreColor => 23,
        _ => -1,
    }
}

/// An option has a value that is none of its choices, or a path that will not do.
pub open spec fn bad_log_mode(o: StartOptions) -> bool {
    let mode = if o.log_file_mode is Some {
        o.log_file_mode
    } else {
        o.log_file_mode_ini
    };
    mode is Some && mode->0@ != "w"@ && mode->0@ != "a"@
}

/// The checks of options: the mode of the log file, the option before the setting
/// of the configuration file; the colour; the way to capture, where `-s` means
/// none and nothing means by file descriptor; a temporary directory that is not
/// the current one or above it; an XML file that is no directory, except in a
/// worker.
pub proof fn checks_name_bad_options(o: StartOptions)
    ensures
        log_mode_error(o) is Some <==> bad_log_mode(o),
        color_error(o) is Some <==> o.color is Some && o.color->0@ != "yes"@ && o.color->0@
            != "no"@ && o.color->0@ != "auto"@,
        o.capture_disable ==> capture_of(o) == "no"@ && capture_error(o) is None,
        !o.capture_disable && o.capture is None ==> capture_of(o) == "fd"@ && capture_error(
            o,
        ) is None,
        !o.capture_disable && o.capture is Some ==> capture_of(o) == o.capture->0@,
        !o.capture_disable && o.capture is Some ==> (capture_error(o) is Some <==> o.capture->0@
            != "fd"@ && o.capture->0@ != "sys"@ && o.capture->0@ != "no"@ && o.capture->0@
            != "tee-sys"@),
        basetemp_error(o) is Some <==> o.basetemp is Some && o.basetemp_path@.len() <= o.cwd@.len()
            && forall|i: int|
            0 <= i < o.basetemp_path@.len() ==> (#[trigger] o.basetemp_path@[i])@ == o.cwd@[i]@,
        junit_error(o) is Some <==> o.junit_xml is Some && o.junit_is_dir && !o.is_worker,
        color_error(o) is Some ==> color_error(o)->0 == "error: argument "@ + "--color"@
            + ": invalid choice: '"@ + o.color->0@ + "' (choose from "@ + "'yes', 'no', 'auto'"@
            + ")"@,
        junit_error(o) is Some ==> junit_error(o)->0
            == "ERROR: --junitxml must be a filename, given: "@ + o.junit_xml->0@,
{
    let path = texts(o.basetemp_path@);
    let cwd = texts(o.cwd@);
    if path.is_prefix_of(cwd) {
        assert forall|i: int| 0 <= i < o.basetemp_path@.len() implies (
        #[trigger] o.basetemp_path@[i])@ == o.cwd@[i]@ by {
            assert(path[i] == cwd.subrange(0, path.len() as int)[i]);
        }
    } else if path.len() <= cwd.len() {
        if forall|i: int|
            0 <= i < o.basetemp_path@.len() ==> (#[trigger] o.basetemp_path@[i])@ == o.cwd@[i]@ {
            assert forall|i: int| 0 <= i < path.len() implies path[i] == cwd.subrange(
                0,
                path.len() as int,
            )[i] by {
                assert(o.basetemp_path@[i]@ == o.cwd@[i]@);
            }
            assert(path =~= cwd.subrange(0, path.len() as int));
        }
    }
}

/// The first option that will not do is the one that is spoken of, and nothing
/// is spoken of where all will do.
pub proof fn first_bad_option_is_named(o: StartOptions)
    ensures
        run_plan_of(o).rejection == (if bad_log_mode(o) {
            log_mode_error(o)
        } else if color_error(o) is Some {
            color_error(o)
        } else if capture_error(o) is Some {
            capture_error(o)
        } else if basetemp_error(o) is Some {
            basetemp_error(o)
        } else {
            junit_error(o)
        }),
        nested_plan_of(o).rejection == (if bad_log_mode(o) {
            log_mode_error(o)
        } else if basetemp_error(o) is Some {
            basetemp_error(o)
        } else {
            junit_error(o)
        }),
{
    checks_name_bad_options(o);
}

/// The start of a session takes each of its steps once at most and in one order;
/// it stops right before the step that would use the first option that will not
/// do, and otherwise ends with running the session. Steps for what is switched
/// off are left out.
pub proof fn start_goes_in_order(o: StartOptions, x: StartStep)
    ensures
        staircase(run_plan_of(o).steps, |s: StartStep| run_place(s), 25),
        run_plan_of(o).steps.contains(x) <==> run_place(x) >= 0 && (bad_log_mode(o) ==> run_place(x)
            < run_place(StartStep::ConfigureLogging)) && (color_error(o) is Some ==> run_place(x)
            < run_place(StartStep::ConfigureColor)) && (capture_error(o) is Some ==> run_place(x)
            < run_place(StartStep::ConfigureCapture)) && (basetemp_error(o) is Some ==> run_place(x)
            < run_place(StartStep::ConfigureTmpPath)) && (junit_error(o) is Some ==> run_place(x)
            < run_place(StartStep::ConfigureJunit)) && (match x {
            StartStep::InstallWarningCapture => !o.warnings_disabled,
            StartStep::ConfigureUnraisable => !o.unraisable_disabled,
            StartStep::ConfigureThreadException => !o.threadexception_disabled,
            StartStep::ConfigureJunit => o.junit_xml is Some && !o.is_worker,
            StartStep::NeutralizeXfail => o.runxfail,
            _ => true,
        }),
{
    checks_name_bad_options(o);
    let place = |s: StartStep| run_place(s);
    let none = Seq::<StartStep>::empty();
    no_step(place, x);
    let b1 = seq![
        StartStep::DisableGc,
        StartStep::ActivateVirtualenv,
        StartStep::InstallShim,
        StartStep::SetVersion,
        StartStep::AddPythonPaths,
        StartStep::InstallDebugGuard,
    ];
    block_has(b1, place, 0, x);
    next_block(none, place, 0, b1, 0, x);
    assert(none + b1 =~= b1);
    next_step(b1, place, 6, !o.warnings_disabled, StartStep::InstallWarningCapture, x);
    let p1 = run_part1(o);
    assert(p1 == b1 + step_if(!o.warnings_disabled, StartStep::InstallWarningCapture));
    next_step(p1, place, 7, true, StartStep::ConfigureLogging, x);
    let p2 = run_part2(o);
    assert(p1 + seq![StartStep::ConfigureLogging] =~= p2);
    let b3 = seq![
        StartStep::ConfigureColor,
        StartStep::ConfigureShowLocals,
        StartStep::ConfigureFullTrace,
        StartStep::CheckTheme,
    ];
    block_has(b3, place, 8, x);
    next_block(p2, place, 8, b3, 8, x);
    let p3 = run_part3(o);
    next_step(p3, place, 12, true, StartStep::ConfigureCapture, x);
    let p4 = run_part4(o);
    assert(p3 + seq![StartStep::ConfigureCapture] =~= p4);
    next_step(p4, place, 13, true, StartStep::ConfigureTmpPath, x);
    let q1 = p4.push(StartStep::ConfigureTmpPath);
    assert(p4 + seq![StartStep::ConfigureTmpPath] =~= q1);
    next_step(q1, place, 14, !o.unraisable_disabled, StartStep::ConfigureUnraisable, x);
    let q2 = q1 + step_if(!o.unraisable_disabled, StartStep::ConfigureUnraisable);
    next_step(q2, place, 15, !o.threadexception_disabled, StartStep::ConfigureThreadException, x);
    let q3 = q2 + step_if(!o.threadexception_disabled, StartStep::ConfigureThreadException);
    let b5 = seq![
        StartStep::ConfigureAssertionVerbosity,
        StartStep::ConfigureAssertionRewrite,
        StartStep::ConfigureAssertionTruncation,
        StartStep::ConfigurePythonFiles,
    ];
    block_has(b5, place, 16, x);
    next_block(q3, place, 16, b5, 16, x);
    let p5 = run_part5(o);
    assert(p5 == q3 + b5);
    let junit = o.junit_xml is Some && !o.is_worker;
    next_step(p5, place, 20, junit, StartStep::ConfigureJunit, x);
    let r1 = p5 + step_if(junit, StartStep::ConfigureJunit);
    next_step(r1, place, 21, true, StartStep::ConfigureMarkGenerator, x);
    let r2 = r1 + seq![StartStep::ConfigureMarkGenerator];
    next_step(r2, place, 22, o.runxfail, StartStep::NeutralizeXfail, x);
    let r3 = r2 + step_if(o.runxfail, StartStep::NeutralizeXfail);
    let b6 = seq![StartStep::ConfigureDebugging, StartStep::RunSession];
    block_has(b6, place, 23, x);
    next_block(r3, place, 23, b6, 23, x);
    assert(run_part6(o) == r3 + b6);
    reveal(staircase);
}

/// A block of steps at following places has just the steps at those places.
proof fn block_has(block: Seq<StartStep>, place: spec_fn(StartStep) -> int, lo: int, x: StartStep)
    requires
        0 <= lo,
        forall|i: int| 0 <= i < block.len() ==> place(#[trigger] block[i]) == lo + i,
        forall|a: StartStep, b: StartStep|
            #[trigger] place(a) == #[trigger] place(b) && place(a) >= 0 ==> a == b,
    ensures
        block.contains(x) <==> lo <= place(x) < lo + block.len(),
{
    if lo <= place(x) < lo + block.len() {
        assert(place(block[place(x) - lo]) == place(x));
    }
    if block.contains(x) {
        let i = choose|i: int| 0 <= i < block.len() && block[i] == x;
        assert(place(block[i]) == lo + i);
    }
}

/// The start of a nested session takes each of its steps once at most and in one
/// order; it stops right before the step that would use the first option that
/// will not do, and otherwise runs the session and cleans up after it.
pub proof fn nested_start_goes_in_order(o: StartOptions, x: StartStep)
    ensures
        staircase(nested_plan_of(o).steps, |s: StartStep| nested_place(s), 24),
        nested_plan_of(o).steps.contains(x) <==> nested_place(x) >= 0 && (bad_log_mode(o)
            ==> nested_place(x) < nested_place(StartStep::ConfigureLogging)) && (basetemp_error(
            o,
        ) is Some ==> nested_place(x) < nested_place(StartStep::ConfigureTmpPath)) && (junit_error(
            o,
        ) is Some ==> nested_place(x) < nested_place(StartStep::ConfigureJunit)) && (match x {
            StartStep::InstallWarningCapture => !o.warnings_disabled,
            StartStep::ConfigureDebugging => !o.debugging_disabled,
            StartStep::ConfigureJunit => o.junit_xml is Some && !o.is_worker,
            StartStep::NeutralizeXfail => o.runxfail,
            _ => true,
        }),
{
    checks_name_bad_options(o);
    let place = |s: StartStep| nested_place(s);
    let none = Seq::<StartStep>::empty();
    no_step(place, x);
    let p1 = nested_part1();
    block_has(p1, place, 0, x);
    next_block(none, place, 0, p1, 0, x);
    assert(none + p1 =~= p1);
    next_step(p1, place, 6, true, StartStep::ConfigureLogging, x);
    let p2 = nested_part2();
    assert(p1 + seq![StartStep::ConfigureLogging] =~= p2);
    let b3 = seq![StartStep::ConfigureTmpPath, StartStep::EnableGc, StartStep::SetVersion];
    block_has(b3, place, 7, x);
    next_block(p2, place, 7, b3, 7, x);
    let p3 = nested_part3();
    assert(p3 == p2 + b3);
    let junit = o.junit_xml is Some && !o.is_worker;
    next_step(p3, place, 10, junit, StartStep::ConfigureJunit, x);
    let q1 = p3 + step_if(junit, StartStep::ConfigureJunit);
    next_step(q1, place, 11, !o.debugging_disabled, StartStep::ConfigureDebugging, x);
    let q2 = q1 + step_if(!o.debugging_disabled, StartStep::ConfigureDebugging);
    let b4 = seq![
        StartStep::ConfigureAssertionVerbosity,
        StartStep::ConfigureAssertionTruncation,
        StartStep::ConfigureMarkGenerator,
    ];
    block_has(b4, place, 12, x);
    next_block(q2, place, 12, b4, 12, x);
    let q3 = q2 + b4;
    next_step(q3, place, 15, o.runxfail, StartStep::NeutralizeXfail, x);
    let q4 = q3 + step_if(o.runxfail, StartStep::NeutralizeXfail);
    next_step(q4, place, 16, !o.warnings_disabled, StartStep::InstallWarningCapture, x);
    let q5 = q4 + step_if(!o.warnings_disabled, StartStep::InstallWarningCapture);
    let b5 = seq![
        StartStep::ConfigureColor,
        StartStep::ConfigureShowLocals,
        StartStep::ConfigureFullTrace,
        StartStep::ConfigureTruncateArgs,
        StartStep::RunSession,
        StartStep::ResetJunit,
        StartStep::RestoreColor,
    ];
    block_has(b5, place, 17, x);
    next_block(q5, place, 17, b5, 17, x);
    assert(nested_part4(o) == q5 + b5);
    reveal(staircase);
}

/// A step that fails ends the session where it cannot do without it: with 3 for
/// the environment, the shim, the XML file and the marks, with 4 for the theme
/// and, but in a nested session, the warning filters. Each such failure is told.
pub proof fn failures_of_the_start(step: StartStep, nested: bool, error: ErrorTexts)
    ensures
        failure_code_of(step, nested) == Some(3i32) <==> step == StartStep::ActivateVirtualenv
            || step == StartStep::InstallShim || step == StartStep::ConfigureJunit || step
            == StartStep::ConfigureMarkGenerator,
        failure_code_of(step, nested) == Some(4i32) <==> step == StartStep::CheckTheme || step
            == StartStep::InstallWarningCapture && !nested,
        failure_code_of(step, nested) is Some ==> failure_code_of(step, nested)->0 == 3
            || failure_code_of(step, nested)->0 == 4,
        failure_notice_of(step, nested, error) is Some <==> failure_code_of(step, nested) is Some,
        failure_code_of(step, nested) == Some(4i32) ==> failure_notice_of(step, nested, error)
            == Some("ERROR: "@ + error.message@),
        step == StartStep::ConfigureJunit || step == StartStep::ConfigureMarkGenerator
            ==> failure_notice_of(step, nested, error) == Some(
            "INTERNAL ERROR: "@ + error.rendered@,
        ),
        step == StartStep::ActivateVirtualenv ==> failure_notice_of(step, nested, error) == Some(
            "INTERNAL ERROR: failed to activate virtualenv: "@ + error.shown@,
        ),
        step == StartStep::InstallShim ==> failure_notice_of(step, nested, error) == Some(
            "INTERNAL ERROR: failed to install pytest shim: "@ + error.shown@,
        ),
{
}

/// A doctest report is one of five, in upper or lower case.
pub proof fn doctest_reports_are_known(report: Seq<char>)
    ensures
        doctest_error(report) is None <==> {
            let name = ascii_lowered(report);
            name == "none"@ || name == "cdiff"@ || name == "udiff"@ || name == "ndiff"@ || name
                == "only_first_failure"@
        },
        ascii_lowered(report).len() == report.len(),
        forall|i: int|
            0 <= i < report.len() ==> {
                let c = report[i];
                let low = #[trigger] ascii_lowered(report)[i];
                if 'A' <= c <= 'Z' {
                    low as int == c as int + 32
                } else {
                    low == c
                }
            },
{
}

} // verus!
