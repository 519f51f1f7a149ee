//! From the loaded conftests to the session header, as a machine: the
//! application performs an action and reports what came of it.

use vstd::prelude::*;

use crate::numbers::{code_of, code_round_trip, code_text};
use crate::report::INTERNAL_ERROR;
use crate::session::abort::{after_marker, failure_ending, prefixed};
use crate::text::{lines, lines_of, opt_text, strip_prefix, texts, trim, trimmed};

verus! {

/// What the application does next.
#[derive(Debug, Clone, Copy, PartialEq, Eq, Structural)]
pub enum ConfigureAction {
    /// Fire `pytest_load_initial_conftests`.
    LoadInitialConftests,
    /// Let warnings through to whoever listens.
    SuspendWarnings,
    /// Fire `pytest_configure`.
    Configure,
    /// Capture warnings again; `failed` where the hooks raised.
    InstallWarnings { failed: bool },
    /// Register the fixtures of plugins that were registered as objects.
    RegisterInstanceFixtures,
    /// Show the help text.
    ShowHelp,
    /// Look whether a plugin brought a terminal reporter of its own.
    FindReporter,
    /// Fire `pytest_sessionstart`; `replaced` where there is such a reporter.
    SessionStart { replaced: bool },
    /// Let that reporter start the session.
    ReporterSessionStart,
    /// Print the header.
    Header,
    /// Fire `pytest_report_header` and print the lines.
    ReportHeader,
    /// List the markers.
    Markers,
    /// Collection goes on.
    Collect,
    /// All was shown: there is nothing to collect.
    Shown,
    /// Collection fails as a whole.
    Fail,
}

/// What came of an action.
pub enum ConfigureEvent {
    Done,
    /// Whether there is a reporter of a plugin.
    Reporter(bool),
    /// It raised a usage error, rendered.
    UsageError(String),
    /// It raised `KeyboardInterrupt`, rendered.
    Interrupted(String),
    /// It asked to end the session.
    Exit { code: i32, message: String },
    /// It raised another exception, rendered.
    Raised(String),
}

/// What follows on an event.
pub struct ConfigureStep {
    pub action: ConfigureAction,
    /// The message with which collection is to fail.
    pub failure: Option<String>,
    /// A line for stderr.
    pub stderr: Option<String>,
    /// A collection error of the root directory.
    pub error: Option<String>,
    /// The banner of the end of the session.
    pub banner: Option<String>,
}

/// A step as a mathematical value.
pub struct ConfigureStepView {
    pub action: ConfigureAction,
    pub failure: Option<Seq<char>>,
    pub stderr: Option<Seq<char>>,
    pub error: Option<Seq<char>>,
    pub banner: Option<Seq<char>>,
}

impl View for ConfigureStep {
    type V = ConfigureStepView;

    open spec fn view(&self) -> ConfigureStepView {
        ConfigureStepView {
            action: self.action,
            failure: opt_text(self.failure),
            stderr: opt_text(self.stderr),
            error: opt_text(self.error),
            banner: opt_text(self.banner),
        }
    }
}

// ---------------------------------------------------------------------------
// Model
// ---------------------------------------------------------------------------

/// The message of a usage error: the last line of the rendered exception after
/// the name of its class, or all of it where there is no such line.
pub open spec fn usage_text(rendered: Seq<char>) -> Seq<char> {
    let ls = lines_of(rendered);
    let prefix = "pytest.UsageError: "@;
    if ls.len() > 0 && prefix.is_prefix_of(ls.last()) {
        ls.last().skip(prefix.len() as int)
    } else {
        trimmed(rendered)
    }
}

/// A step to `action`, with nothing to say.
pub open spec fn moves_to(action: ConfigureAction) -> ConfigureStepView {
    ConfigureStepView { action, failure: None, stderr: None, error: None, banner: None }
}

/// The message of an exception, however it was raised.
pub open spec fn rendering(e: ConfigureEvent) -> Option<Seq<char>> {
    match e {
        ConfigureEvent::Done => None,
        ConfigureEvent::Reporter(_) => None,
        ConfigureEvent::UsageError(m) => Some(m@),
        ConfigureEvent::Interrupted(m) => Some(m@),
        ConfigureEvent::Exit { code, message } => Some(message@),
        ConfigureEvent::Raised(m) => Some(m@),
    }
}

/// Failure of the first phase: a usage error is shown by its message, another
/// exception as a whole.
pub open spec fn initial_failure(e: ConfigureEvent) -> ConfigureStepView {
    let line = match e {
        ConfigureEvent::UsageError(m) => Some("ERROR: "@ + usage_text(m@)),
        _ => rendering(e),
    };
    ConfigureStepView {
        failure: Some("\x00USAGE_ERROR\x00"@),
        stderr: line,
        ..moves_to(ConfigureAction::Fail)
    }
}

/// Failure of `pytest_configure`; warnings are captured again first.
pub open spec fn configure_failure(e: ConfigureEvent) -> ConfigureStepView {
    let to = moves_to(ConfigureAction::InstallWarnings { failed: true });
    match e {
        ConfigureEvent::UsageError(m) => ConfigureStepView {
            failure: Some("\x00USAGE_ERROR\x00"@),
            stderr: Some("ERROR: "@ + usage_text(m@)),
            ..to
        },
        ConfigureEvent::Exit { code, message } => ConfigureStepView {
            failure: Some("\x00EXIT\x00"@ + code_of(code as int)),
            stderr: Some("Exit: "@ + message@),
            ..to
        },
        _ => ConfigureStepView {
            failure: Some("\x00INTERNAL_STDERR\x00"@ + rendering(e)->Some_0),
            ..to
        },
    }
}

/// Failure of `pytest_sessionstart`.
pub open spec fn sessionstart_failure(e: ConfigureEvent) -> ConfigureStepView {
    let to = moves_to(ConfigureAction::Fail);
    match e {
        ConfigureEvent::Interrupted(_) => ConfigureStepView {
            failure: Some("\x00KEYBOARD_INTERRUPT\x00"@),
            ..to
        },
        ConfigureEvent::Exit { code, message } => ConfigureStepView {
            failure: Some("\x00EXIT\x00"@ + code_of(code as int)),
            stderr: Some("Exit: "@ + message@),
            banner: Some("Exit: "@ + message@),
            ..to
        },
        _ => ConfigureStepView {
            failure: Some("\x00INTERNAL\x00"@ + rendering(e)->Some_0),
            ..to
        },
    }
}

/// What follows on the header.
pub open spec fn after_header(markers: bool) -> ConfigureAction {
    if markers {
        ConfigureAction::Markers
    } else {
        ConfigureAction::Collect
    }
}

/// What follows on what came of an action.
pub open spec fn configure_step(
    help: bool,
    markers: bool,
    action: ConfigureAction,
    e: ConfigureEvent,
) -> ConfigureStepView {
    let raised = rendering(e) is Some;
    match action {
        ConfigureAction::LoadInitialConftests => if raised {
            initial_failure(e)
        } else {
            moves_to(ConfigureAction::SuspendWarnings)
        },
        ConfigureAction::SuspendWarnings => moves_to(ConfigureAction::Configure),
        ConfigureAction::Configure => if raised {
            configure_failure(e)
        } else {
            moves_to(ConfigureAction::InstallWarnings { failed: false })
        },
        ConfigureAction::InstallWarnings { failed } => if failed {
            moves_to(ConfigureAction::Fail)
        } else {
            moves_to(ConfigureAction::RegisterInstanceFixtures)
        },
        ConfigureAction::RegisterInstanceFixtures => ConfigureStepView {
            error: rendering(e),
            ..moves_to(
                if help {
                    ConfigureAction::ShowHelp
                } else {
                    ConfigureAction::FindReporter
                },
            )
        },
        ConfigureAction::ShowHelp => moves_to(ConfigureAction::Shown),
        ConfigureAction::FindReporter => moves_to(
            ConfigureAction::SessionStart { replaced: e == ConfigureEvent::Reporter(true) },
        ),
        ConfigureAction::SessionStart { replaced } => if raised {
            sessionstart_failure(e)
        } else if replaced {
            moves_to(ConfigureAction::ReporterSessionStart)
        } else {
            moves_to(ConfigureAction::Header)
        },
        ConfigureAction::ReporterSessionStart => moves_to(after_header(markers)),
        ConfigureAction::Header => moves_to(ConfigureAction::ReportHeader),
        ConfigureAction::ReportHeader => ConfigureStepView {
            error: rendering(e),
            ..moves_to(after_header(markers))
        },
        ConfigureAction::Markers => ConfigureStepView {
            error: rendering(e),
            ..moves_to(ConfigureAction::Shown)
        },
        ConfigureAction::Collect => moves_to(ConfigureAction::Collect),
        ConfigureAction::Shown => moves_to(ConfigureAction::Shown),
        ConfigureAction::Fail => moves_to(ConfigureAction::Fail),
    }
}

// ---------------------------------------------------------------------------
// Executable functions
// ---------------------------------------------------------------------------

/// The message of a usage error.
pub fn usage_message(rendered: &str) -> (r: String)
    ensures
        r@ == usage_text(rendered@),
{
    let ls = lines(rendered);
    let n: usize = ls.len();
    assert(texts(ls@).len() == n);
    if n > 0 {
        assert(texts(ls@).last() == ls@[n - 1]@);
        if let Some(rest) = strip_prefix(ls[n - 1].as_str(), "pytest.UsageError: ") {
            return rest;
        }
    }
    trim(rendered)
}

fn go(action: ConfigureAction) -> (r: ConfigureStep)
    ensures
        r@ == moves_to(action),
{
    ConfigureStep { action, failure: None, stderr: None, error: None, banner: None }
}

fn rendered(e: &ConfigureEvent) -> (r: Option<String>)
    ensures
        opt_text(r) == rendering(*e),
{
    match e {
        ConfigureEvent::Done => None,
        ConfigureEvent::Reporter(_) => None,
        ConfigureEvent::UsageError(m) => Some(m.clone()),
        ConfigureEvent::Interrupted(m) => Some(m.clone()),
        ConfigureEvent::Exit { code: _, message } => Some(message.clone()),
        ConfigureEvent::Raised(m) => Some(m.clone()),
    }
}

fn joint(prefix: &str, text: &str) -> (r: String)
    ensures
        r@ == prefix@ + text@,
{
    let mut r: String = prefix.to_owned();
    r.append(text);
    r
}

fn usage_line(rendered: &str) -> (r: String)
    ensures
        r@ == "ERROR: "@ + usage_text(rendered@),
{
    let text = usage_message(rendered);
    joint("ERROR: ", text.as_str())
}

fn exit_marker(code: i32) -> (r: String)
    ensures
        r@ == "\x00EXIT\x00"@ + code_of(code as int),
{
    let digits = code_text(code);
    joint("\x00EXIT\x00", digits.as_str())
}

fn initial_failed(e: &ConfigureEvent) -> (r: ConfigureStep)
    ensures
        r@ == initial_failure(*e),
{
    let mut r = go(ConfigureAction::Fail);
    r.failure = Some("\x00USAGE_ERROR\x00".to_owned());
    r.stderr = match e {
        ConfigureEvent::UsageError(m) => Some(usage_line(m.as_str())),
        _ => rendered(e),
    };
    r
}

fn configure_failed(e: &ConfigureEvent) -> (r: ConfigureStep)
    requires
        rendering(*e) is Some,
    ensures
        r@ == configure_failure(*e),
{
    let mut r = go(ConfigureAction::InstallWarnings { failed: true });
    match e {
        ConfigureEvent::UsageError(m) => {
            r.failure = Some("\x00USAGE_ERROR\x00".to_owned());
            r.stderr = Some(usage_line(m.as_str()));
        },
        ConfigureEvent::Exit { code, message } => {
            r.failure = Some(exit_marker(*code));
            r.stderr = Some(joint("Exit: ", message.as_str()));
        },
        _ => {
            if let Some(m) = rendered(e) {
                r.failure = Some(joint("\x00INTERNAL_STDERR\x00", m.as_str()));
            }
        },
    }
    r
}

fn sessionstart_failed(e: &ConfigureEvent) -> (r: ConfigureStep)
    requires
        rendering(*e) is Some,
    ensures
        r@ == sessionstart_failure(*e),
{
    let mut r = go(ConfigureAction::Fail);
    match e {
        ConfigureEvent::Interrupted(_) => {
            r.failure = Some("\x00KEYBOARD_INTERRUPT\x00".to_owned());
        },
        ConfigureEvent::Exit { code, message } => {
            r.failure = Some(exit_marker(*code));
            r.stderr = Some(joint("Exit: ", message.as_str()));
            r.banner = Some(joint("Exit: ", message.as_str()));
        },
        _ => {
            if let Some(m) = rendered(e) {
                r.failure = Some(joint("\x00INTERNAL\x00", m.as_str()));
            }
        },
    }
    r
}

/// What follows on what came of an action.
pub fn next_configure(help: bool, markers: bool, action: ConfigureAction, e: &ConfigureEvent) -> (r:
    ConfigureStep)
    ensures
        r@ == configure_step(help, markers, action, *e),
{
    let message = rendered(e);
    let raised = message.is_some();
    let headed = if markers {
        ConfigureAction::Markers
    } else {
        ConfigureAction::Collect
    };
    match action {
        ConfigureAction::LoadInitialConftests => if raised {
            initial_failed(e)
        } else {
            go(ConfigureAction::SuspendWarnings)
        },
        ConfigureAction::SuspendWarnings => go(ConfigureAction::Configure),
        ConfigureAction::Configure => if raised {
            configure_failed(e)
        } else {
            go(ConfigureAction::InstallWarnings { failed: false })
        },
        ConfigureAction::InstallWarnings { failed } => if failed {
            go(ConfigureAction::Fail)
        } else {
            go(ConfigureAction::RegisterInstanceFixtures)
        },
        ConfigureAction::RegisterInstanceFixtures => {
            let mut r = if help {
                go(ConfigureAction::ShowHelp)
            } else {
                go(ConfigureAction::FindReporter)
            };
            r.error = message;
            r
        },
        ConfigureAction::ShowHelp => go(ConfigureAction::Shown),
        ConfigureAction::FindReporter => {
            let replaced = match e {
                ConfigureEvent::Reporter(b) => *b,
                _ => false,
            };
            go(ConfigureAction::SessionStart { replaced })
        },
        ConfigureAction::SessionStart { replaced } => if raised {
            sessionstart_failed(e)
        } else if replaced {
            go(ConfigureAction::ReporterSessionStart)
        } else {
            go(ConfigureAction::Header)
        },
        ConfigureAction::ReporterSessionStart => go(headed),
        ConfigureAction::Header => go(ConfigureAction::ReportHeader),
        ConfigureAction::ReportHeader => {
            let mut r = go(headed);
            r.error = message;
            r
        },
        ConfigureAction::Markers => {
            let mut r = go(ConfigureAction::Shown);
            r.error = message;
            r
        },
        ConfigureAction::Collect => go(ConfigureAction::Collect),
        ConfigureAction::Shown => go(ConfigureAction::Shown),
        ConfigureAction::Fail => go(ConfigureAction::Fail),
    }
}

// ---------------------------------------------------------------------------
// Laws
// ---------------------------------------------------------------------------

/// How far an action lies from the end.
pub open spec fn steps_left(a: ConfigureAction) -> int {
    match a {
        ConfigureAction::LoadInitialConftests => 10,
        ConfigureAction::SuspendWarnings => 9,
        ConfigureAction::Configure => 8,
        ConfigureAction::InstallWarnings { failed } => 7,
        ConfigureAction::RegisterInstanceFixtures => 6,
        ConfigureAction::ShowHelp => 1,
        ConfigureAction::FindReporter => 5,
        ConfigureAction::SessionStart { replaced } => 4,
        ConfigureAction::ReporterSessionStart => 2,
        ConfigureAction::Header => 3,
        ConfigureAction::ReportHeader => 2,
        ConfigureAction::Markers => 1,
        ConfigureAction::Collect => 0,
        ConfigureAction::Shown => 0,
        ConfigureAction::Fail => 0,
    }
}

/// Warnings are captured again whatever `pytest_configure` did.
pub proof fn warnings_are_captured_again(help: bool, markers: bool, e: ConfigureEvent)
    ensures
        configure_step(help, markers, ConfigureAction::Configure, e).action is InstallWarnings,
{
}

/// `--help` never reaches collection, and neither does `--markers`.
pub proof fn listings_do_not_collect(
    help: bool,
    markers: bool,
    action: ConfigureAction,
    e: ConfigureEvent,
)
    requires
        help || markers,
        action != ConfigureAction::Collect,
        help ==> action !is FindReporter && action !is SessionStart && action
            != ConfigureAction::ReporterSessionStart && action != ConfigureAction::Header && action
            != ConfigureAction::ReportHeader,
    ensures
        ({
            let next = configure_step(help, markers, action, e).action;
            &&& next != ConfigureAction::Collect
            &&& help ==> next !is FindReporter && next !is SessionStart && next
                != ConfigureAction::ReporterSessionStart && next != ConfigureAction::Header && next
                != ConfigureAction::ReportHeader
        }),
{
}

/// A hook that asks to end the session gets the exit code that it asks for.
pub proof fn exit_code_arrives(
    help: bool,
    markers: bool,
    action: ConfigureAction,
    code: i32,
    message: String,
    banner: Option<Seq<char>>,
)
    requires
        action == ConfigureAction::Configure || action is SessionStart,
    ensures
        configure_step(help, markers, action, ConfigureEvent::Exit { code, message }).failure matches Some(
            text,
        ) && failure_ending(text, banner).code == code,
{
    let text = "\x00EXIT\x00"@ + code_of(code as int);
    code_round_trip(code);
    reveal_strlit("\x00INTERNAL_DONE\x00");
    reveal_strlit("\x00INTERNAL\x00");
    reveal_strlit("\x00INTERNAL_STDERR\x00");
    reveal_strlit("\x00KEYBOARD_INTERRUPT\x00");
    reveal_strlit("\x00CONFTEST_IMPORT_ERROR\x00");
    reveal_strlit("\x00USAGE_ERROR\x00");
    reveal_strlit("\x00EXIT\x00");
    assert(text[1] == 'E');
    assert("\x00INTERNAL_DONE\x00"@[1] == 'I');
    assert("\x00INTERNAL\x00"@[1] == 'I');
    assert("\x00INTERNAL_STDERR\x00"@[1] == 'I');
    assert("\x00KEYBOARD_INTERRUPT\x00"@[1] == 'K');
    assert("\x00CONFTEST_IMPORT_ERROR\x00"@[1] == 'C');
    assert("\x00USAGE_ERROR\x00"@[1] == 'U');
    assert("\x00EXIT\x00"@.is_prefix_of(text));
    assert(text.skip("\x00EXIT\x00"@.len() as int) =~= code_of(code as int));
    assert(after_marker(text, "\x00EXIT\x00"@) == Some(code_of(code as int)));
}

/// An exception that nobody expected in `pytest_configure` or
/// `pytest_sessionstart` is an internal error: its lines are shown, on stderr
/// for the one and on stdout for the other.
pub proof fn unexpected_exceptions_are_internal(
    help: bool,
    markers: bool,
    action: ConfigureAction,
    rendered: String,
    banner: Option<Seq<char>>,
)
    requires
        action == ConfigureAction::Configure || action is SessionStart,
    ensures
        ({
            let shown = prefixed("INTERNALERROR> "@, lines_of(rendered@));
            let step = configure_step(help, markers, action, ConfigureEvent::Raised(rendered));
            let ending = failure_ending(step.failure->Some_0, banner);
            &&& step.failure is Some
            &&& ending.code == INTERNAL_ERROR
            &&& action is SessionStart ==> ending.stdout == shown && ending.stderr.len() == 0
            &&& action == ConfigureAction::Configure ==> ending.stderr == shown
                && ending.stdout.len() == 0
        }),
{
    reveal_strlit("\x00INTERNAL_DONE\x00");
    reveal_strlit("\x00INTERNAL\x00");
    reveal_strlit("\x00INTERNAL_STDERR\x00");
    assert("\x00INTERNAL_DONE\x00"@[9] == '_' && "\x00INTERNAL_DONE\x00"@[10] == 'D');
    assert("\x00INTERNAL\x00"@[9] == '\x00');
    assert("\x00INTERNAL_STDERR\x00"@[9] == '_' && "\x00INTERNAL_STDERR\x00"@[10] == 'S');
    if action is SessionStart {
        let text = "\x00INTERNAL\x00"@ + rendered@;
        assert(text[9] == '\x00');
        assert(text.skip("\x00INTERNAL\x00"@.len() as int) =~= rendered@);
    } else {
        let text = "\x00INTERNAL_STDERR\x00"@ + rendered@;
        assert(text[9] == '_' && text[10] == 'S');
        assert(text.skip("\x00INTERNAL_STDERR\x00"@.len() as int) =~= rendered@);
    }
}

/// Every step brings the end nearer.
pub proof fn configure_ends(
    help: bool,
    markers: bool,
    action: ConfigureAction,
    e: ConfigureEvent,
)
    requires
        action != ConfigureAction::Collect,
        action != ConfigureAction::Shown,
        action != ConfigureAction::Fail,
    ensures
        0 <= steps_left(configure_step(help, markers, action, e).action) < steps_left(action),
{
}

/// The order of setting up a session, where nothing goes wrong: the initial
/// conftests, the plugins with warnings suspended, the fixtures of plugin
/// instances; `--help` then shows its text and is done. Otherwise a reporter is
/// looked for and the session starts; without a replacement the header is shown.
/// `--markers` shows the markers and is done; all else is collected.
pub proof fn set_up_goes_in_order(help: bool, markers: bool, replaced: bool)
    ensures
        ({
            let after = |a: ConfigureAction|
                configure_step(help, markers, a, ConfigureEvent::Done).action;
            let last = if markers {
                ConfigureAction::Markers
            } else {
                ConfigureAction::Collect
            };
            &&& after(ConfigureAction::LoadInitialConftests) == ConfigureAction::SuspendWarnings
            &&& after(ConfigureAction::SuspendWarnings) == ConfigureAction::Configure
            &&& after(ConfigureAction::Configure) == ConfigureAction::InstallWarnings {
                failed: false,
            }
            &&& after(ConfigureAction::InstallWarnings { failed: false })
                == ConfigureAction::RegisterInstanceFixtures
            &&& after(ConfigureAction::InstallWarnings { failed: true }) == ConfigureAction::Fail
            &&& help ==> after(ConfigureAction::RegisterInstanceFixtures)
                == ConfigureAction::ShowHelp
            &&& !help ==> after(ConfigureAction::RegisterInstanceFixtures)
                == ConfigureAction::FindReporter
            &&& after(ConfigureAction::ShowHelp) == ConfigureAction::Shown
            &&& configure_step(
                help,
                markers,
                ConfigureAction::FindReporter,
                ConfigureEvent::Reporter(replaced),
            ).action == ConfigureAction::SessionStart { replaced }
            &&& after(ConfigureAction::SessionStart { replaced: true })
                == ConfigureAction::ReporterSessionStart
            &&& after(ConfigureAction::SessionStart { replaced: false }) == ConfigureAction::Header
            &&& after(ConfigureAction::Header) == ConfigureAction::ReportHeader
            &&& after(ConfigureAction::ReportHeader) == last
            &&& after(ConfigureAction::ReporterSessionStart) == last
            &&& after(ConfigureAction::Markers) == ConfigureAction::Shown
        }),
        forall|a: ConfigureAction| {
            let step = #[trigger] configure_step(help, markers, a, ConfigureEvent::Done);
            step.failure is None && step.stderr is None && step.error is None && step.banner is None
        },
{
}

/// What an exception does while a session is set up. In the initial conftests any
/// of them is a usage error, told on the error stream. In the plugins a usage
/// error is told as one, an exit ends the session with its code and message, and
/// the rest is internal; warnings are captured again in each case. At the start of
/// the session an interruption counts as one, an exit is announced by a banner,
/// too, and the rest is internal. Elsewhere it is only told.
pub proof fn set_up_fails_with_reasons(help: bool, markers: bool, replaced: bool, m: String, c: i32)
    ensures
        ({
            let step = |a: ConfigureAction, e: ConfigureEvent| configure_step(help, markers, a, e);
            let usage = ConfigureEvent::UsageError(m);
            let exit = ConfigureEvent::Exit { code: c, message: m };
            let raised = ConfigureEvent::Raised(m);
            let start = ConfigureAction::SessionStart { replaced };
            let code = "\x00EXIT\x00"@ + code_of(c as int);
            &&& step(ConfigureAction::LoadInitialConftests, usage).failure == Some(
                "\x00USAGE_ERROR\x00"@,
            )
            &&& step(ConfigureAction::LoadInitialConftests, usage).stderr == Some(
                "ERROR: "@ + usage_text(m@),
            )
            &&& step(ConfigureAction::LoadInitialConftests, raised).failure == Some(
                "\x00USAGE_ERROR\x00"@,
            )
            &&& step(ConfigureAction::LoadInitialConftests, raised).stderr == Some(m@)
            &&& step(ConfigureAction::LoadInitialConftests, raised).action == ConfigureAction::Fail
            &&& step(ConfigureAction::Configure, usage).failure == Some("\x00USAGE_ERROR\x00"@)
            &&& step(ConfigureAction::Configure, usage).stderr == Some("ERROR: "@ + usage_text(m@))
            &&& step(ConfigureAction::Configure, exit).failure == Some(code)
            &&& step(ConfigureAction::Configure, exit).stderr == Some("Exit: "@ + m@)
            &&& step(ConfigureAction::Configure, exit).banner is None
            &&& step(ConfigureAction::Configure, raised).failure == Some(
                "\x00INTERNAL_STDERR\x00"@ + m@,
            )
            &&& step(ConfigureAction::Configure, raised).action
                == ConfigureAction::InstallWarnings { failed: true }
            &&& step(start, ConfigureEvent::Interrupted(m)).failure == Some(
                "\x00KEYBOARD_INTERRUPT\x00"@,
            )
            &&& step(start, exit).failure == Some(code)
            &&& step(start, exit).stderr == Some("Exit: "@ + m@)
            &&& step(start, exit).banner == Some("Exit: "@ + m@)
            &&& step(start, raised).failure == Some("\x00INTERNAL\x00"@ + m@)
            &&& step(start, raised).action == ConfigureAction::Fail
            &&& step(ConfigureAction::RegisterInstanceFixtures, raised).error == Some(m@)
            &&& step(ConfigureAction::RegisterInstanceFixtures, raised).failure is None
            &&& step(ConfigureAction::ReportHeader, raised).error == Some(m@)
            &&& step(ConfigureAction::ReportHeader, raised).failure is None
            &&& step(ConfigureAction::Markers, raised).error == Some(m@)
            &&& step(ConfigureAction::Markers, raised).failure is None
        }),
{
}

/// The text of a usage error is what its last line says after the name of the
/// exception, and else all of it, trimmed.
pub proof fn usage_errors_are_read(rendered: Seq<char>, text: Seq<char>)
    ensures
        lines_of(rendered).len() > 0 && lines_of(rendered).last() == "pytest.UsageError: "@ + text
            ==> usage_text(rendered) == text,
        lines_of(rendered).len() == 0 ==> usage_text(rendered) == trimmed(rendered),
        lines_of(rendered).len() > 0 && !"pytest.UsageError: "@.is_prefix_of(
            lines_of(rendered).last(),
        ) ==> usage_text(rendered) == trimmed(rendered),
{
    let prefix = "pytest.UsageError: "@;
    if lines_of(rendered).len() > 0 && lines_of(rendered).last() == prefix + text {
        let last = lines_of(rendered).last();
        assert(prefix =~= last.subrange(0, prefix.len() as int));
        assert(last.skip(prefix.len() as int) =~= text);
    }
}

} // verus!
