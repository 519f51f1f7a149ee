//! The phases of collection as a machine: the application performs an action
//! and reports what came of it.

use vstd::prelude::*;

use crate::collect::configure::{usage_message, usage_text};
use crate::item::TestItem;
use crate::paths::same_path;
use crate::text::{opt_text, texts, texts_push};

verus! {

/// What the application does next.
#[derive(Debug, Clone, Copy, PartialEq, Eq, Structural)]
pub enum CollectAction {
    /// Find out where collection starts, and which files there are.
    ResolvePaths,
    /// Load the plugins of the command line and the installed ones.
    LoadPlugins,
    /// Tell native plugins that these are loaded.
    PluginsRegistered,
    /// Fire the `pytest_addoption` hooks of these plugins.
    AddOptions,
    /// Resolve the arguments that they know.
    EarlyArguments,
    /// Fire `pytest_load_initial_conftests`.
    LoadInitialConftests,
    /// Find and load the conftests, and check the configuration.
    LoadConfig,
    /// Show the help text without its footer.
    ShowMinimalHelp,
    /// Attach the log handlers of the session.
    ArmLogging,
    /// Fire the configure hooks and print the header.
    Configure,
    /// Leave out what conftests ignore.
    ApplyIgnores,
    /// Warnings belong to collection from here on.
    BeginPhase,
    CollectFiles,
    /// Collect doctests of other files, and what plugins collect.
    CollectExtra,
    /// Look which of the files that no collector of files took are left.
    CheckLeftOver,
    /// Check the scopes of dynamic fixtures.
    ValidateScopes,
    FinalizeItems,
    /// Warnings do not belong to collection any more.
    EndPhase { failed: bool },
    /// Look whether a plugin has a `pytest_cmdline_main` hook.
    FindCmdlineMain,
    /// Keep what was collected for that hook.
    RecordCollection,
    /// Capture output, for that hook.
    ResumeCapture,
    /// Fire the hook; `installed` where output was captured before.
    CmdlineMain { installed: bool },
    /// Stop capturing output again.
    SuspendCapture { failed: bool },
    /// Collection is over.
    Finish,
    /// Collection fails as a whole.
    Fail,
}

/// What came of an action.
pub enum CollectEvent {
    Done,
    /// It returned an error, or raised an exception, rendered.
    Failed(String),
    /// It raised a usage error, rendered.
    UsageError(String),
    /// All was shown: there is nothing to collect.
    Shown,
    /// Files that nothing collected.
    LeftOver(Vec<String>),
    /// Whether what was looked for is there.
    Found(bool),
    /// A plugin claimed the run, with this exit code.
    Claimed(i32),
}

/// The options that decide the course of collection.
pub struct CollectOptions {
    /// `--help`.
    pub help: bool,
    /// Arguments that name no file or directory.
    pub not_found: Vec<String>,
}

/// What follows on an event.
pub struct CollectStep {
    pub action: CollectAction,
    /// The message with which collection is to fail.
    pub failure: Option<String>,
    /// Lines for stderr.
    pub stderr: Vec<String>,
    /// A collection error of the root directory.
    pub error: Option<String>,
    /// The exit code of a plugin that claimed the run.
    pub claimed: Option<i32>,
}

/// A step as a mathematical value.
pub struct CollectStepView {
    pub action: CollectAction,
    pub failure: Option<Seq<char>>,
    pub stderr: Seq<Seq<char>>,
    pub error: Option<Seq<char>>,
    pub claimed: Option<i32>,
}

impl View for CollectStep {
    type V = CollectStepView;

    open spec fn view(&self) -> CollectStepView {
        CollectStepView {
            action: self.action,
            failure: opt_text(self.failure),
            stderr: texts(self.stderr@),
            error: opt_text(self.error),
            claimed: self.claimed,
        }
    }
}

/// The options that decide whether the controller of a distributed run leaves
/// the import of test modules to its workers.
#[derive(Debug, Clone, Copy, PartialEq, Eq, Structural)]
pub struct ImportOptions {
    /// `-n` was given, and not as "0".
    pub numbered: bool,
    /// `-d`.
    pub dist_load: bool,
    /// `--tx` was given.
    pub has_tx: bool,
    pub collect_only: bool,
    pub fixtures: bool,
    pub fixtures_per_test: bool,
}

// ---------------------------------------------------------------------------
// Model
// ---------------------------------------------------------------------------

/// A step to `action`, with nothing to say.
pub open spec fn leads_to(action: CollectAction) -> CollectStepView {
    CollectStepView { action, failure: None, stderr: seq![], error: None, claimed: None }
}

/// A step to `action`, with the message with which collection is to fail.
pub open spec fn failing(action: CollectAction, message: Seq<char>) -> CollectStepView {
    CollectStepView { failure: Some(message), ..leads_to(action) }
}

/// The message with which an action failed.
pub open spec fn failed_text(e: CollectEvent) -> Option<Seq<char>> {
    match e {
        CollectEvent::Failed(m) => Some(m@),
        CollectEvent::UsageError(m) => Some(m@),
        _ => None,
    }
}

/// Failure ends collection, else it goes on.
pub open spec fn fail_or(e: CollectEvent, action: CollectAction) -> CollectStepView {
    match failed_text(e) {
        Some(m) => failing(CollectAction::Fail, m),
        None => leads_to(action),
    }
}

/// Failure is a collection error, and collection goes on.
pub open spec fn note_and(e: CollectEvent, action: CollectAction) -> CollectStepView {
    CollectStepView { error: failed_text(e), ..leads_to(action) }
}

/// Failure in the middle of collection; its phase is ended first.
pub open spec fn end_or(e: CollectEvent, action: CollectAction) -> CollectStepView {
    match failed_text(e) {
        Some(m) => failing(CollectAction::EndPhase { failed: true }, m),
        None => leads_to(action),
    }
}

/// What is said of arguments that name nothing.
pub open spec fn not_found_lines(args: Seq<Seq<char>>) -> Seq<Seq<char>> {
    Seq::new(args.len(), |i: int| "ERROR: file or directory not found: "@ + args[i])
}

/// What is said of the first `n` files that nothing collected.
pub open spec fn left_over_lines(files: Seq<Seq<char>>, n: int) -> Seq<Seq<char>>
    decreases n,
{
    if n <= 0 {
        seq![]
    } else {
        left_over_lines(files, n - 1) + seq![
            "ERROR: not found: "@ + files[n - 1],
            "(no match in any of [<Session ''>])"@,
            ""@,
        ]
    }
}

/// What follows on the configure hooks: arguments that name nothing are
/// reported now that these have fired.
pub open spec fn after_configure(o: CollectOptions, e: CollectEvent) -> CollectStepView {
    match e {
        CollectEvent::Shown => leads_to(CollectAction::Finish),
        _ => match failed_text(e) {
            Some(m) => failing(CollectAction::Fail, m),
            None => if o.not_found@.len() > 0 {
                CollectStepView {
                    stderr: not_found_lines(texts(o.not_found@)),
                    ..failing(CollectAction::Fail, "\x00USAGE_ERROR\x00"@)
                }
            } else {
                leads_to(CollectAction::ApplyIgnores)
            },
        },
    }
}

/// What follows on `pytest_load_initial_conftests`.
pub open spec fn after_initial(e: CollectEvent) -> CollectStepView {
    let failed = failing(CollectAction::Fail, "\x00USAGE_ERROR\x00"@);
    match e {
        CollectEvent::UsageError(m) => CollectStepView {
            stderr: seq!["ERROR: "@ + usage_text(m@)],
            ..failed
        },
        CollectEvent::Failed(m) => CollectStepView { stderr: seq![m@], ..failed },
        _ => leads_to(CollectAction::LoadConfig),
    }
}

/// What follows on `pytest_cmdline_main`: where no plugin claims the run,
/// output is captured just as it was before.
pub open spec fn after_main(installed: bool, e: CollectEvent) -> CollectStepView {
    match e {
        CollectEvent::Claimed(code) => CollectStepView {
            claimed: Some(code),
            ..leads_to(CollectAction::Finish)
        },
        _ => {
            let failed = failed_text(e) is Some;
            let action = if !installed {
                CollectAction::SuspendCapture { failed }
            } else if failed {
                CollectAction::Fail
            } else {
                CollectAction::Finish
            };
            CollectStepView { failure: failed_text(e), ..leads_to(action) }
        },
    }
}

/// What follows on what came of an action.
pub open spec fn collect_step(
    o: CollectOptions,
    action: CollectAction,
    e: CollectEvent,
) -> CollectStepView {
    match action {
        CollectAction::ResolvePaths => fail_or(e, CollectAction::LoadPlugins),
        CollectAction::LoadPlugins => fail_or(e, CollectAction::PluginsRegistered),
        CollectAction::PluginsRegistered => fail_or(e, CollectAction::AddOptions),
        CollectAction::AddOptions => note_and(e, CollectAction::EarlyArguments),
        CollectAction::EarlyArguments => note_and(e, CollectAction::LoadInitialConftests),
        CollectAction::LoadInitialConftests => after_initial(e),
        CollectAction::LoadConfig => match failed_text(e) {
            Some(m) => failing(
                if o.help {
                    CollectAction::ShowMinimalHelp
                } else {
                    CollectAction::Fail
                },
                m,
            ),
            None => leads_to(CollectAction::ArmLogging),
        },
        CollectAction::ShowMinimalHelp => leads_to(CollectAction::Fail),
        CollectAction::ArmLogging => leads_to(CollectAction::Configure),
        CollectAction::Configure => after_configure(o, e),
        CollectAction::ApplyIgnores => leads_to(CollectAction::BeginPhase),
        CollectAction::BeginPhase => leads_to(CollectAction::CollectFiles),
        CollectAction::CollectFiles => end_or(e, CollectAction::CollectExtra),
        CollectAction::CollectExtra => end_or(e, CollectAction::CheckLeftOver),
        CollectAction::CheckLeftOver => match e {
            CollectEvent::LeftOver(files) => if files@.len() > 0 {
                CollectStepView {
                    stderr: left_over_lines(texts(files@), files@.len() as int),
                    ..failing(CollectAction::EndPhase { failed: true }, "\x00USAGE_ERROR\x00"@)
                }
            } else {
                leads_to(CollectAction::ValidateScopes)
            },
            _ => leads_to(CollectAction::ValidateScopes),
        },
        CollectAction::ValidateScopes => note_and(e, CollectAction::FinalizeItems),
        CollectAction::FinalizeItems => end_or(e, CollectAction::EndPhase { failed: false }),
        CollectAction::EndPhase { failed } => leads_to(
            if failed {
                CollectAction::Fail
            } else {
                CollectAction::FindCmdlineMain
            },
        ),
        CollectAction::FindCmdlineMain => leads_to(
            if e == CollectEvent::Found(true) {
                CollectAction::RecordCollection
            } else {
                CollectAction::Finish
            },
        ),
        CollectAction::RecordCollection => fail_or(e, CollectAction::ResumeCapture),
        CollectAction::ResumeCapture => leads_to(
            CollectAction::CmdlineMain { installed: e == CollectEvent::Found(true) },
        ),
        CollectAction::CmdlineMain { installed } => after_main(installed, e),
        CollectAction::SuspendCapture { failed } => leads_to(
            if failed {
                CollectAction::Fail
            } else {
                CollectAction::Finish
            },
        ),
        CollectAction::Finish => leads_to(CollectAction::Finish),
        CollectAction::Fail => leads_to(CollectAction::Fail),
    }
}

/// The controller leaves the import of test modules to its workers.
pub open spec fn leaves_imports(o: ImportOptions) -> bool {
    &&& o.numbered || o.dist_load || o.has_tx
    &&& !o.collect_only
    &&& !o.fixtures
    &&& !o.fixtures_per_test
}

/// Some item is in the file.
pub open spec fn has_item(items: Seq<TestItem>, file: Seq<Seq<char>>) -> bool {
    exists|i: int| 0 <= i < items.len() && texts((#[trigger] items[i]).path@) == file
}

// ---------------------------------------------------------------------------
// Executable functions
// ---------------------------------------------------------------------------

fn go(action: CollectAction) -> (r: CollectStep)
    ensures
        r@ == leads_to(action),
        r.stderr@.len() == 0,
{
    let r = CollectStep {
        action,
        failure: None,
        stderr: Vec::new(),
        error: None,
        claimed: None,
    };
    assert(texts(r.stderr@) =~= seq![]);
    r
}

fn failure_of(e: &CollectEvent) -> (r: Option<String>)
    ensures
        opt_text(r) == failed_text(*e),
{
    match e {
        CollectEvent::Failed(m) => Some(m.clone()),
        CollectEvent::UsageError(m) => Some(m.clone()),
        _ => None,
    }
}

fn fail_or_go(e: &CollectEvent, action: CollectAction) -> (r: CollectStep)
    ensures
        r@ == fail_or(*e, action),
{
    match failure_of(e) {
        Some(m) => {
            let mut r = go(CollectAction::Fail);
            r.failure = Some(m);
            r
        },
        None => go(action),
    }
}

fn note_and_go(e: &CollectEvent, action: CollectAction) -> (r: CollectStep)
    ensures
        r@ == note_and(*e, action),
{
    let mut r = go(action);
    r.error = failure_of(e);
    r
}

fn end_or_go(e: &CollectEvent, action: CollectAction) -> (r: CollectStep)
    ensures
        r@ == end_or(*e, action),
{
    match failure_of(e) {
        Some(m) => {
            let mut r = go(CollectAction::EndPhase { failed: true });
            r.failure = Some(m);
            r
        },
        None => go(action),
    }
}

fn usage_end(action: CollectAction) -> (r: CollectStep)
    ensures
        r@ == failing(action, "\x00USAGE_ERROR\x00"@),
        r.stderr@.len() == 0,
{
    let mut r = go(action);
    r.failure = Some("\x00USAGE_ERROR\x00".to_owned());
    r
}

fn initial_done(e: &CollectEvent) -> (r: CollectStep)
    ensures
        r@ == after_initial(*e),
{
    let line: String = match e {
        CollectEvent::UsageError(m) => {
            let text = usage_message(m.as_str());
            let mut line: String = "ERROR: ".to_owned();
            line.append(text.as_str());
            line
        },
        CollectEvent::Failed(m) => m.clone(),
        _ => {
            return go(CollectAction::LoadConfig);
        },
    };
    let mut r = usage_end(CollectAction::Fail);
    proof {
        texts_push(r.stderr@, line);
    }
    r.stderr.push(line);
    assert(texts(r.stderr@) =~= seq![line@]);
    r
}

/// What is said of arguments that name nothing.
fn report_not_found(args: &[String]) -> (r: Vec<String>)
    ensures
        texts(r@) == not_found_lines(texts(args@)),
{
    let n: usize = args.len();
    let mut r: Vec<String> = Vec::new();
    let mut i: usize = 0;
    while i < n
        invariant
            n == args@.len(),
            i <= n,
            r@.len() == i,
            forall|k: int|
                0 <= k < i ==> #[trigger] r@[k]@ == "ERROR: file or directory not found: "@ + texts(
                    args@,
                )[k],
        decreases n - i,
    {
        assert(texts(args@)[i as int] == args@[i as int]@);
        let mut line: String = "ERROR: file or directory not found: ".to_owned();
        line.append(args[i].as_str());
        r.push(line);
        i += 1;
    }
    assert(texts(r@) =~= not_found_lines(texts(args@)));
    r
}

/// What is said of files that nothing collected.
fn report_left_over(files: &[String]) -> (r: Vec<String>)
    ensures
        texts(r@) == left_over_lines(texts(files@), files@.len() as int),
{
    let n: usize = files.len();
    let mut r: Vec<String> = Vec::new();
    assert(texts(r@) =~= seq![]);
    let mut i: usize = 0;
    while i < n
        invariant
            n == files@.len(),
            i <= n,
            texts(r@) == left_over_lines(texts(files@), i as int),
        decreases n - i,
    {
        let ghost before = texts(r@);
        assert(texts(files@)[i as int] == files@[i as int]@);
        let mut line: String = "ERROR: not found: ".to_owned();
        line.append(files[i].as_str());
        let second: String = "(no match in any of [<Session ''>])".to_owned();
        let third: String = "".to_owned();
        r.push(line);
        r.push(second);
        r.push(third);
        assert(texts(r@) =~= before + seq![line@, second@, third@]);
        i += 1;
    }
    r
}

fn configured(o: &CollectOptions, e: &CollectEvent) -> (r: CollectStep)
    ensures
        r@ == after_configure(*o, *e),
{
    if let CollectEvent::Shown = e {
        return go(CollectAction::Finish);
    }
    if failure_of(e).is_none() && o.not_found.len() > 0 {
        let mut r = usage_end(CollectAction::Fail);
        r.stderr = report_not_found(o.not_found.as_slice());
        return r;
    }
    fail_or_go(e, CollectAction::ApplyIgnores)
}

fn main_fired(installed: bool, e: &CollectEvent) -> (r: CollectStep)
    ensures
        r@ == after_main(installed, *e),
{
    if let CollectEvent::Claimed(code) = e {
        let mut r = go(CollectAction::Finish);
        r.claimed = Some(*code);
        return r;
    }
    let failure = failure_of(e);
    let failed = failure.is_some();
    let action = if !installed {
        CollectAction::SuspendCapture { failed }
    } else if failed {
        CollectAction::Fail
    } else {
        CollectAction::Finish
    };
    let mut r = go(action);
    r.failure = failure;
    r
}

fn left_over_checked(e: &CollectEvent) -> (r: CollectStep)
    ensures
        r@ == (match *e {
            CollectEvent::LeftOver(files) => if files@.len() > 0 {
                CollectStepView {
                    stderr: left_over_lines(texts(files@), files@.len() as int),
                    ..failing(CollectAction::EndPhase { failed: true }, "\x00USAGE_ERROR\x00"@)
                }
            } else {
                leads_to(CollectAction::ValidateScopes)
            },
            _ => leads_to(CollectAction::ValidateScopes),
        }),
{
    if let CollectEvent::LeftOver(files) = e {
        if files.len() > 0 {
            let mut r = usage_end(CollectAction::EndPhase { failed: true });
            r.stderr = report_left_over(files.as_slice());
            return r;
        }
    }
    go(CollectAction::ValidateScopes)
}

fn config_loaded(o: &CollectOptions, e: &CollectEvent) -> (r: CollectStep)
    ensures
        r@ == (match failed_text(*e) {
            Some(m) => failing(
                if o.help {
                    CollectAction::ShowMinimalHelp
                } else {
                    CollectAction::Fail
                },
                m,
            ),
            None => leads_to(CollectAction::ArmLogging),
        }),
{
    match failure_of(e) {
        Some(m) => {
            let mut r = if o.help {
                go(CollectAction::ShowMinimalHelp)
            } else {
                go(CollectAction::Fail)
            };
            r.failure = Some(m);
            r
        },
        None => go(CollectAction::ArmLogging),
    }
}

/// What follows on what came of an action.
pub fn next_phase(o: &CollectOptions, action: CollectAction, e: &CollectEvent) -> (r: CollectStep)
    ensures
        r@ == collect_step(*o, action, *e),
{
    let found = match e {
        CollectEvent::Found(b) => *b,
        _ => false,
    };
    match action {
        CollectAction::ResolvePaths => fail_or_go(e, CollectAction::LoadPlugins),
        CollectAction::LoadPlugins => fail_or_go(e, CollectAction::PluginsRegistered),
        CollectAction::PluginsRegistered => fail_or_go(e, CollectAction::AddOptions),
        CollectAction::AddOptions => note_and_go(e, CollectAction::EarlyArguments),
        CollectAction::EarlyArguments => note_and_go(e, CollectAction::LoadInitialConftests),
        CollectAction::LoadInitialConftests => initial_done(e),
        CollectAction::LoadConfig => config_loaded(o, e),
        CollectAction::ShowMinimalHelp => go(CollectAction::Fail),
        CollectAction::ArmLogging => go(CollectAction::Configure),
        CollectAction::Configure => configured(o, e),
        CollectAction::ApplyIgnores => go(CollectAction::BeginPhase),
        CollectAction::BeginPhase => go(CollectAction::CollectFiles),
        CollectAction::CollectFiles => end_or_go(e, CollectAction::CollectExtra),
        CollectAction::CollectExtra => end_or_go(e, CollectAction::CheckLeftOver),
        CollectAction::CheckLeftOver => left_over_checked(e),
        CollectAction::ValidateScopes => note_and_go(e, CollectAction::FinalizeItems),
        CollectAction::FinalizeItems => end_or_go(e, CollectAction::EndPhase { failed: false }),
        CollectAction::EndPhase { failed } => if failed {
            go(CollectAction::Fail)
        } else {
            go(CollectAction::FindCmdlineMain)
        },
        CollectAction::FindCmdlineMain => if found {
            go(CollectAction::RecordCollection)
        } else {
            go(CollectAction::Finish)
        },
        CollectAction::RecordCollection => fail_or_go(e, CollectAction::ResumeCapture),
        CollectAction::ResumeCapture => go(CollectAction::CmdlineMain { installed: found }),
        CollectAction::CmdlineMain { installed } => main_fired(installed, e),
        CollectAction::SuspendCapture { failed } => if failed {
            go(CollectAction::Fail)
        } else {
            go(CollectAction::Finish)
        },
        CollectAction::Finish => go(CollectAction::Finish),
        CollectAction::Fail => go(CollectAction::Fail),
    }
}

/// Whether the controller of a distributed run leaves the import of test
/// modules to its workers.
pub fn skip_module_import(o: &ImportOptions) -> (r: bool)
    ensures
        r == leaves_imports(*o),
{
    (o.numbered || o.dist_load || o.has_tx) && !o.collect_only && !o.fixtures
        && !o.fixtures_per_test
}

/// Whether some item is in the file.
pub fn was_collected(items: &[TestItem], file: &[String]) -> (r: bool)
    ensures
        r == has_item(items@, texts(file@)),
{
    let n: usize = items.len();
    let mut i: usize = 0;
    while i < n
        invariant
            n == items@.len(),
            i <= n,
            forall|k: int| 0 <= k < i ==> texts((#[trigger] items@[k]).path@) != texts(file@),
        decreases n - i,
    {
        if same_path(items[i].path.as_slice(), file) {
            assert(texts(items@[i as int].path@) == texts(file@));
            return true;
        }
        i += 1;
    }
    false
}

// ---------------------------------------------------------------------------
// Laws
// ---------------------------------------------------------------------------

/// How far an action lies from the end.
pub open spec fn phases_left(a: CollectAction) -> int {
    match a {
        CollectAction::ResolvePaths => 23,
        CollectAction::LoadPlugins => 22,
        CollectAction::PluginsRegistered => 21,
        CollectAction::AddOptions => 20,
        CollectAction::EarlyArguments => 19,
        CollectAction::LoadInitialConftests => 18,
        CollectAction::LoadConfig => 17,
        CollectAction::ShowMinimalHelp => 1,
        CollectAction::ArmLogging => 16,
        CollectAction::Configure => 15,
        CollectAction::ApplyIgnores => 14,
        CollectAction::BeginPhase => 13,
        CollectAction::CollectFiles => 12,
        CollectAction::CollectExtra => 11,
        CollectAction::CheckLeftOver => 10,
        CollectAction::ValidateScopes => 9,
        CollectAction::FinalizeItems => 8,
        CollectAction::EndPhase { failed } => 7,
        CollectAction::FindCmdlineMain => 6,
        CollectAction::RecordCollection => 5,
        CollectAction::ResumeCapture => 4,
        CollectAction::CmdlineMain { installed } => 3,
        CollectAction::SuspendCapture { failed } => 2,
        CollectAction::Finish => 0,
        CollectAction::Fail => 0,
    }
}

/// The action belongs to the phase in which warnings are those of collection.
pub open spec fn inside_phase(a: CollectAction) -> bool {
    8 <= phases_left(a) <= 12
}

/// Every step brings the end nearer.
pub proof fn collection_ends(o: CollectOptions, a: CollectAction, e: CollectEvent)
    requires
        a != CollectAction::Finish,
        a != CollectAction::Fail,
    ensures
        0 <= phases_left(collect_step(o, a, e).action) < phases_left(a),
{
}

/// The phase of collection is always ended: no step leads out of it but by its
/// end, whatever failed.
pub proof fn phase_is_always_ended(o: CollectOptions, a: CollectAction, e: CollectEvent)
    requires
        inside_phase(a),
    ensures
        ({
            let next = collect_step(o, a, e).action;
            inside_phase(next) || next is EndPhase
        }),
{
}

/// An argument that names nothing ends the session, but only after the
/// configure hooks have fired: nothing is collected, and no earlier step
/// reports it.
pub proof fn missing_arguments_end_collection(
    o: CollectOptions,
    a: CollectAction,
    e: CollectEvent,
)
    requires
        o.not_found@.len() > 0,
        phases_left(a) >= 15,
    ensures
        phases_left(collect_step(o, a, e).action) >= 15 || phases_left(
            collect_step(o, a, e).action,
        ) <= 1,
        a == CollectAction::Configure && e == CollectEvent::Done ==> collect_step(o, a, e).stderr
            == not_found_lines(texts(o.not_found@)) && collect_step(o, a, e).failure == Some(
            "\x00USAGE_ERROR\x00"@,
        ),
{
}

/// Where no plugin claims the run, output is captured after
/// `pytest_cmdline_main` as it was before.
pub proof fn capture_is_put_back(o: CollectOptions, installed: bool, e: CollectEvent)
    ensures
        e !is Claimed ==> (collect_step(
            o,
            CollectAction::CmdlineMain { installed },
            e,
        ).action is SuspendCapture <==> !installed),
{
}

/// The order of a collection up to its phase, where nothing goes wrong: paths,
/// plugins and their options, conftests, the configuration. What only shows
/// something is done then.
pub proof fn collection_is_prepared_in_order(o: CollectOptions)
    requires
        o.not_found@.len() == 0,
    ensures
        ({
            let after = |a: CollectAction| collect_step(o, a, CollectEvent::Done).action;
            &&& after(CollectAction::ResolvePaths) == CollectAction::LoadPlugins
            &&& after(CollectAction::LoadPlugins) == CollectAction::PluginsRegistered
            &&& after(CollectAction::PluginsRegistered) == CollectAction::AddOptions
            &&& after(CollectAction::AddOptions) == CollectAction::EarlyArguments
            &&& after(CollectAction::EarlyArguments) == CollectAction::LoadInitialConftests
            &&& after(CollectAction::LoadInitialConftests) == CollectAction::LoadConfig
            &&& after(CollectAction::LoadConfig) == CollectAction::ArmLogging
            &&& after(CollectAction::ArmLogging) == CollectAction::Configure
            &&& after(CollectAction::Configure) == CollectAction::ApplyIgnores
            &&& after(CollectAction::ApplyIgnores) == CollectAction::BeginPhase
            &&& after(CollectAction::BeginPhase) == CollectAction::CollectFiles
        }),
        collect_step(o, CollectAction::Configure, CollectEvent::Shown).action
            == CollectAction::Finish,
{
}

/// The order of a collection in its phase, where nothing goes wrong: the files,
/// what other collectors find, the check for what was left over, the scopes and
/// the items, and the end of the phase.
pub proof fn collection_goes_in_order(o: CollectOptions)
    ensures
        ({
            let after = |a: CollectAction| collect_step(o, a, CollectEvent::Done).action;
            &&& after(CollectAction::CollectFiles) == CollectAction::CollectExtra
            &&& after(CollectAction::CollectExtra) == CollectAction::CheckLeftOver
            &&& after(CollectAction::CheckLeftOver) == CollectAction::ValidateScopes
            &&& after(CollectAction::ValidateScopes) == CollectAction::FinalizeItems
            &&& after(CollectAction::FinalizeItems) == (CollectAction::EndPhase { failed: false })
            &&& after((CollectAction::EndPhase { failed: false })) == CollectAction::FindCmdlineMain
            &&& after((CollectAction::EndPhase { failed: true })) == CollectAction::Fail
        }),
        forall|a: CollectAction| {
            let step = #[trigger] collect_step(o, a, CollectEvent::Done);
            (a == CollectAction::Configure && o.not_found@.len() > 0) || step.failure is None
                && step.stderr.len() == 0 && step.error is None && step.claimed is None
        },
{
}

/// After the phase a plugin may take the run over, where there is one: the
/// collection is recorded, the capture resumed for it and, unless it had been so
/// before, suspended again. Such a plugin decides the code.
pub proof fn plugins_may_take_over(o: CollectOptions, found: bool, installed: bool, code: i32)
    ensures
        ({
            let step = |a: CollectAction, e: CollectEvent| collect_step(o, a, e);
            let main = CollectAction::CmdlineMain { installed };
            let claimed = step(main, CollectEvent::Claimed(code));
            &&& step(CollectAction::FindCmdlineMain, CollectEvent::Found(found)).action == (
            if found {
                CollectAction::RecordCollection
            } else {
                CollectAction::Finish
            })
            &&& step(CollectAction::RecordCollection, CollectEvent::Done).action
                == CollectAction::ResumeCapture
            &&& step(CollectAction::ResumeCapture, CollectEvent::Found(installed)).action == main
            &&& step(main, CollectEvent::Done).action == (if installed {
                CollectAction::Finish
            } else {
                (CollectAction::SuspendCapture { failed: false })
            })
            &&& claimed.claimed == Some(code) && claimed.action == CollectAction::Finish
        }),
        collect_step(o, (CollectAction::SuspendCapture { failed: false }), CollectEvent::Done).action
            == CollectAction::Finish,
        collect_step(o, (CollectAction::SuspendCapture { failed: true }), CollectEvent::Done).action
            == CollectAction::Fail,
{
}

/// A failure that ends a collection: before the phase, and in what prepares the
/// taking over, at once; in the phase after its end.
pub proof fn failures_end_the_collection(o: CollectOptions, m: String, installed: bool)
    ensures
        ({
            let step = |a: CollectAction| collect_step(o, a, CollectEvent::Failed(m));
            let ends = |a: CollectAction|
                step(a).action == CollectAction::Fail && step(a).failure == Some(m@);
            let ends_phase = |a: CollectAction|
                step(a).action == (CollectAction::EndPhase { failed: true }) && step(a).failure
                    == Some(m@);
            &&& ends(CollectAction::ResolvePaths)
            &&& ends(CollectAction::LoadPlugins)
            &&& ends(CollectAction::PluginsRegistered)
            &&& ends(CollectAction::Configure)
            &&& ends(CollectAction::RecordCollection)
            &&& ends_phase(CollectAction::CollectFiles)
            &&& ends_phase(CollectAction::CollectExtra)
            &&& ends_phase(CollectAction::FinalizeItems)
            &&& step((CollectAction::CmdlineMain { installed })).failure == Some(m@)
        }),
{
}

/// Failures of other kinds: in adding options, in early arguments and in checking
/// scopes they are only told; in the initial conftests they are usage errors; a
/// failed configuration still shows what help it can.
pub proof fn failures_are_told(o: CollectOptions, m: String)
    ensures
        ({
            let step = |a: CollectAction| collect_step(o, a, CollectEvent::Failed(m));
            let told = |a: CollectAction| step(a).failure is None && step(a).error == Some(m@);
            &&& told(CollectAction::AddOptions)
            &&& told(CollectAction::EarlyArguments)
            &&& told(CollectAction::ValidateScopes)
            &&& step(CollectAction::LoadInitialConftests).failure == Some("\x00USAGE_ERROR\x00"@)
            &&& step(CollectAction::LoadInitialConftests).stderr == seq![m@]
            &&& step(CollectAction::LoadConfig).failure == Some(m@)
            &&& o.help ==> step(CollectAction::LoadConfig).action == CollectAction::ShowMinimalHelp
            &&& !o.help ==> step(CollectAction::LoadConfig).action == CollectAction::Fail
        }),
{
}

/// Each argument that names nothing on the disk, and each file that no collector
/// took, is told of by its name.
pub proof fn what_is_missing_is_named(args: Seq<Seq<char>>, files: Seq<Seq<char>>, i: int, n: int)
    requires
        0 <= i < args.len(),
        0 < n <= files.len(),
    ensures
        not_found_lines(args).len() == args.len(),
        not_found_lines(args)[i] == "ERROR: file or directory not found: "@ + args[i],
        left_over_lines(files, n).len() == 3 * n,
        left_over_lines(files, n)[3 * n - 3] == "ERROR: not found: "@ + files[n - 1],
        left_over_lines(files, n)[3 * n - 2] == "(no match in any of [<Session ''>])"@,
        left_over_lines(files, n)[3 * n - 1].len() == 0,
        forall|k: int|
            0 <= k < 3 * n - 3 ==> #[trigger] left_over_lines(files, n)[k] == left_over_lines(
                files,
                n - 1,
            )[k],
    decreases n,
{
    reveal_strlit("");
    if n > 1 {
        what_is_missing_is_named(args, files, i, n - 1);
    } else {
        assert(left_over_lines(files, 0).len() == 0);
    }
}

/// Modules are left to the workers to import, where there are to be workers and
/// nothing is only listed.
pub proof fn workers_import_themselves(o: ImportOptions)
    ensures
        leaves_imports(o) <==> (o.numbered || o.dist_load || o.has_tx) && !o.collect_only
            && !o.fixtures && !o.fixtures_per_test,
{
}

} // verus!
