//! Loading the conftests and checking the configuration, as a machine: the
//! application performs an action and reports what came of it.

use vstd::prelude::*;

use crate::text::{same, texts, texts_push};

verus! {

/// The options that decide how the configuration is checked.
pub struct ConfigOptions {
    /// The number of conftests to load.
    pub conftests: usize,
    /// `--help`.
    pub help: bool,
    pub is_worker: bool,
    /// `--strict-config`.
    pub strict_config: bool,
    /// The `strict_config` ini option.
    pub strict_config_ini: Option<bool>,
    /// `--strict`.
    pub strict: bool,
    /// The `strict` ini option.
    pub strict_ini: Option<bool>,
    /// Some ini option is overridden on the command line.
    pub has_overrides: bool,
}

/// What the application does next.
#[derive(Debug, Clone, Copy, PartialEq, Eq, Structural)]
pub enum ConfigAction {
    RegisterBuiltinFixtures,
    /// Load a conftest, unless a hook ignores a directory above it.
    LoadConftest(usize),
    /// Look for `pytest_plugins` in conftests that are not at the top.
    ScanPlugins,
    /// Fire the `pytest_addoption` hooks.
    AddOptions,
    /// Resolve the arguments that only plugins know.
    ResolveArguments,
    /// Find the options of the ini file that nobody registered.
    FindUnknownKeys,
    /// Find the overridden options that nobody registered.
    FindUnknownOverrides,
    /// The configuration is in order.
    Finish,
    /// Collection fails as a whole.
    Fail,
}

/// What came of an action.
pub enum ConfigEvent {
    Done,
    /// It raised an exception, rendered.
    Raised(String),
    /// It raised a usage error with this message.
    UsageError(String),
    /// The conftest at this path could not be imported; the exception,
    /// rendered.
    ConftestFailed { shown: String, message: String },
    /// Options that nobody registered.
    Unknown(Vec<String>),
}

/// Where a warning points to.
#[derive(Debug, Clone, Copy, PartialEq, Eq, Structural)]
pub enum WarningPlace {
    /// The conftest.
    Conftest,
    /// The ini file.
    IniFile,
    CommandLine,
}

/// What follows on an event.
pub struct ConfigStep {
    pub action: ConfigAction,
    /// The message with which collection fails.
    pub failure: Option<String>,
    /// A collection error of the root directory.
    pub error: Option<String>,
    /// Warnings to give, all at one place.
    pub warnings: Vec<String>,
    pub place: WarningPlace,
}

/// A step as a mathematical value.
pub struct ConfigStepView {
    pub action: ConfigAction,
    pub failure: Option<Seq<char>>,
    pub error: Option<Seq<char>>,
    pub warnings: Seq<Seq<char>>,
    pub place: WarningPlace,
}

impl View for ConfigStep {
    type V = ConfigStepView;

    open spec fn view(&self) -> ConfigStepView {
        ConfigStepView {
            action: self.action,
            failure: match self.failure {
                Some(s) => Some(s@),
                None => None,
            },
            error: match self.error {
                Some(s) => Some(s@),
                None => None,
            },
            warnings: texts(self.warnings@),
            place: self.place,
        }
    }
}

// ---------------------------------------------------------------------------
// Model
// ---------------------------------------------------------------------------

/// A step to `action`, with nothing to say.
pub open spec fn goes_to(action: ConfigAction) -> ConfigStepView {
    ConfigStepView {
        action,
        failure: None,
        error: None,
        warnings: seq![],
        place: WarningPlace::CommandLine,
    }
}

/// A step to the end, with a message.
pub open spec fn fails_with(message: Seq<char>) -> ConfigStepView {
    ConfigStepView { failure: Some(message), ..goes_to(ConfigAction::Fail) }
}

/// A step to `action`, with warnings.
pub open spec fn warns(
    action: ConfigAction,
    warnings: Seq<Seq<char>>,
    place: WarningPlace,
) -> ConfigStepView {
    ConfigStepView { warnings, place, ..goes_to(action) }
}

/// The conftest `k`, or what follows the last one.
pub open spec fn conftest_or_scan(o: ConfigOptions, k: int) -> ConfigAction {
    if k < o.conftests {
        ConfigAction::LoadConftest(k as usize)
    } else {
        ConfigAction::ScanPlugins
    }
}

/// What is said of an option that nobody registered.
pub open spec fn unknown_text(key: Seq<char>) -> Seq<char> {
    "Unknown config option: "@ + key
}

/// What is said of the options that nobody registered.
pub open spec fn unknown_texts(keys: Seq<Seq<char>>) -> Seq<Seq<char>> {
    Seq::new(keys.len(), |i: int| unknown_text(keys[i]))
}

/// Unknown options are errors.
pub open spec fn config_is_strict(o: ConfigOptions) -> bool {
    ||| o.strict_config
    ||| o.strict_config_ini == Some(true)
    ||| (o.strict_config_ini is None && (o.strict || o.strict_ini == Some(true)))
}

/// What follows when the options of the ini file are in order.
pub open spec fn overrides_or_finish(o: ConfigOptions) -> ConfigAction {
    if o.has_overrides {
        ConfigAction::FindUnknownOverrides
    } else {
        ConfigAction::Finish
    }
}

/// What follows when the arguments are resolved.
pub open spec fn keys_or_finish(o: ConfigOptions) -> ConfigAction {
    if o.is_worker {
        ConfigAction::Finish
    } else {
        ConfigAction::FindUnknownKeys
    }
}

/// The message of an exception, however it was raised.
pub open spec fn raised_text(e: ConfigEvent) -> Option<Seq<char>> {
    match e {
        ConfigEvent::Raised(m) => Some(m@),
        ConfigEvent::UsageError(m) => Some(m@),
        ConfigEvent::ConftestFailed { shown, message } => Some(message@),
        _ => None,
    }
}

/// What follows on what came of an action. `synopsis` stands before the
/// message of a usage error.
pub open spec fn config_step(
    o: ConfigOptions,
    synopsis: Seq<char>,
    action: ConfigAction,
    e: ConfigEvent,
) -> ConfigStepView {
    match action {
        ConfigAction::RegisterBuiltinFixtures => match raised_text(e) {
            Some(m) => fails_with(m),
            None => goes_to(conftest_or_scan(o, 0)),
        },
        ConfigAction::LoadConftest(k) => match e {
            ConfigEvent::ConftestFailed { shown, message } => if o.help {
                warns(
                    conftest_or_scan(o, k + 1),
                    seq!["could not load initial conftests: "@ + shown@],
                    WarningPlace::Conftest,
                )
            } else {
                fails_with("\x00CONFTEST_IMPORT_ERROR\x00"@ + message@)
            },
            _ => goes_to(conftest_or_scan(o, k + 1)),
        },
        ConfigAction::ScanPlugins => goes_to(ConfigAction::AddOptions),
        ConfigAction::AddOptions => ConfigStepView {
            error: raised_text(e),
            ..goes_to(ConfigAction::ResolveArguments)
        },
        ConfigAction::ResolveArguments => match e {
            ConfigEvent::UsageError(m) => fails_with(synopsis + m@),
            _ => match raised_text(e) {
                Some(m) => fails_with(m),
                None => goes_to(keys_or_finish(o)),
            },
        },
        ConfigAction::FindUnknownKeys => match e {
            ConfigEvent::Unknown(keys) => if keys@.len() > 0 && config_is_strict(o) {
                fails_with(unknown_text(keys@[0]@))
            } else {
                warns(
                    overrides_or_finish(o),
                    unknown_texts(texts(keys@)),
                    WarningPlace::IniFile,
                )
            },
            _ => match raised_text(e) {
                Some(m) => fails_with(m),
                None => goes_to(overrides_or_finish(o)),
            },
        },
        ConfigAction::FindUnknownOverrides => match e {
            ConfigEvent::Unknown(keys) => warns(
                ConfigAction::Finish,
                unknown_texts(texts(keys@)),
                WarningPlace::CommandLine,
            ),
            _ => match raised_text(e) {
                Some(m) => fails_with(m),
                None => goes_to(ConfigAction::Finish),
            },
        },
        ConfigAction::Finish => goes_to(ConfigAction::Finish),
        ConfigAction::Fail => goes_to(ConfigAction::Fail),
    }
}

// ---------------------------------------------------------------------------
// Executable functions
// ---------------------------------------------------------------------------

fn go(action: ConfigAction) -> (r: ConfigStep)
    ensures
        r@ == goes_to(action),
{
    let r = ConfigStep {
        action,
        failure: None,
        error: None,
        warnings: Vec::new(),
        place: WarningPlace::CommandLine,
    };
    assert(texts(r.warnings@) =~= seq![]);
    r
}

fn fail(message: String) -> (r: ConfigStep)
    ensures
        r@ == fails_with(message@),
{
    let mut r = go(ConfigAction::Fail);
    r.failure = Some(message);
    r
}

fn conftest_next(o: &ConfigOptions, k: usize) -> (r: ConfigAction)
    ensures
        r == conftest_or_scan(*o, k as int),
{
    if k < o.conftests {
        ConfigAction::LoadConftest(k)
    } else {
        ConfigAction::ScanPlugins
    }
}

fn after_keys(o: &ConfigOptions) -> (r: ConfigAction)
    ensures
        r == overrides_or_finish(*o),
{
    if o.has_overrides {
        ConfigAction::FindUnknownOverrides
    } else {
        ConfigAction::Finish
    }
}

/// Whether unknown options are errors.
pub fn strict_config(o: &ConfigOptions) -> (r: bool)
    ensures
        r == config_is_strict(*o),
{
    if o.strict_config {
        return true;
    }
    match o.strict_config_ini {
        Some(b) => b,
        None => o.strict || match o.strict_ini {
            Some(b) => b,
            None => false,
        },
    }
}

/// What is said of an option that nobody registered.
fn unknown_option(key: &str) -> (r: String)
    ensures
        r@ == unknown_text(key@),
{
    let mut r: String = "Unknown config option: ".to_owned();
    r.append(key);
    r
}

fn warn_unknown(action: ConfigAction, keys: &[String], place: WarningPlace) -> (r: ConfigStep)
    ensures
        r@ == warns(action, unknown_texts(texts(keys@)), place),
{
    let n: usize = keys.len();
    let mut r = go(action);
    r.place = place;
    assert(texts(r.warnings@).len() == 0);
    let mut i: usize = 0;
    while i < n
        invariant
            n == keys@.len(),
            i <= n,
            r.action == action,
            r.place == place,
            r.failure is None,
            r.error is None,
            r.warnings@.len() == i,
            forall|k: int|
                0 <= k < i ==> #[trigger] r.warnings@[k]@ == unknown_text(texts(keys@)[k]),
        decreases n - i,
    {
        assert(texts(keys@)[i as int] == keys@[i as int]@);
        r.warnings.push(unknown_option(keys[i].as_str()));
        i += 1;
    }
    assert(texts(r.warnings@) =~= unknown_texts(texts(keys@)));
    r
}

/// The message of an exception, however it was raised.
fn message_of(e: &ConfigEvent) -> (r: Option<String>)
    ensures
        match r {
            Some(m) => raised_text(*e) == Some(m@),
            None => raised_text(*e) is None,
        },
{
    match e {
        ConfigEvent::Raised(m) => Some(m.clone()),
        ConfigEvent::UsageError(m) => Some(m.clone()),
        ConfigEvent::ConftestFailed { shown: _, message } => Some(message.clone()),
        _ => None,
    }
}

fn fail_or_go(e: &ConfigEvent, action: ConfigAction) -> (r: ConfigStep)
    ensures
        r@ == (match raised_text(*e) {
            Some(m) => fails_with(m),
            None => goes_to(action),
        }),
{
    match message_of(e) {
        Some(m) => fail(m),
        None => go(action),
    }
}

fn conftest_loaded(o: &ConfigOptions, k: usize, e: &ConfigEvent) -> (r: ConfigStep)
    requires
        k < o.conftests,
    ensures
        r@ == config_step(*o, seq![], ConfigAction::LoadConftest(k), *e),
{
    let next = conftest_next(o, k + 1);
    match e {
        ConfigEvent::ConftestFailed { shown, message } => if o.help {
            let mut line: String = "could not load initial conftests: ".to_owned();
            line.append(shown.as_str());
            let mut r = go(next);
            r.place = WarningPlace::Conftest;
            proof {
                texts_push(r.warnings@, line);
            }
            r.warnings.push(line);
            assert(texts(r.warnings@) =~= seq!["could not load initial conftests: "@ + shown@]);
            r
        } else {
            let mut text: String = "\x00CONFTEST_IMPORT_ERROR\x00".to_owned();
            text.append(message.as_str());
            fail(text)
        },
        _ => go(next),
    }
}

/// What follows on what came of an action. `synopsis` stands before the
/// message of a usage error.
pub fn next_config(o: &ConfigOptions, synopsis: &str, action: ConfigAction, e: &ConfigEvent) -> (r:
    ConfigStep)
    requires
        action matches ConfigAction::LoadConftest(k) ==> k < o.conftests,
    ensures
        r@ == config_step(*o, synopsis@, action, *e),
        r.action matches ConfigAction::LoadConftest(k) ==> k < o.conftests,
{
    match action {
        ConfigAction::RegisterBuiltinFixtures => {
            let next = conftest_next(o, 0);
            fail_or_go(e, next)
        },
        ConfigAction::LoadConftest(k) => conftest_loaded(o, k, e),
        ConfigAction::ScanPlugins => go(ConfigAction::AddOptions),
        ConfigAction::AddOptions => {
            let mut r = go(ConfigAction::ResolveArguments);
            r.error = message_of(e);
            r
        },
        ConfigAction::ResolveArguments => match e {
            ConfigEvent::UsageError(m) => {
                let mut text: String = synopsis.to_owned();
                text.append(m.as_str());
                fail(text)
            },
            _ => {
                let next = if o.is_worker {
                    ConfigAction::Finish
                } else {
                    ConfigAction::FindUnknownKeys
                };
                fail_or_go(e, next)
            },
        },
        ConfigAction::FindUnknownKeys => match e {
            ConfigEvent::Unknown(keys) => if keys.len() > 0 && strict_config(o) {
                fail(unknown_option(keys[0].as_str()))
            } else {
                let next = after_keys(o);
                warn_unknown(next, keys.as_slice(), WarningPlace::IniFile)
            },
            _ => {
                let next = after_keys(o);
                fail_or_go(e, next)
            },
        },
        ConfigAction::FindUnknownOverrides => match e {
            ConfigEvent::Unknown(keys) => warn_unknown(
                ConfigAction::Finish,
                keys.as_slice(),
                WarningPlace::CommandLine,
            ),
            _ => fail_or_go(e, ConfigAction::Finish),
        },
        ConfigAction::Finish => go(ConfigAction::Finish),
        ConfigAction::Fail => go(ConfigAction::Fail),
    }
}

/// Whether what a failed conftest wrote goes to stderr.
pub fn goes_to_stderr(title: &str) -> (r: bool)
    ensures
        r == (title@ == "Captured stderr"@),
{
    same(title, "Captured stderr")
}

// ---------------------------------------------------------------------------
// Laws
// ---------------------------------------------------------------------------

/// How far an action lies from the end.
pub open spec fn actions_left(o: ConfigOptions, a: ConfigAction) -> int {
    match a {
        ConfigAction::RegisterBuiltinFixtures => o.conftests + 7,
        ConfigAction::LoadConftest(k) => o.conftests - k + 6,
        ConfigAction::ScanPlugins => 5,
        ConfigAction::AddOptions => 4,
        ConfigAction::ResolveArguments => 3,
        ConfigAction::FindUnknownKeys => 2,
        ConfigAction::FindUnknownOverrides => 1,
        ConfigAction::Finish => 0,
        ConfigAction::Fail => 0,
    }
}

/// Every step brings the end nearer, whatever came of the action.
pub proof fn configuration_ends(
    o: ConfigOptions,
    synopsis: Seq<char>,
    a: ConfigAction,
    e: ConfigEvent,
)
    requires
        a matches ConfigAction::LoadConftest(k) ==> k < o.conftests,
        a != ConfigAction::Finish,
        a != ConfigAction::Fail,
    ensures
        0 <= actions_left(o, config_step(o, synopsis, a, e).action) < actions_left(o, a),
{
}

/// Collection fails just where there is a message.
pub proof fn failures_have_messages(
    o: ConfigOptions,
    synopsis: Seq<char>,
    a: ConfigAction,
    e: ConfigEvent,
)
    requires
        a != ConfigAction::Fail,
    ensures
        config_step(o, synopsis, a, e).failure is Some <==> config_step(o, synopsis, a, e).action
            == ConfigAction::Fail,
{
}

/// A strict configuration with an unknown option is refused, one that is not
/// strict warns of each.
pub proof fn unknown_options_are_noticed(o: ConfigOptions, synopsis: Seq<char>, keys: Vec<String>)
    requires
        keys@.len() > 0,
    ensures
        ({
            let step = config_step(
                o,
                synopsis,
                ConfigAction::FindUnknownKeys,
                ConfigEvent::Unknown(keys),
            );
            if config_is_strict(o) {
                step.failure == Some(unknown_text(keys@[0]@))
            } else {
                step.failure is None && step.warnings == unknown_texts(texts(keys@))
            }
        }),
{
}

/// The order of configuring, where nothing goes wrong: the fixtures of the
/// library, then each conftest, the plugins, their options, the arguments; last
/// the keys and overrides that nobody knows are looked for, but not in a worker.
pub proof fn configuration_goes_in_order(o: ConfigOptions, synopsis: Seq<char>, k: usize)
    ensures
        ({
            let after = |a: ConfigAction| config_step(o, synopsis, a, ConfigEvent::Done).action;
            let next_conftest = |i: int|
                if i < o.conftests {
                    ConfigAction::LoadConftest(i as usize)
                } else {
                    ConfigAction::ScanPlugins
                };
            &&& after(ConfigAction::RegisterBuiltinFixtures) == next_conftest(0)
            &&& after(ConfigAction::LoadConftest(k)) == next_conftest(k + 1)
            &&& after(ConfigAction::ScanPlugins) == ConfigAction::AddOptions
            &&& after(ConfigAction::AddOptions) == ConfigAction::ResolveArguments
            &&& o.is_worker ==> after(ConfigAction::ResolveArguments) == ConfigAction::Finish
            &&& !o.is_worker ==> after(ConfigAction::ResolveArguments)
                == ConfigAction::FindUnknownKeys
            &&& o.has_overrides ==> after(ConfigAction::FindUnknownKeys)
                == ConfigAction::FindUnknownOverrides
            &&& !o.has_overrides ==> after(ConfigAction::FindUnknownKeys) == ConfigAction::Finish
            &&& after(ConfigAction::FindUnknownOverrides) == ConfigAction::Finish
            &&& after(ConfigAction::Finish) == ConfigAction::Finish
            &&& after(ConfigAction::Fail) == ConfigAction::Fail
        }),
        forall|a: ConfigAction|
            (#[trigger] config_step(o, synopsis, a, ConfigEvent::Done)).failure is None
                && config_step(o, synopsis, a, ConfigEvent::Done).error is None && config_step(
                o,
                synopsis,
                a,
                ConfigEvent::Done,
            ).warnings.len() == 0,
{
}

/// What goes wrong while configuring: what the fixtures of the library, the
/// arguments or the search for unknown keys raise ends it, a usage error with the
/// synopsis before it; what adding options raises is kept and told later. A
/// conftest that cannot be loaded ends it too, except for `--help`, which warns.
pub proof fn configuration_fails_with_reasons(
    o: ConfigOptions,
    synopsis: Seq<char>,
    m: String,
    shown: String,
    k: usize,
)
    ensures
        ({
            let raised = |a: ConfigAction| config_step(o, synopsis, a, ConfigEvent::Raised(m));
            let failed = config_step(
                o,
                synopsis,
                ConfigAction::LoadConftest(k),
                ConfigEvent::ConftestFailed { shown, message: m },
            );
            &&& raised(ConfigAction::RegisterBuiltinFixtures).failure == Some(m@)
            &&& raised(ConfigAction::ResolveArguments).failure == Some(m@)
            &&& raised(ConfigAction::FindUnknownKeys).failure == Some(m@)
            &&& raised(ConfigAction::FindUnknownOverrides).failure == Some(m@)
            &&& raised(ConfigAction::AddOptions).failure is None
            &&& raised(ConfigAction::AddOptions).error == Some(m@)
            &&& raised(ConfigAction::AddOptions).action == ConfigAction::ResolveArguments
            &&& config_step(
                o,
                synopsis,
                ConfigAction::ResolveArguments,
                ConfigEvent::UsageError(m),
            ).failure == Some(synopsis + m@)
            &&& !o.help ==> failed.failure == Some("\x00CONFTEST_IMPORT_ERROR\x00"@ + m@)
            &&& o.help ==> failed.failure is None && failed.place == WarningPlace::Conftest
                && failed.warnings == seq!["could not load initial conftests: "@ + shown@]
            &&& o.help && k + 1 < o.conftests ==> failed.action == ConfigAction::LoadConftest(
                (k + 1) as usize,
            )
            &&& o.help && k + 1 >= o.conftests ==> failed.action == ConfigAction::ScanPlugins
        }),
{
}

/// Unknown keys of the configuration file are errors where the configuration is
/// strict: by the option, by its own setting, or, where that is not made, by the
/// general option or setting. Otherwise each key is warned of, by name; unknown
/// overrides are only ever warned of.
pub proof fn strictness_makes_errors(
    o: ConfigOptions,
    synopsis: Seq<char>,
    keys: Vec<String>,
    i: int,
)
    requires
        0 <= i < keys@.len(),
    ensures
        o.strict_config ==> config_is_strict(o),
        !o.strict_config && o.strict_config_ini is Some ==> config_is_strict(o)
            == o.strict_config_ini->0,
        !o.strict_config && o.strict_config_ini is None && o.strict ==> config_is_strict(o),
        !o.strict_config && o.strict_config_ini is None && !o.strict ==> config_is_strict(o) == (
        o.strict_ini == Some(true)),
        ({
            let of_keys = config_step(
                o,
                synopsis,
                ConfigAction::FindUnknownKeys,
                ConfigEvent::Unknown(keys),
            );
            let of_overrides = config_step(
                o,
                synopsis,
                ConfigAction::FindUnknownOverrides,
                ConfigEvent::Unknown(keys),
            );
            &&& config_is_strict(o) ==> of_keys.failure == Some(
                "Unknown config option: "@ + keys@[0]@,
            ) && of_keys.action == ConfigAction::Fail
            &&& !config_is_strict(o) ==> of_keys.failure is None && of_keys.place
                == WarningPlace::IniFile && of_keys.warnings.len() == keys@.len()
                && of_keys.warnings[i] == "Unknown config option: "@ + keys@[i]@
            &&& of_overrides.failure is None && of_overrides.place == WarningPlace::CommandLine
            &&& of_overrides.warnings.len() == keys@.len() && of_overrides.warnings[i]
                == "Unknown config option: "@ + keys@[i]@
        }),
{
}

} // verus!
