//! The collection of test files, one by one: which file is imported, what an
//! exception raised by its import means, and when collection stops.

use vstd::prelude::*;

use crate::banner::{ruled, section_rule, spaced};
use crate::report::{
    collection_report, Elapsed, Outcome, Phase, Section, SkippedModule, TestReport,
};
use crate::session::collected::skip_report;
use crate::text::{opt_text, right_stripped, same, strip_end};

verus! {

/// A file that the search came upon.
pub struct SourceFile {
    /// The path, for messages.
    pub shown: String,
    pub nodeid: String,
    pub extension: Option<String>,
    /// A `pytest_collect_directory` hook rejected its directory.
    pub rejected: bool,
}

/// The options that decide how files are collected.
#[derive(Debug, Clone, Copy, PartialEq, Eq, Structural)]
pub struct FileOptions {
    /// `--maxfail`.
    pub maxfail: Option<usize>,
    /// Workers import the modules.
    pub skip_module_import: bool,
    pub doctest_modules: bool,
    pub doctest_ignore_import_errors: bool,
}

/// What the application does next.
#[derive(Debug, Clone, Copy, PartialEq, Eq, Structural)]
pub enum FileAction {
    /// Collect the doctests of a text file.
    CollectText(usize),
    /// Import a module and collect its tests.
    Import(usize),
    /// Collect the doctests of a module.
    CollectDoctests(usize),
    /// No file is left, or `--maxfail` is used up.
    Finish,
    /// Collection fails as a whole.
    Fail,
}

/// What came of an action.
#[derive(Debug, Clone, Copy, PartialEq, Eq, Structural)]
pub enum FileEvent {
    /// It went well, or skipped the module.
    Done,
    /// The module was imported.
    Loaded,
    /// It gave a collection error.
    Failed,
    /// It was interrupted.
    Fatal,
}

/// Where the collection of files stands.
pub struct FileLoop {
    pub action: FileAction,
    /// Collection errors so far.
    pub errors: usize,
    /// Files that no collector of this phase takes.
    pub left_over: Vec<usize>,
}

/// What is known of an exception that an import raised.
pub struct Raised {
    pub keyboard_interrupt: bool,
    pub system_exit: bool,
    /// It is a skip: the reason where a skip is allowed there, else what is
    /// wrong with it.
    pub skip: Option<Result<String, String>>,
    /// Where it was raised.
    pub location: Option<String>,
    /// The message of a `CollectError`.
    pub collect_error: Option<String>,
    pub import_error: bool,
}

/// What an exception that an import raised means.
#[derive(Debug, Clone, Copy, PartialEq, Eq, Structural)]
pub enum RaisedKind {
    Interrupt,
    Exit,
    ModuleSkip,
    MisplacedSkip,
    CollectError,
    ImportError,
    Other,
}

/// The traceback that is shown of an exception.
#[derive(Debug, Clone, Copy, PartialEq, Eq, Structural)]
pub enum Traceback {
    Nothing,
    /// The plain rendering of the exception.
    Plain,
    /// The import with the frames of the runner, or the short style where
    /// that cannot be had.
    Verbose,
    /// The short style.
    Short,
    /// The style of `--tb`, by default the short one.
    Chosen,
}

/// What follows from an exception that an import raised.
pub struct ImportEffect {
    /// Collection fails with this message.
    pub fatal: Option<String>,
    /// The file has a collection error.
    pub error: Option<String>,
    pub skipped_module: Option<SkippedModule>,
    pub reports: Vec<TestReport>,
    /// A skip with this reason is recorded for the file.
    pub recorded_skip: Option<String>,
}

// ---------------------------------------------------------------------------
// Model
// ---------------------------------------------------------------------------

/// `--maxfail` is used up.
pub open spec fn spent(o: FileOptions, errors: int) -> bool {
    o.maxfail matches Some(m) && errors >= m
}

/// A Python file.
pub open spec fn is_python(f: SourceFile) -> bool {
    f.extension matches Some(e) && e@ == "py"@
}

/// A text file that may hold doctests.
pub open spec fn is_doctest_text(f: SourceFile) -> bool {
    f.extension matches Some(e) && (e@ == "txt"@ || e@ == "rst"@ || e@ == "md"@)
}

/// The next thing to do from the file `at` on.
pub open spec fn next_stop(
    o: FileOptions,
    files: Seq<SourceFile>,
    at: int,
    errors: int,
) -> FileAction
    decreases files.len() - at,
{
    if at < 0 || at >= files.len() {
        FileAction::Finish
    } else if files[at].rejected {
        next_stop(o, files, at + 1, errors)
    } else if spent(o, errors) {
        FileAction::Finish
    } else if is_python(files[at]) {
        if o.skip_module_import {
            next_stop(o, files, at + 1, errors)
        } else {
            FileAction::Import(at as usize)
        }
    } else if is_doctest_text(files[at]) {
        FileAction::CollectText(at as usize)
    } else {
        next_stop(o, files, at + 1, errors)
    }
}

/// The files that are passed on the way to the next stop and that no
/// collector takes.
pub open spec fn passed_over(
    o: FileOptions,
    files: Seq<SourceFile>,
    at: int,
    errors: int,
) -> Seq<usize>
    decreases files.len() - at,
{
    if at < 0 || at >= files.len() {
        seq![]
    } else if files[at].rejected {
        passed_over(o, files, at + 1, errors)
    } else if spent(o, errors) {
        seq![]
    } else if is_python(files[at]) {
        if o.skip_module_import {
            passed_over(o, files, at + 1, errors)
        } else {
            seq![]
        }
    } else if is_doctest_text(files[at]) {
        seq![]
    } else {
        seq![at as usize] + passed_over(o, files, at + 1, errors)
    }
}

/// One more collection error, where the event is one.
pub open spec fn counted_errors(errors: int, e: FileEvent) -> int {
    if e == FileEvent::Failed {
        errors + 1
    } else {
        errors
    }
}

/// The file that an action is about.
pub open spec fn file_at(a: FileAction) -> Option<int> {
    match a {
        FileAction::CollectText(k) => Some(k as int),
        FileAction::Import(k) => Some(k as int),
        FileAction::CollectDoctests(k) => Some(k as int),
        FileAction::Finish => None,
        FileAction::Fail => None,
    }
}

/// An action on one of the files, or an end.
pub open spec fn within(a: FileAction, files: Seq<SourceFile>) -> bool {
    file_at(a) matches Some(k) ==> k < files.len()
}

/// The doctests of an imported module are collected next.
pub open spec fn goes_to_doctests(o: FileOptions, a: FileAction, e: FileEvent) -> bool {
    a is Import && e == FileEvent::Loaded && o.doctest_modules
}

/// The action after `a`, with the number of errors before the event.
pub open spec fn file_action_after(
    o: FileOptions,
    files: Seq<SourceFile>,
    a: FileAction,
    errors: int,
    e: FileEvent,
) -> FileAction {
    match file_at(a) {
        None => a,
        Some(k) => if e == FileEvent::Fatal {
            FileAction::Fail
        } else if goes_to_doctests(o, a, e) {
            FileAction::CollectDoctests(k as usize)
        } else {
            next_stop(o, files, k + 1, counted_errors(errors, e))
        },
    }
}

/// The files that are passed over after `a`.
pub open spec fn left_after(
    o: FileOptions,
    files: Seq<SourceFile>,
    a: FileAction,
    errors: int,
    e: FileEvent,
) -> Seq<usize> {
    match file_at(a) {
        None => seq![],
        Some(k) => if e == FileEvent::Fatal || goes_to_doctests(o, a, e) {
            seq![]
        } else {
            passed_over(o, files, k + 1, counted_errors(errors, e))
        },
    }
}

/// What an exception means.
pub open spec fn kind_of(r: Raised) -> RaisedKind {
    if r.keyboard_interrupt {
        RaisedKind::Interrupt
    } else if r.system_exit {
        RaisedKind::Exit
    } else {
        match r.skip {
            Some(Ok(_)) => RaisedKind::ModuleSkip,
            Some(Err(_)) => RaisedKind::MisplacedSkip,
            None => if r.collect_error is Some {
                RaisedKind::CollectError
            } else if r.import_error {
                RaisedKind::ImportError
            } else {
                RaisedKind::Other
            },
        }
    }
}

/// The traceback that is shown of an exception.
pub open spec fn traceback_of(kind: RaisedKind, verbosity: int) -> Traceback {
    match kind {
        RaisedKind::Exit => Traceback::Plain,
        RaisedKind::ImportError => if verbosity >= 2 {
            Traceback::Verbose
        } else {
            Traceback::Short
        },
        RaisedKind::Other => Traceback::Chosen,
        _ => Traceback::Nothing,
    }
}

/// `message` with the first `n` sections of captured output.
pub open spec fn with_output(message: Seq<char>, sections: Seq<Section>, n: int) -> Seq<char>
    decreases n,
{
    if n <= 0 {
        message
    } else {
        with_output(message, sections, n - 1) + "\n"@ + ruled(spaced(sections[n - 1].title@))
            + "\n"@ + right_stripped(sections[n - 1].text@, '\n')
    }
}

/// What is said of a test module that cannot be imported.
pub open spec fn import_error_text(shown: Seq<char>, traceback: Seq<char>) -> Seq<char> {
    "ImportError while importing test module '"@ + shown
        + "'.\nHint: make sure your test modules/packages have valid Python names.\nTraceback:\n"@
        + traceback
}

/// What is said of a module that cannot be imported for its doctests.
pub open spec fn unimportable_text(shown: Seq<char>) -> Seq<char> {
    "unable to import module PosixPath('"@ + shown + "')"@
}

/// The collection error of an exception, without captured output.
pub open spec fn error_text(f: SourceFile, r: Raised, traceback: Seq<char>) -> Option<Seq<char>> {
    match kind_of(r) {
        RaisedKind::MisplacedSkip => Some(r.skip->Some_0->Err_0@),
        RaisedKind::CollectError => Some(r.collect_error->Some_0@),
        RaisedKind::ImportError => Some(import_error_text(f.shown@, traceback)),
        RaisedKind::Other => Some(traceback),
        _ => None,
    }
}

/// The message with which collection fails on an exception.
pub open spec fn fatal_text(r: Raised, traceback: Seq<char>) -> Option<Seq<char>> {
    match kind_of(r) {
        RaisedKind::Interrupt => Some("\x00KEYBOARD_INTERRUPT\x00"@),
        RaisedKind::Exit => Some("\x00INTERNAL\x00"@ + traceback),
        _ => None,
    }
}

/// Where a module was skipped: where the skip was raised, or its first line.
pub open spec fn skip_place(f: SourceFile, r: Raised) -> Seq<char> {
    match r.location {
        Some(l) => l@,
        None => f.nodeid@ + ":1"@,
    }
}

/// The doctests of a module that cannot be imported are skipped.
pub open spec fn skips_doctests(o: FileOptions, r: Raised) -> bool {
    &&& o.doctest_modules
    &&& o.doctest_ignore_import_errors
    &&& (kind_of(r) == RaisedKind::CollectError || kind_of(r) == RaisedKind::ImportError
        || kind_of(r) == RaisedKind::Other)
}

/// The report on a skip at `location`.
pub open spec fn skip_at(
    r: TestReport,
    nodeid: Seq<char>,
    reason: Seq<char>,
    location: Seq<char>,
) -> bool {
    &&& collection_report(r, nodeid, Outcome::Skipped, reason)
    &&& r.location matches Some(s) && s@ == location
    &&& r.reprcrash_message is None
}

/// What follows from an exception that an import raised.
pub open spec fn effect_of(
    x: ImportEffect,
    o: FileOptions,
    f: SourceFile,
    r: Raised,
    traceback: Seq<char>,
    sections: Seq<Section>,
) -> bool {
    &&& opt_text(x.fatal) == fatal_text(r, traceback)
    &&& opt_text(x.error) == (match error_text(f, r, traceback) {
        Some(m) => Some(with_output(m, sections, sections.len() as int)),
        None => None,
    })
    &&& if kind_of(r) == RaisedKind::ModuleSkip {
        let reason = r.skip->Some_0->Ok_0@;
        &&& x.skipped_module matches Some(m) && m.nodeid@ == f.nodeid@ && m.reason@ == reason
            && m.location@ == skip_place(f, r)
        &&& x.reports@.len() == 1
        &&& skip_at(x.reports@[0], f.nodeid@, reason, skip_place(f, r))
        &&& x.recorded_skip is None
    } else if skips_doctests(o, r) {
        let reason = unimportable_text(f.shown@);
        &&& x.skipped_module is None
        &&& x.reports@.len() == 1
        &&& skip_at(x.reports@[0], f.nodeid@, reason, f.nodeid@ + ":1"@)
        &&& opt_text(x.recorded_skip) == Some(reason)
    } else {
        &&& x.skipped_module is None
        &&& x.reports@.len() == 0
        &&& x.recorded_skip is None
    }
}

/// The event that an exception is to the collection of files.
pub open spec fn event_of(kind: RaisedKind) -> FileEvent {
    match kind {
        RaisedKind::Interrupt => FileEvent::Fatal,
        RaisedKind::Exit => FileEvent::Fatal,
        RaisedKind::ModuleSkip => FileEvent::Done,
        _ => FileEvent::Failed,
    }
}

// ---------------------------------------------------------------------------
// Executable functions
// ---------------------------------------------------------------------------

fn has_extension(f: &SourceFile, extension: &str) -> (r: bool)
    ensures
        r == (f.extension matches Some(e) && e@ == extension@),
{
    match &f.extension {
        Some(e) => same(e.as_str(), extension),
        None => false,
    }
}

fn budget_is_spent(o: &FileOptions, errors: usize) -> (r: bool)
    ensures
        r == spent(*o, errors as int),
{
    match o.maxfail {
        Some(m) => errors >= m,
        None => false,
    }
}

/// Goes on to the next thing to do from the file `from` on; the files that no
/// collector takes are added to `left_over`.
fn settle(
    o: &FileOptions,
    files: &[SourceFile],
    from: usize,
    errors: usize,
    left_over: &mut Vec<usize>,
) -> (r: FileAction)
    requires
        from <= files@.len(),
    ensures
        r == next_stop(*o, files@, from as int, errors as int),
        final(left_over)@ == old(left_over)@ + passed_over(*o, files@, from as int, errors as int),
{
    let n: usize = files.len();
    let mut at: usize = from;
    let ghost before = left_over@;
    assert(before + passed_over(*o, files@, at as int, errors as int) =~= left_over@ + passed_over(
        *o,
        files@,
        at as int,
        errors as int,
    ));
    while at < n
        invariant
            n == files@.len(),
            at <= n,
            before == old(left_over)@,
            next_stop(*o, files@, at as int, errors as int) == next_stop(
                *o,
                files@,
                from as int,
                errors as int,
            ),
            before + passed_over(*o, files@, from as int, errors as int) == left_over@
                + passed_over(*o, files@, at as int, errors as int),
        decreases n - at,
    {
        let ghost rest = passed_over(*o, files@, at as int, errors as int);
        if !files[at].rejected {
            if budget_is_spent(o, errors) {
                assert(left_over@ + rest =~= left_over@);
                return FileAction::Finish;
            }
            if has_extension(&files[at], "py") {
                if !o.skip_module_import {
                    assert(left_over@ + rest =~= left_over@);
                    return FileAction::Import(at);
                }
            } else if has_extension(&files[at], "txt") || has_extension(&files[at], "rst")
                || has_extension(&files[at], "md") {
                assert(left_over@ + rest =~= left_over@);
                return FileAction::CollectText(at);
            } else {
                let ghost here = left_over@;
                let ghost later = passed_over(*o, files@, at + 1, errors as int);
                assert(here + (seq![at] + later) =~= here.push(at) + later);
                left_over.push(at);
            }
        }
        at += 1;
    }
    assert(left_over@ + passed_over(*o, files@, at as int, errors as int) =~= left_over@);
    FileAction::Finish
}

/// Where the collection of files starts, after `errors` collection errors.
pub fn start_files(o: &FileOptions, files: &[SourceFile], errors: usize) -> (r: FileLoop)
    ensures
        r.action == next_stop(*o, files@, 0, errors as int),
        r.errors == errors,
        r.left_over@ == passed_over(*o, files@, 0, errors as int),
        within(r.action, files@),
{
    let _n: usize = files.len();
    let mut left_over: Vec<usize> = Vec::new();
    let action = settle(o, files, 0, errors, &mut left_over);
    proof {
        stops_ahead(*o, files@, 0, errors as int);
        assert(Seq::<usize>::empty() + passed_over(*o, files@, 0, errors as int) =~= passed_over(
            *o,
            files@,
            0,
            errors as int,
        ));
    }
    FileLoop { action, errors, left_over }
}

/// What follows on what came of the current action.
pub fn next_file(o: &FileOptions, files: &[SourceFile], state: FileLoop, event: FileEvent) -> (r:
    FileLoop)
    requires
        within(state.action, files@),
        state.errors < usize::MAX,
    ensures
        r.action == file_action_after(*o, files@, state.action, state.errors as int, event),
        r.left_over@ == state.left_over@ + left_after(
            *o,
            files@,
            state.action,
            state.errors as int,
            event,
        ),
        r.errors == (if file_at(state.action) is Some {
            counted_errors(state.errors as int, event)
        } else {
            state.errors as int
        }),
        within(r.action, files@),
{
    let _n: usize = files.len();
    let mut state = state;
    let ghost before = state.left_over@;
    let at: usize = match state.action {
        FileAction::CollectText(k) | FileAction::Import(k) | FileAction::CollectDoctests(k) => k,
        FileAction::Finish | FileAction::Fail => {
            assert(before + Seq::<usize>::empty() =~= before);
            return state;
        },
    };
    let imported = match (state.action, event) {
        (FileAction::Import(_), FileEvent::Loaded) => true,
        _ => false,
    };
    if let FileEvent::Failed = event {
        state.errors = state.errors + 1;
    }
    if let FileEvent::Fatal = event {
        state.action = FileAction::Fail;
        assert(before + Seq::<usize>::empty() =~= before);
    } else if imported && o.doctest_modules {
        state.action = FileAction::CollectDoctests(at);
        assert(before + Seq::<usize>::empty() =~= before);
    } else {
        proof {
            stops_ahead(*o, files@, at + 1, state.errors as int);
        }
        let errors: usize = state.errors;
        state.action = settle(o, files, at + 1, errors, &mut state.left_over);
    }
    state
}

/// What an exception that an import raised means.
pub fn raised_kind(r: &Raised) -> (kind: RaisedKind)
    ensures
        kind == kind_of(*r),
{
    if r.keyboard_interrupt {
        RaisedKind::Interrupt
    } else if r.system_exit {
        RaisedKind::Exit
    } else {
        match &r.skip {
            Some(Ok(_)) => RaisedKind::ModuleSkip,
            Some(Err(_)) => RaisedKind::MisplacedSkip,
            None => if r.collect_error.is_some() {
                RaisedKind::CollectError
            } else if r.import_error {
                RaisedKind::ImportError
            } else {
                RaisedKind::Other
            },
        }
    }
}

/// The traceback that is shown of an exception at a verbosity.
pub fn wanted_traceback(kind: RaisedKind, verbosity: i64) -> (r: Traceback)
    ensures
        r == traceback_of(kind, verbosity as int),
{
    match kind {
        RaisedKind::Exit => Traceback::Plain,
        RaisedKind::ImportError => if verbosity >= 2 {
            Traceback::Verbose
        } else {
            Traceback::Short
        },
        RaisedKind::Other => Traceback::Chosen,
        _ => Traceback::Nothing,
    }
}

/// The event that an exception is to the collection of files.
pub fn raised_event(kind: RaisedKind) -> (r: FileEvent)
    ensures
        r == event_of(kind),
{
    match kind {
        RaisedKind::Interrupt => FileEvent::Fatal,
        RaisedKind::Exit => FileEvent::Fatal,
        RaisedKind::ModuleSkip => FileEvent::Done,
        _ => FileEvent::Failed,
    }
}

/// `message` with the sections of captured output.
pub fn with_sections(message: String, sections: &[Section]) -> (r: String)
    ensures
        r@ == with_output(message@, sections@, sections@.len() as int),
{
    let n: usize = sections.len();
    let mut r: String = message;
    let ghost start = r@;
    let mut i: usize = 0;
    while i < n
        invariant
            n == sections@.len(),
            i <= n,
            r@ == with_output(start, sections@, i as int),
        decreases n - i,
    {
        let rule = section_rule(sections[i].title.as_str());
        let text = strip_end(sections[i].text.as_str(), '\n');
        r.append("\n");
        r.append(rule.as_str());
        r.append("\n");
        r.append(text.as_str());
        i += 1;
    }
    r
}

/// What is said of a module that cannot be imported for its doctests.
pub fn unimportable(shown: &str) -> (r: String)
    ensures
        r@ == unimportable_text(shown@),
{
    let mut r: String = "unable to import module PosixPath('".to_owned();
    r.append(shown);
    r.append("')");
    r
}

fn import_error_message(shown: &str, traceback: &str) -> (r: String)
    ensures
        r@ == import_error_text(shown@, traceback@),
{
    let mut r: String = "ImportError while importing test module '".to_owned();
    r.append(shown);
    r.append(
        "'.\nHint: make sure your test modules/packages have valid Python names.\nTraceback:\n",
    );
    r.append(traceback);
    r
}

/// The report on a skip that was raised at `location`.
fn report_skip_at(nodeid: &str, reason: &str, location: &str) -> (r: TestReport)
    ensures
        skip_at(r, nodeid@, reason@, location@),
{
    TestReport {
        nodeid: nodeid.to_owned(),
        phase: Phase::Setup,
        outcome: Outcome::Skipped,
        duration: Elapsed { secs: 0, nanos: 0 },
        longrepr: Some(reason.to_owned()),
        location: Some(location.to_owned()),
        subtest_desc: None,
        sections: Vec::new(),
        rerun: false,
        xfail_longrepr: None,
        reprcrash_message: None,
        head_line: None,
    }
}

/// The effect of a skip of a whole module.
fn skip_effect(f: &SourceFile, reason: &str, location: &Option<String>) -> (x: ImportEffect)
    ensures
        x.fatal is None,
        x.error is None,
        x.recorded_skip is None,
        x.reports@.len() == 1,
        ({
            let place = match *location {
                Some(l) => l@,
                None => f.nodeid@ + ":1"@,
            };
            &&& x.skipped_module matches Some(m) && m.nodeid@ == f.nodeid@ && m.reason@ == reason@
                && m.location@ == place
            &&& skip_at(x.reports@[0], f.nodeid@, reason@, place)
        }),
{
    let place: String = match location {
        Some(l) => l.clone(),
        None => {
            let mut first: String = f.nodeid.clone();
            first.append(":1");
            first
        },
    };
    let mut reports: Vec<TestReport> = Vec::new();
    reports.push(report_skip_at(f.nodeid.as_str(), reason, place.as_str()));
    ImportEffect {
        fatal: None,
        error: None,
        skipped_module: Some(
            SkippedModule { nodeid: f.nodeid.clone(), reason: reason.to_owned(), location: place },
        ),
        reports,
        recorded_skip: None,
    }
}

/// What follows from an exception that the import of a file raised.
/// `traceback` is the one that `wanted_traceback` asks for, `sections` what
/// the import wrote.
pub fn import_effect(
    o: &FileOptions,
    f: &SourceFile,
    r: &Raised,
    traceback: &str,
    sections: &[Section],
) -> (x: ImportEffect)
    ensures
        effect_of(x, *o, *f, *r, traceback@, sections@),
{
    let kind = raised_kind(r);
    if let RaisedKind::ModuleSkip = kind {
        if let Some(Ok(reason)) = &r.skip {
            return skip_effect(f, reason.as_str(), &r.location);
        }
    }
    let mut x = ImportEffect {
        fatal: None,
        error: None,
        skipped_module: None,
        reports: Vec::new(),
        recorded_skip: None,
    };
    let message: String = match kind {
        RaisedKind::Interrupt => {
            x.fatal = Some("\x00KEYBOARD_INTERRUPT\x00".to_owned());
            return x;
        },
        RaisedKind::Exit => {
            let mut text: String = "\x00INTERNAL\x00".to_owned();
            text.append(traceback);
            x.fatal = Some(text);
            return x;
        },
        RaisedKind::MisplacedSkip => {
            if let Some(Err(message)) = &r.skip {
                x.error = Some(with_sections(message.clone(), sections));
            }
            return x;
        },
        RaisedKind::CollectError => match &r.collect_error {
            Some(message) => message.clone(),
            None => String::new(),
        },
        RaisedKind::ImportError => import_error_message(f.shown.as_str(), traceback),
        _ => traceback.to_owned(),
    };
    x.error = Some(with_sections(message, sections));
    if o.doctest_modules && o.doctest_ignore_import_errors {
        let reason = unimportable(f.shown.as_str());
        x.reports.push(skip_report(f.nodeid.as_str(), reason.as_str()));
        x.recorded_skip = Some(reason);
    }
    x
}

/// Moves the doctests of a module, which stand from `doctests` on, before its
/// functions, which stand from `start` on.
pub fn doctests_first<T>(items: Vec<T>, start: usize, doctests: usize) -> (r: Vec<T>)
    requires
        start <= doctests <= items@.len(),
    ensures
        r@ == items@.take(start as int) + items@.skip(doctests as int) + items@.subrange(
            start as int,
            doctests as int,
        ),
{
    let mut items = items;
    let ghost all = items@;
    let mut tail = items.split_off(doctests);
    let mut functions = items.split_off(start);
    items.append(&mut tail);
    items.append(&mut functions);
    assert(items@ =~= all.take(start as int) + all.skip(doctests as int) + all.subrange(
        start as int,
        doctests as int,
    ));
    items
}

// ---------------------------------------------------------------------------
// Laws
// ---------------------------------------------------------------------------

/// The next stop lies ahead, and is one of the files.
pub proof fn stops_ahead(o: FileOptions, files: Seq<SourceFile>, at: int, errors: int)
    requires
        0 <= at,
        files.len() <= usize::MAX,
    ensures
        file_at(next_stop(o, files, at, errors)) matches Some(k) ==> at <= k < files.len(),
        within(next_stop(o, files, at, errors), files),
    decreases files.len() - at,
{
    if at < files.len() {
        stops_ahead(o, files, at + 1, errors);
    }
}

/// No file is imported twice and none is taken out of order: the file of the
/// next action comes after the current one, but for the doctests of a module,
/// which follow its import.
pub proof fn files_are_taken_in_order(
    o: FileOptions,
    files: Seq<SourceFile>,
    a: FileAction,
    errors: int,
    e: FileEvent,
)
    requires
        files.len() <= usize::MAX,
        within(a, files),
    ensures
        (file_at(a), file_at(file_action_after(o, files, a, errors, e))) matches (
            Some(k),
            Some(next),
        ) ==> k < next || (k == next && a is Import && file_action_after(
            o,
            files,
            a,
            errors,
            e,
        ) is CollectDoctests),
{
    if let Some(k) = file_at(a) {
        stops_ahead(o, files, k + 1, counted_errors(errors, e));
    }
}

/// Once the collection errors use up `--maxfail`, no other file is touched.
pub proof fn spent_budget_ends_collection(
    o: FileOptions,
    files: Seq<SourceFile>,
    at: int,
    errors: int,
)
    requires
        0 <= at,
        spent(o, errors),
    ensures
        next_stop(o, files, at, errors) == FileAction::Finish,
        passed_over(o, files, at, errors) == Seq::<usize>::empty(),
    decreases files.len() - at,
{
    if at < files.len() {
        spent_budget_ends_collection(o, files, at + 1, errors);
    }
}

/// Nothing in a rejected directory is imported.
pub proof fn rejected_files_are_not_touched(
    o: FileOptions,
    files: Seq<SourceFile>,
    at: int,
    errors: int,
)
    requires
        0 <= at,
        files.len() <= usize::MAX,
    ensures
        file_at(next_stop(o, files, at, errors)) matches Some(k) ==> !files[k].rejected,
        forall|i: int|
            0 <= i < passed_over(o, files, at, errors).len() ==> {
                let k = #[trigger] passed_over(o, files, at, errors)[i];
                &&& at <= k < files.len()
                &&& !files[k as int].rejected
                &&& !is_python(files[k as int])
                &&& !is_doctest_text(files[k as int])
            },
    decreases files.len() - at,
{
    if at < files.len() {
        rejected_files_are_not_touched(o, files, at + 1, errors);
    }
}

/// Every exception has exactly one meaning for its file: collection fails, the
/// file has an error, or the module is skipped.
pub proof fn exceptions_are_accounted_for(f: SourceFile, r: Raised, traceback: Seq<char>)
    ensures
        event_of(kind_of(r)) == FileEvent::Fatal <==> fatal_text(r, traceback) is Some,
        event_of(kind_of(r)) == FileEvent::Failed <==> error_text(f, r, traceback) is Some,
        event_of(kind_of(r)) == FileEvent::Done <==> kind_of(r) == RaisedKind::ModuleSkip,
{
}

/// A file to import: a Python file that is not rejected, where modules are to be
/// imported.
pub open spec fn importable(o: FileOptions, f: SourceFile) -> bool {
    !f.rejected && !o.skip_module_import && f.extension is Some && f.extension->0@ == "py"@
}

/// A text file that may hold doctests.
pub open spec fn readable(f: SourceFile) -> bool {
    !f.rejected && f.extension is Some && (f.extension->0@ == "txt"@ || f.extension->0@ == "rst"@
        || f.extension->0@ == "md"@)
}

/// Files are taken one after the other: the next one is the first that is to be
/// imported or read, and the collection ends where there is none or where the
/// budget of failures is spent.
pub proof fn next_file_is_the_first_to_take(
    o: FileOptions,
    files: Seq<SourceFile>,
    at: int,
    errors: int,
)
    requires
        0 <= at,
        files.len() <= usize::MAX,
    ensures
        o.maxfail is Some && errors >= o.maxfail->0 ==> next_stop(o, files, at, errors)
            == FileAction::Finish,
        o.maxfail is None || errors < o.maxfail->0 ==> (match next_stop(o, files, at, errors) {
            FileAction::Import(k) => at <= k < files.len() && importable(o, files[k as int])
                && forall|j: int|
                at <= j < k ==> !importable(o, #[trigger] files[j]) && !readable(files[j]),
            FileAction::CollectText(k) => at <= k < files.len() && readable(files[k as int])
                && forall|j: int|
                at <= j < k ==> !importable(o, #[trigger] files[j]) && !readable(files[j]),
            FileAction::Finish => forall|j: int|
                at <= j < files.len() ==> !importable(o, #[trigger] files[j]) && !readable(
                    files[j],
                ),
            _ => false,
        }),
    decreases files.len() - at,
{
    reveal_strlit("py");
    reveal_strlit("txt");
    reveal_strlit("rst");
    reveal_strlit("md");
    assert("py"@[0] == 'p' && "txt"@[0] == 't' && "rst"@[0] == 'r' && "md"@[0] == 'm');
    if at < files.len() {
        next_file_is_the_first_to_take(o, files, at + 1, errors);
    }
}

/// A file that is neither is left to other collectors: every such file before
/// the next stop is, unless it is rejected.
pub proof fn other_files_are_left_over(
    o: FileOptions,
    files: Seq<SourceFile>,
    at: int,
    errors: int,
    j: usize,
)
    requires
        0 <= at <= j < files.len() <= usize::MAX,
        o.maxfail is None || errors < o.maxfail->0,
    ensures
        passed_over(o, files, at, errors).contains(j) <==> !files[j as int].rejected && (
        files[j as int].extension is None || files[j as int].extension->0@ != "py"@) && !readable(
            files[j as int],
        ) && (file_at(next_stop(o, files, at, errors)) matches Some(k) ==> j < k),
    decreases files.len() - at,
{
    stops_ahead(o, files, at, errors);
    let all = passed_over(o, files, at, errors);
    if files[at].rejected || is_python(files[at]) || is_doctest_text(files[at]) {
        if j > at {
            other_files_are_left_over(o, files, at + 1, errors, j);
        } else {
            rejected_files_are_not_touched(o, files, at, errors);
            if all.contains(j) {
                let i = choose|i: int| 0 <= i < all.len() && all[i] == j;
                assert(!files[all[i] as int].rejected);
            }
        }
    } else {
        let rest = passed_over(o, files, at + 1, errors);
        stops_ahead(o, files, at + 1, errors);
        if j > at {
            other_files_are_left_over(o, files, at + 1, errors, j);
            if rest.contains(j) {
                let i = choose|i: int| 0 <= i < rest.len() && rest[i] == j;
                assert(all[i + 1] == j);
            }
            if all.contains(j) {
                let i = choose|i: int| 0 <= i < all.len() && all[i] == j;
                assert(rest[i - 1] == j);
            }
        } else {
            assert(all[0] == j);
        }
    }
}

/// What the end of an import leads to: a fatal one ends all; a module with its
/// doctests is read again for them; anything else goes on with the next file, and
/// a failure counts.
pub proof fn events_lead_on(
    o: FileOptions,
    files: Seq<SourceFile>,
    k: usize,
    errors: int,
    e: FileEvent,
)
    ensures
        ({
            let after = file_action_after(o, files, FileAction::Import(k), errors, e);
            &&& e == FileEvent::Fatal ==> after == FileAction::Fail
            &&& e == FileEvent::Loaded && o.doctest_modules ==> after
                == FileAction::CollectDoctests(k)
            &&& e == FileEvent::Loaded && !o.doctest_modules ==> after == next_stop(
                o,
                files,
                k + 1,
                errors,
            )
            &&& e == FileEvent::Done ==> after == next_stop(o, files, k + 1, errors)
            &&& e == FileEvent::Failed ==> after == next_stop(o, files, k + 1, errors + 1)
        }),
        counted_errors(errors, FileEvent::Failed) == errors + 1,
        e != FileEvent::Failed ==> counted_errors(errors, e) == errors,
        file_action_after(o, files, FileAction::Finish, errors, e) == FileAction::Finish,
        file_action_after(o, files, FileAction::Fail, errors, e) == FileAction::Fail,
{
}

/// What an exception of an import is taken for: an interruption before an exit, a
/// skip before an error, and what a collector raised before a failed import.
pub proof fn exceptions_are_told_apart(r: Raised)
    ensures
        kind_of(r) == RaisedKind::Interrupt <==> r.keyboard_interrupt,
        kind_of(r) == RaisedKind::Exit <==> r.system_exit && !r.keyboard_interrupt,
        ({
            let ordinary = !r.keyboard_interrupt && !r.system_exit;
            &&& kind_of(r) == RaisedKind::ModuleSkip <==> ordinary && r.skip is Some
                && r.skip->0 is Ok
            &&& kind_of(r) == RaisedKind::MisplacedSkip <==> ordinary && r.skip is Some
                && r.skip->0 is Err
            &&& kind_of(r) == RaisedKind::CollectError <==> ordinary && r.skip is None
                && r.collect_error is Some
            &&& kind_of(r) == RaisedKind::ImportError <==> ordinary && r.skip is None
                && r.collect_error is None && r.import_error
        }),
        event_of(RaisedKind::Interrupt) == FileEvent::Fatal,
        event_of(RaisedKind::Exit) == FileEvent::Fatal,
        event_of(RaisedKind::ModuleSkip) == FileEvent::Done,
        event_of(RaisedKind::MisplacedSkip) == FileEvent::Failed,
        event_of(RaisedKind::CollectError) == FileEvent::Failed,
        event_of(RaisedKind::ImportError) == FileEvent::Failed,
        event_of(RaisedKind::Other) == FileEvent::Failed,
{
}

/// Which traceback an exception is shown with.
pub proof fn tracebacks_are_wanted(verbosity: int)
    ensures
        traceback_of(RaisedKind::Exit, verbosity) == Traceback::Plain,
        verbosity >= 2 ==> traceback_of(RaisedKind::ImportError, verbosity) == Traceback::Verbose,
        verbosity < 2 ==> traceback_of(RaisedKind::ImportError, verbosity) == Traceback::Short,
        traceback_of(RaisedKind::Other, verbosity) == Traceback::Chosen,
        traceback_of(RaisedKind::Interrupt, verbosity) == Traceback::Nothing,
        traceback_of(RaisedKind::ModuleSkip, verbosity) == Traceback::Nothing,
        traceback_of(RaisedKind::MisplacedSkip, verbosity) == Traceback::Nothing,
        traceback_of(RaisedKind::CollectError, verbosity) == Traceback::Nothing,
{
}

/// What becomes of an exception of an import: an interruption and an exit are
/// fatal; a skip of the module is recorded, with the reason and the place, and
/// reported; what else was raised is an error, with what was printed meanwhile.
pub proof fn exceptions_are_handled(
    x: ImportEffect,
    o: FileOptions,
    f: SourceFile,
    r: Raised,
    traceback: Seq<char>,
    sections: Seq<Section>,
)
    requires
        effect_of(x, o, f, r, traceback, sections),
    ensures
        r.keyboard_interrupt ==> x.fatal is Some && x.fatal->0@ == "\x00KEYBOARD_INTERRUPT\x00"@
            && x.error is None,
        r.system_exit && !r.keyboard_interrupt ==> x.fatal is Some && x.fatal->0@
            == "\x00INTERNAL\x00"@ + traceback && x.error is None,
        !r.keyboard_interrupt && !r.system_exit ==> x.fatal is None && (match r.skip {
            Some(Ok(reason)) => {
                &&& x.error is None
                &&& x.skipped_module is Some && x.skipped_module->0.reason@ == reason@
                    && x.skipped_module->0.nodeid@ == f.nodeid@
                &&& r.location is Some ==> x.skipped_module->0.location@ == r.location->0@
                &&& r.location is None ==> x.skipped_module->0.location@ == f.nodeid@ + ":1"@
                &&& x.reports@.len() == 1 && x.reports@[0].outcome == Outcome::Skipped
                &&& x.recorded_skip is None
            },
            Some(Err(message)) => {
                &&& x.skipped_module is None && x.reports@.len() == 0
                &&& sections.len() == 0 ==> x.error is Some && x.error->0@ == message@
            },
            None => {
                let ignored = o.doctest_modules && o.doctest_ignore_import_errors;
                &&& x.skipped_module is None && x.error is Some
                &&& sections.len() == 0 && r.collect_error is Some ==> x.error->0@
                    == r.collect_error->0@
                &&& sections.len() == 0 && r.collect_error is None && r.import_error ==> x.error->0@
                    == "ImportError while importing test module '"@ + f.shown@
                    + "'.\nHint: make sure your test modules/packages have valid Python names.\nTraceback:\n"@
                    + traceback
                &&& sections.len() == 0 && r.collect_error is None && !r.import_error
                    ==> x.error->0@ == traceback
                &&& ignored ==> x.reports@.len() == 1 && x.reports@[0].outcome == Outcome::Skipped
                    && x.recorded_skip is Some && x.recorded_skip->0@
                    == "unable to import module PosixPath('"@ + f.shown@ + "')"@
                &&& !ignored ==> x.reports@.len() == 0 && x.recorded_skip is None
            },
        }),
{
}

/// What was printed during an import follows the message, section by section,
/// each below a rule with its title.
pub proof fn output_follows_the_message(
    message: Seq<char>,
    sections: Seq<Section>,
    last: Section,
)
    ensures
        with_output(message, sections, 0) == message,
        with_output(message, sections.push(last), sections.push(last).len() as int) == with_output(
            message,
            sections,
            sections.len() as int,
        ) + "\n"@ + ruled(spaced(last.title@)) + "\n"@ + right_stripped(last.text@, '\n'),
{
    output_of_fewer(message, sections.push(last), sections, sections.len() as int);
}

proof fn output_of_fewer(message: Seq<char>, all: Seq<Section>, few: Seq<Section>, n: int)
    requires
        0 <= n <= few.len() <= all.len(),
        forall|i: int| 0 <= i < few.len() ==> all[i] == #[trigger] few[i],
    ensures
        with_output(message, all, n) == with_output(message, few, n),
    decreases n,
{
    if n > 0 {
        output_of_fewer(message, all, few, n - 1);
        assert(all[n - 1] == few[n - 1]);
    }
}

} // verus!
