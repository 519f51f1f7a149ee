//! How a session ends when collection fails as a whole.

use vstd::prelude::*;

use crate::banner::{banner_of, center_with};
use crate::numbers::{code_of, code_round_trip, code_value, parse_code};
use crate::report::{INTERNAL_ERROR, INTERRUPTED, USAGE_ERROR};
use crate::text::{lines, lines_of, same, strip_prefix, texts, texts_push};

verus! {

/// The end of a session: its exit code, what is printed and whether
/// `pytest_unconfigure` is fired.
pub struct Ending {
    pub code: i32,
    pub stdout: Vec<String>,
    pub stderr: Vec<String>,
    pub unconfigure: bool,
}

/// An ending as a mathematical value.
pub struct EndingView {
    pub code: int,
    pub stdout: Seq<Seq<char>>,
    pub stderr: Seq<Seq<char>>,
    pub unconfigure: bool,
}

impl View for Ending {
    type V = EndingView;

    open spec fn view(&self) -> EndingView {
        EndingView {
            code: self.code as int,
            stdout: texts(self.stdout@),
            stderr: texts(self.stderr@),
            unconfigure: self.unconfigure,
        }
    }
}

/// The exit code that a text stands for, or `other` where it is none.
pub open spec fn code_or(s: Seq<char>, other: i32) -> int {
    match code_value(s) {
        Some(v) => v,
        None => other as int,
    }
}

/// Lines behind a prefix.
pub open spec fn prefixed(prefix: Seq<char>, lines: Seq<Seq<char>>) -> Seq<Seq<char>> {
    Seq::new(lines.len(), |i: int| prefix + lines[i])
}

/// What is left of `message` after a marker.
pub open spec fn after_marker(message: Seq<char>, marker: Seq<char>) -> Option<Seq<char>> {
    if marker.is_prefix_of(message) {
        Some(message.skip(marker.len() as int))
    } else {
        None
    }
}

/// How a failure of collection ends the session. A marker at the start of the
/// message tells what happened; without one it is a plain usage error.
pub open spec fn failure_ending(message: Seq<char>, banner: Option<Seq<char>>) -> EndingView {
    if after_marker(message, "\x00INTERNAL_DONE\x00"@) matches Some(code) {
        EndingView {
            code: code_or(
                after_marker(message, "\x00INTERNAL_DONE\x00"@)->Some_0,
                INTERNAL_ERROR,
            ),
            stdout: seq![],
            stderr: seq![],
            unconfigure: false,
        }
    } else if after_marker(message, "\x00INTERNAL\x00"@) is Some {
        EndingView {
            code: INTERNAL_ERROR as int,
            stdout: prefixed(
                "INTERNALERROR> "@,
                lines_of(after_marker(message, "\x00INTERNAL\x00"@)->Some_0),
            ),
            stderr: seq![],
            unconfigure: false,
        }
    } else if after_marker(message, "\x00INTERNAL_STDERR\x00"@) is Some {
        EndingView {
            code: INTERNAL_ERROR as int,
            stdout: seq![],
            stderr: prefixed(
                "INTERNALERROR> "@,
                lines_of(after_marker(message, "\x00INTERNAL_STDERR\x00"@)->Some_0),
            ),
            unconfigure: false,
        }
    } else if message == "\x00KEYBOARD_INTERRUPT\x00"@ {
        EndingView {
            code: INTERRUPTED as int,
            stdout: seq!["!!! KeyboardInterrupt !!!"@],
            stderr: seq![],
            unconfigure: false,
        }
    } else if after_marker(message, "\x00CONFTEST_IMPORT_ERROR\x00"@) is Some {
        EndingView {
            code: USAGE_ERROR as int,
            stdout: seq![],
            stderr: seq![after_marker(message, "\x00CONFTEST_IMPORT_ERROR\x00"@)->Some_0],
            unconfigure: true,
        }
    } else if after_marker(message, "\x00USAGE_ERROR\x00"@) is Some {
        let inner = after_marker(message, "\x00USAGE_ERROR\x00"@)->Some_0;
        EndingView {
            code: USAGE_ERROR as int,
            stdout: seq![],
            stderr: if inner.len() == 0 {
                seq![]
            } else {
                seq!["ERROR during collection:\n"@ + inner]
            },
            unconfigure: true,
        }
    } else if after_marker(message, "\x00EXIT\x00"@) is Some {
        EndingView {
            code: code_or(after_marker(message, "\x00EXIT\x00"@)->Some_0, INTERRUPTED),
            stdout: match banner {
                Some(b) => seq![banner_of(b, '!')],
                None => seq![],
            },
            stderr: seq![],
            unconfigure: true,
        }
    } else {
        EndingView {
            code: USAGE_ERROR as int,
            stdout: seq![],
            stderr: seq!["ERROR: "@ + message],
            unconfigure: false,
        }
    }
}

/// The exit code that a text stands for, or `other` where it is none.
fn parse_code_or(s: &str, other: i32) -> (r: i32)
    ensures
        r == code_or(s@, other),
{
    match parse_code(s) {
        Some(code) => code,
        None => other,
    }
}

/// The lines of `text` behind a prefix.
pub fn prefix_lines(prefix: &str, text: &str) -> (r: Vec<String>)
    ensures
        texts(r@) == prefixed(prefix@, lines_of(text@)),
{
    let ls = lines(text);
    let mut r: Vec<String> = Vec::new();
    let mut i: usize = 0;
    while i < ls.len()
        invariant
            i <= ls@.len(),
            r@.len() == i,
            forall|k: int| 0 <= k < i ==> texts(r@)[k] == prefix@ + #[trigger] texts(ls@)[k],
        decreases ls@.len() - i,
    {
        let mut line: String = prefix.to_owned();
        line.append(ls[i].as_str());
        proof {
            texts_push(r@, line);
        }
        r.push(line);
        assert(texts(ls@)[i as int] == ls@[i as int]@);
        i += 1;
    }
    assert(texts(r@) =~= prefixed(prefix@, lines_of(text@)));
    r
}

/// A list of one text.
fn one(s: String) -> (r: Vec<String>)
    ensures
        texts(r@) == seq![s@],
{
    let mut r: Vec<String> = Vec::new();
    r.push(s);
    assert(texts(r@) =~= seq![s@]);
    r
}

/// A list of no texts.
fn none() -> (r: Vec<String>)
    ensures
        texts(r@) == Seq::<Seq<char>>::empty(),
{
    let r: Vec<String> = Vec::new();
    assert(texts(r@) =~= Seq::<Seq<char>>::empty());
    r
}

/// How a failure of collection ends the session.
pub fn collect_failure(message: &str, abort_banner: &Option<String>) -> (r: Ending)
    ensures
        r@ == failure_ending(
            message@,
            match *abort_banner {
                Some(b) => Some(b@),
                None => None,
            },
        ),
{
    if let Some(code) = strip_prefix(message, "\x00INTERNAL_DONE\x00") {
        return Ending {
            code: parse_code_or(code.as_str(), INTERNAL_ERROR),
            stdout: none(),
            stderr: none(),
            unconfigure: false,
        };
    }
    if let Some(inner) = strip_prefix(message, "\x00INTERNAL\x00") {
        return Ending {
            code: INTERNAL_ERROR,
            stdout: prefix_lines("INTERNALERROR> ", inner.as_str()),
            stderr: none(),
            unconfigure: false,
        };
    }
    if let Some(inner) = strip_prefix(message, "\x00INTERNAL_STDERR\x00") {
        return Ending {
            code: INTERNAL_ERROR,
            stdout: none(),
            stderr: prefix_lines("INTERNALERROR> ", inner.as_str()),
            unconfigure: false,
        };
    }
    if same(message, "\x00KEYBOARD_INTERRUPT\x00") {
        return Ending {
            code: INTERRUPTED,
            stdout: one("!!! KeyboardInterrupt !!!".to_owned()),
            stderr: none(),
            unconfigure: false,
        };
    }
    if let Some(inner) = strip_prefix(message, "\x00CONFTEST_IMPORT_ERROR\x00") {
        return Ending { code: USAGE_ERROR, stdout: none(), stderr: one(inner), unconfigure: true };
    }
    if let Some(inner) = strip_prefix(message, "\x00USAGE_ERROR\x00") {
        let stderr = if inner.as_str().is_empty() {
            none()
        } else {
            let mut line: String = "ERROR during collection:\n".to_owned();
            line.append(inner.as_str());
            one(line)
        };
        return Ending { code: USAGE_ERROR, stdout: none(), stderr, unconfigure: true };
    }
    if let Some(code) = strip_prefix(message, "\x00EXIT\x00") {
        let stdout = match abort_banner {
            Some(banner) => one(center_with(banner.as_str(), '!')),
            None => none(),
        };
        return Ending {
            code: parse_code_or(code.as_str(), INTERRUPTED),
            stdout,
            stderr: none(),
            unconfigure: true,
        };
    }
    let mut line: String = "ERROR: ".to_owned();
    line.append(message);
    Ending { code: USAGE_ERROR, stdout: none(), stderr: one(line), unconfigure: false }
}

// ---------------------------------------------------------------------------
// Laws
// ---------------------------------------------------------------------------

/// A failed collection ends with a failing exit code, unless an exit code of
/// zero was asked for.
pub proof fn failed_collection_fails(message: Seq<char>, banner: Option<Seq<char>>)
    ensures
        failure_ending(message, banner).code != 0 || {
            ||| after_marker(message, "\x00INTERNAL_DONE\x00"@) matches Some(s) && code_value(s)
                == Some(0int)
            ||| after_marker(message, "\x00EXIT\x00"@) matches Some(s) && code_value(s) == Some(
                0int,
            )
        },
{
}

/// A failure whose message starts with a mark is ended as the mark says: an internal
/// error shows its text line by line, on either stream; an interruption is announced;
/// a conftest that could not be imported and wrong usage are told on the error
/// stream; an exit has its own code and banner. The plugins are told of the end of
/// those that came after their configuration.
pub proof fn failures_end_as_marked(text: Seq<char>, code: i32, banner: Option<Seq<char>>)
    ensures
        ({
            let done = failure_ending("\x00INTERNAL_DONE\x00"@ + code_of(code as int), banner);
            let internal = failure_ending("\x00INTERNAL\x00"@ + text, banner);
            let quiet = failure_ending("\x00INTERNAL_STDERR\x00"@ + text, banner);
            &&& done.code == code && done.stdout.len() == 0 && done.stderr.len() == 0
            &&& internal.code == 3 && internal.stderr.len() == 0 && !internal.unconfigure
            &&& internal.stdout == prefixed("INTERNALERROR> "@, lines_of(text))
            &&& quiet.code == 3 && quiet.stdout.len() == 0 && !quiet.unconfigure
            &&& quiet.stderr == prefixed("INTERNALERROR> "@, lines_of(text))
        }),
        ({
            let interrupt = failure_ending("\x00KEYBOARD_INTERRUPT\x00"@, banner);
            let conftest = failure_ending("\x00CONFTEST_IMPORT_ERROR\x00"@ + text, banner);
            let usage = failure_ending("\x00USAGE_ERROR\x00"@ + text, banner);
            let exit = failure_ending("\x00EXIT\x00"@ + code_of(code as int), banner);
            &&& interrupt.code == 2 && interrupt.stdout == seq!["!!! KeyboardInterrupt !!!"@]
            &&& conftest.code == 4 && conftest.stderr == seq![text] && conftest.unconfigure
            &&& usage.code == 4 && usage.stdout.len() == 0 && usage.unconfigure
            &&& text.len() == 0 ==> usage.stderr.len() == 0
            &&& text.len() > 0 ==> usage.stderr == seq!["ERROR during collection:\n"@ + text]
            &&& exit.code == code && exit.stderr.len() == 0 && exit.unconfigure
            &&& banner is None ==> exit.stdout.len() == 0
            &&& banner is Some ==> exit.stdout == seq![banner_of(banner->0, '!')]
        }),
        text.len() > 0 && text[0] != '\0' ==> failure_ending(text, banner).code == 4
            && failure_ending(text, banner).stderr == seq!["ERROR: "@ + text] && failure_ending(
            text,
            banner,
        ).stdout.len() == 0,
{
    let number = code_of(code as int);
    code_round_trip(code);
    marks_differ();
    marked("\x00INTERNAL_DONE\x00"@, number);
    marked("\x00INTERNAL\x00"@, text);
    marked("\x00INTERNAL_STDERR\x00"@, text);
    marked("\x00CONFTEST_IMPORT_ERROR\x00"@, text);
    marked("\x00USAGE_ERROR\x00"@, text);
    marked("\x00EXIT\x00"@, number);
    let internal = "\x00INTERNAL\x00"@ + text;
    assert(internal[9] == '\0');
    let quiet = "\x00INTERNAL_STDERR\x00"@ + text;
    assert(quiet[10] == 'S' && quiet[9] == '_');
    assert(("\x00CONFTEST_IMPORT_ERROR\x00"@ + text)[1] == 'C');
    assert(("\x00USAGE_ERROR\x00"@ + text)[1] == 'U');
    assert(("\x00EXIT\x00"@ + number)[1] == 'E');
    if text.len() > 0 && text[0] != '\0' {
        assert(!"\x00INTERNAL_DONE\x00"@.is_prefix_of(text));
        assert(!"\x00INTERNAL\x00"@.is_prefix_of(text));
        assert(!"\x00INTERNAL_STDERR\x00"@.is_prefix_of(text));
        assert(!"\x00CONFTEST_IMPORT_ERROR\x00"@.is_prefix_of(text));
        assert(!"\x00USAGE_ERROR\x00"@.is_prefix_of(text));
        assert(!"\x00EXIT\x00"@.is_prefix_of(text));
    }
}

proof fn marked(mark: Seq<char>, text: Seq<char>)
    ensures
        after_marker(mark + text, mark) == Some(text),
{
    let all = mark + text;
    assert(mark =~= all.subrange(0, mark.len() as int));
    assert(all.skip(mark.len() as int) =~= text);
}

proof fn marks_differ()
    ensures
        ({
            let a = "\x00INTERNAL_DONE\x00"@;
            let b = "\x00INTERNAL\x00"@;
            let c = "\x00INTERNAL_STDERR\x00"@;
            let d = "\x00KEYBOARD_INTERRUPT\x00"@;
            let e = "\x00CONFTEST_IMPORT_ERROR\x00"@;
            let f = "\x00USAGE_ERROR\x00"@;
            let g = "\x00EXIT\x00"@;
            &&& a.len() == 15 && b.len() == 10 && c.len() == 17 && d.len() == 20 && e.len() == 23
            &&& f.len() == 13 && g.len() == 6
            &&& a[0] == '\0' && b[0] == '\0' && c[0] == '\0' && d[0] == '\0' && e[0] == '\0'
            &&& f[0] == '\0' && g[0] == '\0'
            &&& a[1] == 'I' && b[1] == 'I' && c[1] == 'I' && d[1] == 'K' && e[1] == 'C'
            &&& f[1] == 'U' && g[1] == 'E'
            &&& a[9] == '_' && a[10] == 'D' && b[9] == '\0' && c[9] == '_' && c[10] == 'S'
        }),
{
    reveal_strlit("\x00INTERNAL_DONE\x00");
    reveal_strlit("\x00INTERNAL\x00");
    reveal_strlit("\x00INTERNAL_STDERR\x00");
    reveal_strlit("\x00KEYBOARD_INTERRUPT\x00");
    reveal_strlit("\x00CONFTEST_IMPORT_ERROR\x00");
    reveal_strlit("\x00USAGE_ERROR\x00");
    reveal_strlit("\x00EXIT\x00");
}

} // verus!
