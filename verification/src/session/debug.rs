//! `--debug`: the trace file.

use vstd::prelude::*;

use crate::terminal::display::{first_word, leading_word};
use crate::text::{is_space, words_of, words_stand_between_white_space};

verus! {

/// What the trace file holds.
pub open spec fn debug_text(version: Seq<char>, python: Seq<char>) -> Seq<char> {
    "versions pytest-rs-"@ + version + ", python-"@ + first_word(python)
        + "\npytest_configure\npytest_sessionstart\n"@
}

/// What the trace file holds: the version of the runner and that of Python,
/// whose text may go on after a blank.
pub fn debug_file(version: &str, python: &str) -> (r: String)
    ensures
        r@ == debug_text(version@, python@),
{
    let python = leading_word(python);
    let mut r: String = "versions pytest-rs-".to_owned();
    r.append(version);
    r.append(", python-");
    r.append(python.as_str());
    r.append("\npytest_configure\npytest_sessionstart\n");
    r
}

/// What is said when the trace file is opened.
pub fn debug_started(path: &str) -> (r: String)
    ensures
        r@ == "writing pytest debug information to "@ + path@,
{
    let mut r: String = "writing pytest debug information to ".to_owned();
    r.append(path);
    r
}

/// What is said when the session is over.
pub fn debug_ended(path: &str) -> (r: String)
    ensures
        r@ == "wrote pytest debug information to "@ + path@,
{
    let mut r: String = "wrote pytest debug information to ".to_owned();
    r.append(path);
    r
}

/// What the file for debugging holds: the versions, Python's without what stands behind
/// it, and the first two hooks.
pub proof fn debug_file_names_versions(version: Seq<char>, python: Seq<char>, rest: Seq<char>)
    requires
        python.len() > 0,
        forall|i: int| 0 <= i < python.len() ==> !is_space(#[trigger] python[i]),
    ensures
        debug_text(version, python.push(' ') + rest) == "versions pytest-rs-"@ + version
            + ", python-"@ + python + "\npytest_configure\npytest_sessionstart\n"@,
{
    words_stand_between_white_space(python, ' ', rest);
    assert((seq![python] + words_of(rest))[0] == python);
}

} // verus!
