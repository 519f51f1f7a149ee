//! Where collection starts: the arguments of the command line, `testpaths` and
//! `--pyargs`.

use vstd::prelude::*;

use crate::lists::append_texts;
use crate::text::{first_at_bounds, head, head_of, occurs, split_whitespace, texts, words_of};

verus! {

/// What `testpaths` makes of a session.
pub enum PathsPlan {
    /// The arguments stand as they are.
    Keep,
    /// These are names of modules.
    Modules(Vec<String>),
    /// These are patterns that are expanded from the root directory.
    Glob(Vec<String>),
}

// ---------------------------------------------------------------------------
// Model
// ---------------------------------------------------------------------------

/// The words of the first `n` lines.
pub open spec fn all_words(lines: Seq<Seq<char>>, n: int) -> Seq<Seq<char>>
    decreases n,
{
    if n <= 0 {
        seq![]
    } else {
        all_words(lines, n - 1) + words_of(lines[n - 1])
    }
}

/// The entries of `testpaths`, where they count: no argument was given and the
/// session was started in the root directory.
pub open spec fn entries_of(
    n_args: int,
    lines: Seq<Seq<char>>,
    at_root: bool,
) -> Seq<Seq<char>> {
    if n_args == 0 && at_root {
        all_words(lines, lines.len() as int)
    } else {
        seq![]
    }
}

/// The part of an argument that names a module or a file.
pub open spec fn path_part_of(arg: Seq<char>) -> Seq<char> {
    head_of(arg, "::"@)
}

/// What is said where `testpaths` matches nothing.
pub open spec fn no_testpaths_text() -> Seq<char> {
    "No files were found in testpaths; consider removing or adjusting your testpaths configuration. Searching recursively from the current directory instead."@
}

// ---------------------------------------------------------------------------
// Executable functions
// ---------------------------------------------------------------------------

/// The words of some lines.
fn words_of_lines(lines: &[String]) -> (r: Vec<String>)
    ensures
        texts(r@) == all_words(texts(lines@), lines@.len() as int),
{
    let n: usize = lines.len();
    let mut r: Vec<String> = Vec::new();
    assert(texts(r@) =~= seq![]);
    let mut i: usize = 0;
    while i < n
        invariant
            n == lines@.len(),
            i <= n,
            texts(r@) == all_words(texts(lines@), i as int),
        decreases n - i,
    {
        let ghost before = r@;
        let words = split_whitespace(lines[i].as_str());
        append_texts(&mut r, words.as_slice());
        assert(texts(lines@)[i as int] == lines@[i as int]@);
        assert(texts(r@) =~= texts(before) + texts(words@));
        i += 1;
    }
    r
}

/// What `testpaths` makes of a session with this many arguments.
pub fn testpaths_plan(n_args: usize, lines: &[String], at_root: bool, pyargs: bool) -> (r:
    PathsPlan)
    ensures
        ({
            let entries = entries_of(n_args as int, texts(lines@), at_root);
            match r {
                PathsPlan::Keep => entries.len() == 0,
                PathsPlan::Modules(m) => entries.len() > 0 && pyargs && texts(m@) == entries,
                PathsPlan::Glob(g) => entries.len() > 0 && !pyargs && texts(g@) == entries,
            }
        }),
{
    if n_args == 0 && at_root {
        let entries = words_of_lines(lines);
        assert(texts(entries@).len() == entries@.len());
        if entries.len() == 0 {
            PathsPlan::Keep
        } else if pyargs {
            PathsPlan::Modules(entries)
        } else {
            PathsPlan::Glob(entries)
        }
    } else {
        PathsPlan::Keep
    }
}

/// The warning for what the patterns of `testpaths` matched: there is one where
/// they matched nothing, and the current directory is searched.
pub fn testpaths_warning(matched: usize) -> (r: Option<String>)
    ensures
        match r {
            Some(w) => matched == 0 && w@ == no_testpaths_text(),
            None => matched > 0,
        },
{
    if matched == 0 {
        Some(
            "No files were found in testpaths; consider removing or adjusting your testpaths configuration. Searching recursively from the current directory instead.".to_owned(),
        )
    } else {
        None
    }
}

/// The part of an argument that names a module or a file.
pub fn path_part(arg: &str) -> (r: String)
    ensures
        r@ == path_part_of(arg@),
{
    head(arg, "::")
}

/// The argument that a `--pyargs` argument stands for: `found` is the path of
/// the module that its first part names, `exists` whether a file of that name
/// is there.
pub fn resolve_pyarg(arg: &str, found: &Option<String>, exists: bool) -> (r: Result<String, String>)
    ensures
        match *found {
            Some(path) => r matches Ok(s) && s@ == path@ + arg@.skip(
                path_part_of(arg@).len() as int,
            ),
            None => if exists {
                r matches Ok(s) && s@ == arg@
            } else {
                r matches Err(m) && m@ == "module or package not found: "@ + arg@
                    + " (missing __init__.py?)"@
            },
        },
{
    match found {
        Some(path) => {
            let mut s: String = path.clone();
            let rest = rest_of(arg);
            s.append(rest.as_str());
            Ok(s)
        },
        None => if exists {
            Ok(arg.to_owned())
        } else {
            let mut message: String = "module or package not found: ".to_owned();
            message.append(arg);
            message.append(" (missing __init__.py?)");
            Err(message)
        },
    }
}

/// What follows the first part of an argument.
fn rest_of(arg: &str) -> (r: String)
    ensures
        r@ == arg@.skip(path_part_of(arg@).len() as int),
{
    let cs = crate::text::chars_of(arg);
    let p = crate::text::chars_of("::");
    let n: usize = cs.len();
    proof {
        first_at_bounds(arg@, "::"@);
        assert(cs@.skip(0) =~= arg@);
    }
    match crate::text::find_from(cs.as_slice(), p.as_slice(), 0) {
        Some(i) => {
            let r = crate::text::string_of(cs.as_slice(), i, n);
            assert(r@ =~= arg@.skip(path_part_of(arg@).len() as int));
            r
        },
        None => {
            let r = String::new();
            assert(r@ =~= arg@.skip(path_part_of(arg@).len() as int));
            r
        },
    }
}

// ---------------------------------------------------------------------------
// Laws
// ---------------------------------------------------------------------------

/// An argument is its first part followed by the rest, which is empty or
/// starts with "::".
pub proof fn argument_parts(arg: Seq<char>)
    ensures
        path_part_of(arg).is_prefix_of(arg),
        !occurs(arg, "::"@) ==> path_part_of(arg) == arg,
        occurs(arg, "::"@) ==> "::"@.is_prefix_of(arg.skip(path_part_of(arg).len() as int)),
{
    first_at_bounds(arg, "::"@);
    if let Some(i) = crate::text::first_at(arg, "::"@) {
        assert("::"@.is_prefix_of(arg.skip(i)));
    }
}

/// The settings for test paths are read word by word, line after line, and only
/// where no argument is given and the session starts at the root.
pub proof fn test_paths_are_read_in_order(lines: Seq<Seq<char>>, last: Seq<char>, n_args: int)
    ensures
        all_words(lines, 0).len() == 0,
        all_words(lines.push(last), lines.len() as int + 1) == all_words(lines, lines.len() as int)
            + words_of(last),
        n_args == 0 ==> entries_of(n_args, lines, true) == all_words(lines, lines.len() as int),
        n_args != 0 ==> entries_of(n_args, lines, true).len() == 0,
        entries_of(n_args, lines, false).len() == 0,
        no_testpaths_text()
            == "No files were found in testpaths; consider removing or adjusting your testpaths configuration. Searching recursively from the current directory instead."@,
{
    words_of_fewer(lines.push(last), lines, lines.len() as int);
}

proof fn words_of_fewer(all: Seq<Seq<char>>, few: Seq<Seq<char>>, n: int)
    requires
        0 <= n <= few.len() <= all.len(),
        forall|i: int| 0 <= i < few.len() ==> all[i] == #[trigger] few[i],
    ensures
        all_words(all, n) == all_words(few, n),
    decreases n,
{
    if n > 0 {
        words_of_fewer(all, few, n - 1);
        assert(all[n - 1] == few[n - 1]);
    }
}

} // verus!
