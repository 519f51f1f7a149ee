//! Banners, and the one-line message of a failure.

use vstd::prelude::*;

use crate::text::{
    byte_len, ends_with, filled, left_stripped, left_trimmed, lines, lines_of, repeat,
    right_trimmed, strip_prefix, strip_start, texts, trim, trim_end,
    trim_start, trimmed, chars_of,
};

verus! {

/// Marks owned by the core or bundled plugins.
pub open spec fn is_builtin_mark(name: Seq<char>) -> bool {
    ||| name == "skip"@
    ||| name == "skipif"@
    ||| name == "xfail"@
    ||| name == "parametrize"@
    ||| name == "usefixtures"@
    ||| name == "filterwarnings"@
    ||| name == "tryfirst"@
    ||| name == "trylast"@
    ||| name == "asyncio"@
    ||| name == "anyio"@
    ||| name == "benchmark"@
    ||| name == "no_cover"@
    ||| name == "xdist_group"@
    ||| name == "pytester_example_path"@
}

/// The larger of two numbers.
pub open spec fn larger(a: int, b: int) -> nat {
    (if a > b {
        a
    } else {
        b
    }) as nat
}

/// What a banner has to fill around a text of `n` bytes.
pub open spec fn banner_pad(n: int) -> int {
    if n < 80 {
        80 - n
    } else {
        0
    }
}

/// A label between blanks.
pub open spec fn spaced(label: Seq<char>) -> Seq<char> {
    seq![' '] + label + seq![' ']
}

/// `label` in the middle of a line of `fill`, at least one on either side.
pub open spec fn banner_of(label: Seq<char>, fill: char) -> Seq<char> {
    let mid = spaced(label);
    let pad = banner_pad(byte_len(mid) as int);
    filled(fill, larger(pad / 2, 1)) + mid + filled(fill, larger(pad - pad / 2, 1))
}

/// `s` in the middle of 80 columns of hyphens, the odd one on the right.
pub open spec fn ruled(s: Seq<char>) -> Seq<char> {
    let pad = banner_pad(s.len() as int);
    filled('-', (pad / 2) as nat) + s + filled('-', (pad - pad / 2) as nat)
}

/// The first line that starts with "E ", without that and the blanks after.
pub open spec fn first_e_line(ls: Seq<Seq<char>>) -> Option<Seq<char>>
    decreases ls.len(),
{
    if ls.len() == 0 {
        None
    } else if "E "@.is_prefix_of(ls[0]) {
        Some(left_trimmed(ls[0].skip(2)))
    } else {
        first_e_line(ls.skip(1))
    }
}

/// The first line that ends with `suffix`, white space aside.
pub open spec fn first_ending(ls: Seq<Seq<char>>, suffix: Seq<char>) -> Option<Seq<char>>
    decreases ls.len(),
{
    if ls.len() == 0 {
        None
    } else if suffix.is_suffix_of(right_trimmed(ls[0])) {
        Some(ls[0])
    } else {
        first_ending(ls.skip(1), suffix)
    }
}

/// The last line that is not blank.
pub open spec fn last_filled(ls: Seq<Seq<char>>) -> Option<Seq<char>>
    decreases ls.len(),
{
    if ls.len() == 0 {
        None
    } else if trimmed(ls.last()).len() > 0 {
        Some(ls.last())
    } else {
        last_filled(ls.drop_last())
    }
}

/// The message line of an exception group, without its frame.
pub open spec fn unframed(line: Seq<char>) -> Seq<char> {
    trimmed(left_stripped(trimmed(line), '|'))
}

/// The line of a traceback that says what happened: the first "E" line, else
/// the message line of an exception group, else the last line.
pub open spec fn message_line(text: Seq<char>) -> Option<Seq<char>> {
    let ls = lines_of(text);
    match first_e_line(ls) {
        Some(m) => Some(m),
        None => match first_ending(ls, "sub-exceptions)"@) {
            Some(line) => Some(unframed(line)),
            None => match first_ending(ls, "sub-exception)"@) {
                Some(line) => Some(unframed(line)),
                None => match last_filled(ls) {
                    Some(line) => Some(trimmed(line)),
                    None => None,
                },
            },
        },
    }
}

/// The one-line message of a failure; a blank one counts as none.
pub open spec fn message_of(text: Seq<char>) -> Option<Seq<char>> {
    match message_line(text) {
        Some(m) => if m.len() == 0 {
            None
        } else {
            Some(m)
        },
        None => None,
    }
}

/// Whether the mark belongs to the core or a bundled plugin.
pub fn builtin_mark(name: &str) -> (r: bool)
    ensures
        r == is_builtin_mark(name@),
{
    let name: String = name.to_owned();
    name == "skip".to_owned() || name == "skipif".to_owned() || name == "xfail".to_owned() || name
        == "parametrize".to_owned() || name == "usefixtures".to_owned() || name
        == "filterwarnings".to_owned() || name == "tryfirst".to_owned() || name
        == "trylast".to_owned() || name == "asyncio".to_owned() || name == "anyio".to_owned()
        || name == "benchmark".to_owned() || name == "no_cover".to_owned() || name
        == "xdist_group".to_owned() || name == "pytester_example_path".to_owned()
}

/// `label` in the middle of a line of `fill`.
pub fn center_with(label: &str, fill: char) -> (r: String)
    ensures
        r@ == banner_of(label@, fill),
{
    proof {
        reveal_strlit(" ");
        assert(" "@ =~= seq![' ']);
    }
    let mut mid: String = " ".to_owned();
    mid.append(label);
    mid.append(" ");
    assert(mid@ =~= spaced(label@));
    let n: usize = mid.as_str().len();
    let pad: usize = if n < 80 {
        80 - n
    } else {
        0
    };
    let left: usize = if pad / 2 > 1 {
        pad / 2
    } else {
        1
    };
    let right: usize = if pad - pad / 2 > 1 {
        pad - pad / 2
    } else {
        1
    };
    let mut r = repeat(fill, left);
    r.append(mid.as_str());
    r.append(repeat(fill, right).as_str());
    r
}

/// `label` in the middle of a line of `=`.
pub fn center_banner(label: &str) -> (r: String)
    ensures
        r@ == banner_of(label@, '='),
{
    center_with(label, '=')
}

/// `label` in the middle of a line of `_`.
pub fn center_named(label: &str) -> (r: String)
    ensures
        r@ == banner_of(label@, '_'),
{
    center_with(label, '_')
}

/// The title of a section of captured output, in a line of hyphens.
pub fn section_rule(title: &str) -> (r: String)
    ensures
        r@ == ruled(spaced(title@)),
{
    proof {
        reveal_strlit(" ");
        assert(" "@ =~= seq![' ']);
    }
    let mut mid: String = " ".to_owned();
    mid.append(title);
    mid.append(" ");
    assert(mid@ =~= spaced(title@));
    let n: usize = chars_of(mid.as_str()).len();
    let pad: usize = if n < 80 {
        80 - n
    } else {
        0
    };
    let mut r = repeat('-', pad / 2);
    r.append(mid.as_str());
    r.append(repeat('-', pad - pad / 2).as_str());
    r
}

/// The first line that starts with "E ", without that and the blanks after.
fn find_e_line(ls: &Vec<String>) -> (r: Option<String>)
    ensures
        match r {
            Some(m) => first_e_line(texts(ls@)) == Some(m@),
            None => first_e_line(texts(ls@)) is None,
        },
{
    proof {
        reveal_strlit("E ");
    }
    let mut i: usize = 0;
    assert(texts(ls@).skip(0) =~= texts(ls@));
    while i < ls.len()
        invariant
            i <= ls@.len(),
            "E "@.len() == 2,
            first_e_line(texts(ls@)) == first_e_line(texts(ls@).skip(i as int)),
        decreases ls@.len() - i,
    {
        assert(texts(ls@).skip(i as int).skip(1) =~= texts(ls@).skip(i + 1));
        assert(texts(ls@).skip(i as int)[0] == ls@[i as int]@);
        if let Some(rest) = strip_prefix(ls[i].as_str(), "E ") {
            return Some(trim_start(rest.as_str()));
        }
        i += 1;
    }
    None
}

/// The first line that ends with `suffix`, white space aside.
fn find_ending(ls: &Vec<String>, suffix: &str) -> (r: Option<String>)
    ensures
        match r {
            Some(m) => first_ending(texts(ls@), suffix@) == Some(m@),
            None => first_ending(texts(ls@), suffix@) is None,
        },
{
    let mut i: usize = 0;
    assert(texts(ls@).skip(0) =~= texts(ls@));
    while i < ls.len()
        invariant
            i <= ls@.len(),
            first_ending(texts(ls@), suffix@) == first_ending(texts(ls@).skip(i as int), suffix@),
        decreases ls@.len() - i,
    {
        assert(texts(ls@).skip(i as int).skip(1) =~= texts(ls@).skip(i + 1));
        assert(texts(ls@).skip(i as int)[0] == ls@[i as int]@);
        let end = trim_end(ls[i].as_str());
        if ends_with(end.as_str(), suffix) {
            return Some(ls[i].clone());
        }
        i += 1;
    }
    None
}

/// The last line that is not blank.
fn find_last_filled(ls: &Vec<String>) -> (r: Option<String>)
    ensures
        match r {
            Some(m) => last_filled(texts(ls@)) == Some(m@),
            None => last_filled(texts(ls@)) is None,
        },
{
    let mut n: usize = ls.len();
    assert(texts(ls@).take(n as int) =~= texts(ls@));
    while n > 0
        invariant
            n <= ls@.len(),
            last_filled(texts(ls@)) == last_filled(texts(ls@).take(n as int)),
        decreases n,
    {
        assert(texts(ls@).take(n as int).drop_last() =~= texts(ls@).take(n - 1));
        assert(texts(ls@).take(n as int).last() == ls@[n - 1]@);
        let t = trim(ls[n - 1].as_str());
        if !t.as_str().is_empty() {
            return Some(ls[n - 1].clone());
        }
        n -= 1;
    }
    None
}

/// The message line of an exception group, without its frame.
fn unframe(line: &str) -> (r: String)
    ensures
        r@ == unframed(line@),
{
    let t = trim(line);
    let bare = strip_start(t.as_str(), '|');
    trim(bare.as_str())
}

/// The one-line message of a failure: the first "E" line, else the message
/// line of an exception group, else the last line.
pub fn short_message(longrepr: &str) -> (r: Option<String>)
    ensures
        match r {
            Some(m) => message_of(longrepr@) == Some(m@),
            None => message_of(longrepr@) is None,
        },
{
    let ls = lines(longrepr);
    let found: Option<String> = match find_e_line(&ls) {
        Some(m) => Some(m),
        None => match find_ending(&ls, "sub-exceptions)") {
            Some(line) => Some(unframe(line.as_str())),
            None => match find_ending(&ls, "sub-exception)") {
                Some(line) => Some(unframe(line.as_str())),
                None => match find_last_filled(&ls) {
                    Some(line) => Some(trim(line.as_str())),
                    None => None,
                },
            },
        },
    };
    match found {
        Some(m) => if m.as_str().is_empty() {
            None
        } else {
            Some(m)
        },
        None => None,
    }
}

// ---------------------------------------------------------------------------
// Laws
// ---------------------------------------------------------------------------

/// A banner with an ASCII label of up to 76 characters is 80 columns wide, and
/// a longer label has one fill character on either side.
pub proof fn banner_width(label: Seq<char>, fill: char)
    requires
        vstd::utf8::is_ascii_chars(label),
        label.len() + 2 <= usize::MAX,
    ensures
        banner_of(label, fill).len() == larger(80, label.len() as int + 4),
{
    let mid = spaced(label);
    assert(vstd::utf8::is_ascii_chars(mid)) by {
        assert forall|i: int| 0 <= i < mid.len() implies '\0' <= #[trigger] mid[i]
            <= '\u{7f}' by {
            if 0 < i < mid.len() - 1 {
                assert(mid[i] == label[i - 1]);
            }
        }
    }
    vstd::utf8::is_ascii_chars_encode_utf8(mid);
    assert(byte_len(mid) == mid.len());
}

/// A message is never empty.
pub proof fn message_is_not_empty(text: Seq<char>)
    ensures
        message_of(text) matches Some(m) ==> m.len() > 0,
{
}

/// A banner has its label in the middle, spaces around it and the fill character on
/// both sides, at least once, and on the right once more where it cannot be even.
pub proof fn banners_are_centred(label: Seq<char>, fill: char) -> (sides: (nat, nat))
    ensures
        sides.0 >= 1,
        sides.0 <= sides.1 <= sides.0 + 1,
        banner_of(label, fill) == filled(fill, sides.0) + (seq![' '] + label + seq![' ']) + filled(
            fill,
            sides.1,
        ),
{
    let pad = banner_pad(byte_len(spaced(label)) as int);
    (larger(pad / 2, 1), larger(pad - pad / 2, 1))
}

/// A rule is filled up to 80 characters with dashes, evenly on both sides, and on
/// the right once more where it cannot be even; a longer text stays as it is.
pub proof fn rules_are_filled_up(s: Seq<char>)
    ensures
        s.len() >= 80 ==> ruled(s) == s,
        s.len() < 80 ==> ruled(s).len() == 80,
        s.len() < 80 ==> ruled(s) == filled('-', ((80 - s.len()) / 2) as nat) + s + filled(
            '-',
            (80 - s.len() - (80 - s.len()) / 2) as nat,
        ),
{
    if s.len() >= 80 {
        assert(ruled(s) =~= s);
    }
}

/// The marks that are built in: those for skipping and for expected failures, for
/// parameters, fixtures and warnings, for the order of hooks, for coroutines, for
/// measuring, and for workers and examples; no other is.
pub proof fn builtin_marks_are_known(name: Seq<char>)
    ensures
        name == "skip"@ || name == "skipif"@ || name == "xfail"@ ==> is_builtin_mark(name),
        name == "parametrize"@ || name == "usefixtures"@ || name == "filterwarnings"@
            ==> is_builtin_mark(name),
        name == "tryfirst"@ || name == "trylast"@ || name == "asyncio"@ || name == "anyio"@
            ==> is_builtin_mark(name),
        name == "benchmark"@ || name == "no_cover"@ || name == "xdist_group"@ || name
            == "pytester_example_path"@ ==> is_builtin_mark(name),
        is_builtin_mark(name) ==> {
            ||| name == "skip"@ || name == "skipif"@ || name == "xfail"@
            ||| name == "parametrize"@ || name == "usefixtures"@ || name == "filterwarnings"@
            ||| name == "tryfirst"@ || name == "trylast"@ || name == "asyncio"@ || name == "anyio"@
            ||| name == "benchmark"@ || name == "no_cover"@ || name == "xdist_group"@ || name
                == "pytester_example_path"@
        },
{
}

/// The short message of a failure is what its first line marked with `E ` says;
/// without such a line, and without sub-exceptions, it is the last line that is not
/// empty.
pub proof fn short_messages_are_marked(text: Seq<char>, k: int)
    requires
        0 <= k < lines_of(text).len(),
    ensures
        "E "@.is_prefix_of(lines_of(text)[k]) && (forall|j: int|
            0 <= j < k ==> !"E "@.is_prefix_of(#[trigger] lines_of(text)[j])) ==> message_line(text)
            == Some(left_trimmed(lines_of(text)[k].skip(2))),
        (forall|j: int|
            0 <= j < lines_of(text).len() ==> !"E "@.is_prefix_of(#[trigger] lines_of(text)[j])
                && !"sub-exceptions)"@.is_suffix_of(right_trimmed(lines_of(text)[j]))
                && !"sub-exception)"@.is_suffix_of(right_trimmed(lines_of(text)[j]))) && trimmed(
            lines_of(text)[k],
        ).len() > 0 && (forall|j: int|
            k < j < lines_of(text).len() ==> trimmed(#[trigger] lines_of(text)[j]).len() == 0)
            ==> message_line(text) == Some(trimmed(lines_of(text)[k])),
{
    let ls = lines_of(text);
    if "E "@.is_prefix_of(ls[k]) && (forall|j: int|
        0 <= j < k ==> !"E "@.is_prefix_of(#[trigger] ls[j])) {
        first_e_is(ls, k);
    }
    if (forall|j: int|
        0 <= j < ls.len() ==> !"E "@.is_prefix_of(#[trigger] ls[j])
            && !"sub-exceptions)"@.is_suffix_of(right_trimmed(ls[j]))
            && !"sub-exception)"@.is_suffix_of(right_trimmed(ls[j]))) && trimmed(ls[k]).len() > 0
        && (forall|j: int| k < j < ls.len() ==> trimmed(#[trigger] ls[j]).len() == 0) {
        no_e_line(ls);
        no_ending(ls, "sub-exceptions)"@);
        no_ending(ls, "sub-exception)"@);
        last_filled_is(ls, k);
    }
}

proof fn first_e_is(ls: Seq<Seq<char>>, k: int)
    requires
        0 <= k < ls.len(),
        "E "@.is_prefix_of(ls[k]),
        forall|j: int| 0 <= j < k ==> !"E "@.is_prefix_of(#[trigger] ls[j]),
    ensures
        first_e_line(ls) == Some(left_trimmed(ls[k].skip(2))),
    decreases ls.len(),
{
    if k > 0 {
        let rest = ls.skip(1);
        assert(!"E "@.is_prefix_of(ls[0]));
        assert(rest[k - 1] == ls[k]);
        assert forall|j: int| 0 <= j < k - 1 implies !"E "@.is_prefix_of(#[trigger] rest[j]) by {
            assert(rest[j] == ls[j + 1]);
        }
        first_e_is(rest, k - 1);
    }
}

proof fn no_e_line(ls: Seq<Seq<char>>)
    requires
        forall|j: int| 0 <= j < ls.len() ==> !"E "@.is_prefix_of(#[trigger] ls[j]),
    ensures
        first_e_line(ls) is None,
    decreases ls.len(),
{
    if ls.len() > 0 {
        let rest = ls.skip(1);
        assert(!"E "@.is_prefix_of(ls[0]));
        assert forall|j: int| 0 <= j < rest.len() implies !"E "@.is_prefix_of(
            #[trigger] rest[j],
        ) by {
            assert(rest[j] == ls[j + 1]);
        }
        no_e_line(rest);
    }
}

proof fn no_ending(ls: Seq<Seq<char>>, suffix: Seq<char>)
    requires
        forall|j: int|
            0 <= j < ls.len() ==> !suffix.is_suffix_of(right_trimmed(#[trigger] ls[j])),
    ensures
        first_ending(ls, suffix) is None,
    decreases ls.len(),
{
    if ls.len() > 0 {
        let rest = ls.skip(1);
        assert(!suffix.is_suffix_of(right_trimmed(ls[0])));
        assert forall|j: int| 0 <= j < rest.len() implies !suffix.is_suffix_of(
            right_trimmed(#[trigger] rest[j]),
        ) by {
            assert(rest[j] == ls[j + 1]);
        }
        no_ending(rest, suffix);
    }
}

proof fn last_filled_is(ls: Seq<Seq<char>>, k: int)
    requires
        0 <= k < ls.len(),
        trimmed(ls[k]).len() > 0,
        forall|j: int| k < j < ls.len() ==> trimmed(#[trigger] ls[j]).len() == 0,
    ensures
        last_filled(ls) == Some(ls[k]),
    decreases ls.len(),
{
    if k < ls.len() - 1 {
        let init = ls.drop_last();
        assert(trimmed(ls[ls.len() - 1]).len() == 0);
        assert(init[k] == ls[k]);
        assert forall|j: int| k < j < init.len() implies trimmed(#[trigger] init[j]).len()
            == 0 by {
            assert(init[j] == ls[j]);
        }
        last_filled_is(init, k);
    }
}

} // verus!
