//! Text as sequences of characters: the spec functions that the rest of the
//! library states its contracts over, and the executable functions that
//! compute them.

use vstd::prelude::*;

verus! {

/// `String::push` appends one character to the end of a string. This is the
/// one operation on strings that is taken from the standard library on its
/// word; everything else here is built from it.
pub assume_specification[ String::push ](s: &mut String, c: char)
    ensures
        final(s)@ == old(s)@.push(c),
;

// ---------------------------------------------------------------------------
// Model
// ---------------------------------------------------------------------------

/// The contents of a list of strings.
pub open spec fn texts(v: Seq<String>) -> Seq<Seq<char>> {
    Seq::new(v.len(), |i: int| v[i]@)
}

/// The text of an optional string.
pub open spec fn opt_text(s: Option<String>) -> Option<Seq<char>> {
    match s {
        Some(s) => Some(s@),
        None => None,
    }
}

/// The text of an optional string slice.
pub open spec fn opt_str(s: Option<&str>) -> Option<Seq<char>> {
    match s {
        Some(s) => Some(s@),
        None => None,
    }
}

/// Whether `c` is Unicode white space.
pub open spec fn is_space(c: char) -> bool {
    ||| 0x9 <= c as int <= 0xd
    ||| c as int == 0x20
    ||| c as int == 0x85
    ||| c as int == 0xa0
    ||| c as int == 0x1680
    ||| 0x2000 <= c as int <= 0x200a
    ||| c as int == 0x2028
    ||| c as int == 0x2029
    ||| c as int == 0x202f
    ||| c as int == 0x205f
    ||| c as int == 0x3000
}

/// The position of the first occurrence of `p` in `s`.
pub open spec fn first_at(s: Seq<char>, p: Seq<char>) -> Option<int>
    decreases s.len(),
{
    if p.is_prefix_of(s) {
        Some(0)
    } else if s.len() == 0 {
        None
    } else {
        match first_at(s.skip(1), p) {
            Some(i) => Some(i + 1),
            None => None,
        }
    }
}

/// Whether `p` occurs in `s`.
pub open spec fn occurs(s: Seq<char>, p: Seq<char>) -> bool {
    first_at(s, p) is Some
}

/// The position of the last occurrence of the character `c` in `s`.
pub open spec fn last_at(s: Seq<char>, c: char) -> Option<int>
    decreases s.len(),
{
    if s.len() == 0 {
        None
    } else if s.last() == c {
        Some(s.len() - 1)
    } else {
        last_at(s.drop_last(), c)
    }
}

/// What stands before and after the last `c`.
pub open spec fn last_halves(s: Seq<char>, c: char) -> Option<(Seq<char>, Seq<char>)> {
    match last_at(s, c) {
        Some(i) => Some((s.take(i), s.skip(i + 1))),
        None => None,
    }
}

/// The position of the last occurrence of `p` in `s`.
pub open spec fn last_found(s: Seq<char>, p: Seq<char>) -> Option<int>
    decreases s.len(),
{
    if p.is_suffix_of(s) {
        Some(s.len() - p.len())
    } else if s.len() == 0 {
        None
    } else {
        last_found(s.drop_last(), p)
    }
}

/// What stands before and after the last occurrence of `p`.
pub open spec fn outer_halves(s: Seq<char>, p: Seq<char>) -> Option<(Seq<char>, Seq<char>)> {
    match last_found(s, p) {
        Some(i) => Some((s.take(i), s.skip(i + p.len()))),
        None => None,
    }
}

/// What stands before and after the first occurrence of `p`.
pub open spec fn halves(s: Seq<char>, p: Seq<char>) -> Option<(Seq<char>, Seq<char>)> {
    match first_at(s, p) {
        Some(i) => Some((s.take(i), s.skip(i + p.len()))),
        None => None,
    }
}

/// The part of `s` before the first occurrence of `p`, or all of it.
pub open spec fn head_of(s: Seq<char>, p: Seq<char>) -> Seq<char> {
    match first_at(s, p) {
        Some(i) => s.take(i),
        None => s,
    }
}

/// The pieces of `s` between the occurrences of `p`, taken from the left.
pub open spec fn split_by(s: Seq<char>, p: Seq<char>) -> Seq<Seq<char>>
    decreases s.len(),
{
    match first_at(s, p) {
        Some(i) => if 0 < p.len() && 0 <= i && i + p.len() <= s.len() {
            seq![s.take(i)] + split_by(s.skip(i + p.len()), p)
        } else {
            seq![s]
        },
        None => seq![s],
    }
}

/// `s` without its leading white space.
pub open spec fn left_trimmed(s: Seq<char>) -> Seq<char>
    decreases s.len(),
{
    if s.len() > 0 && is_space(s[0]) {
        left_trimmed(s.skip(1))
    } else {
        s
    }
}

/// `s` without its trailing white space.
pub open spec fn right_trimmed(s: Seq<char>) -> Seq<char>
    decreases s.len(),
{
    if s.len() > 0 && is_space(s.last()) {
        right_trimmed(s.drop_last())
    } else {
        s
    }
}

/// `s` without white space at either end.
pub open spec fn trimmed(s: Seq<char>) -> Seq<char> {
    right_trimmed(left_trimmed(s))
}

/// `s` without the `c`s that it starts with.
pub open spec fn left_stripped(s: Seq<char>, c: char) -> Seq<char>
    decreases s.len(),
{
    if s.len() > 0 && s[0] == c {
        left_stripped(s.skip(1), c)
    } else {
        s
    }
}

/// `s` without the `c`s that it ends with.
pub open spec fn right_stripped(s: Seq<char>, c: char) -> Seq<char>
    decreases s.len(),
{
    if s.len() > 0 && s.last() == c {
        right_stripped(s.drop_last(), c)
    } else {
        s
    }
}

/// `s` without the copies of `p` that it starts with.
pub open spec fn unprefixed(s: Seq<char>, p: Seq<char>) -> Seq<char>
    decreases s.len(),
{
    if p.len() > 0 && p.is_prefix_of(s) {
        unprefixed(s.skip(p.len() as int), p)
    } else {
        s
    }
}

/// A word, if anything was read of one.
pub open spec fn word_if(word: Seq<char>) -> Seq<Seq<char>> {
    if word.len() == 0 {
        seq![]
    } else {
        seq![word]
    }
}

/// The words of `s` when `word` has been read of the current one.
pub open spec fn words_from(s: Seq<char>, word: Seq<char>) -> Seq<Seq<char>>
    decreases s.len(),
{
    if s.len() == 0 {
        word_if(word)
    } else if is_space(s[0]) {
        word_if(word) + words_from(s.skip(1), seq![])
    } else {
        words_from(s.skip(1), word.push(s[0]))
    }
}

/// The words of `s`: what stands between white space.
pub open spec fn words_of(s: Seq<char>) -> Seq<Seq<char>> {
    words_from(s, seq![])
}

/// The number of bytes of `s`.
pub open spec fn byte_len(s: Seq<char>) -> usize {
    vstd::utf8::encode_utf8(s).len() as usize
}

/// "s" unless there is just one.
pub open spec fn plural_of(n: nat) -> Seq<char> {
    if n == 1 {
        ""@
    } else {
        "s"@
    }
}

/// A line that was ended by a line feed, without a carriage return before it.
pub open spec fn without_cr(s: Seq<char>) -> Seq<char> {
    if s.len() > 0 && s.last() == '\r' {
        s.drop_last()
    } else {
        s
    }
}

/// The lines of `s`: a line feed, with a carriage return before it or not,
/// ends a line; what is left after the last one is a line if it is not empty.
pub open spec fn lines_of(s: Seq<char>) -> Seq<Seq<char>>
    decreases s.len(),
{
    match first_at(s, seq!['\n']) {
        Some(i) => if 0 <= i < s.len() {
            seq![without_cr(s.take(i))] + lines_of(s.skip(i + 1))
        } else {
            seq![]
        },
        None => if s.len() == 0 {
            seq![]
        } else {
            seq![s]
        },
    }
}

/// `parts` one after the other, with `sep` between each two.
pub open spec fn joined(parts: Seq<Seq<char>>, sep: Seq<char>) -> Seq<char>
    decreases parts.len(),
{
    if parts.len() == 0 {
        seq![]
    } else if parts.len() == 1 {
        parts[0]
    } else {
        joined(parts.drop_last(), sep) + sep + parts.last()
    }
}

/// `c`, `n` times.
pub open spec fn filled(c: char, n: nat) -> Seq<char> {
    Seq::new(n, |i: int| c)
}

/// The decimal digit for `d`.
pub open spec fn digit(d: nat) -> char {
    ('0' as int + d) as char
}

/// `n` in decimal.
pub open spec fn decimal_of(n: nat) -> Seq<char>
    decreases n,
{
    if n < 10 {
        seq![digit(n)]
    } else {
        decimal_of(n / 10).push(digit(n % 10))
    }
}

// ---------------------------------------------------------------------------
// Facts about the model
// ---------------------------------------------------------------------------

pub proof fn texts_push(v: Seq<String>, s: String)
    ensures
        texts(v.push(s)) == texts(v).push(s@),
{
    assert(texts(v.push(s)) =~= texts(v).push(s@));
}

/// An occurrence lies inside the text.
pub proof fn first_at_bounds(s: Seq<char>, p: Seq<char>)
    ensures
        first_at(s, p) matches Some(i) ==> {
            &&& 0 <= i
            &&& i + p.len() <= s.len()
            &&& s.subrange(i, i + p.len()) == p
        },
    decreases s.len(),
{
    if p.is_prefix_of(s) {
        assert(s.subrange(0, p.len() as int) =~= p);
    } else if s.len() > 0 {
        first_at_bounds(s.skip(1), p);
        if let Some(i) = first_at(s.skip(1), p) {
            assert(s.subrange(i + 1, i + 1 + p.len()) =~= s.skip(1).subrange(i, i + p.len()));
        }
    }
}

/// The first occurrence is found: none starts further left.
pub proof fn first_at_least(s: Seq<char>, p: Seq<char>, k: int)
    requires
        0 <= k,
        k + p.len() <= s.len(),
        s.subrange(k, k + p.len()) == p,
    ensures
        first_at(s, p) matches Some(i) && i <= k,
    decreases s.len(),
{
    if p.is_prefix_of(s) {
    } else {
        if k == 0 {
            assert(p =~= s.subrange(0, p.len() as int));
        }
        assert(s.skip(1).subrange(k - 1, k - 1 + p.len()) =~= s.subrange(k, k + p.len()));
        first_at_least(s.skip(1), p, k - 1);
    }
}

/// A character that is found lies inside the text.
pub proof fn last_at_bounds(s: Seq<char>, c: char)
    ensures
        last_at(s, c) matches Some(i) ==> 0 <= i < s.len(),
    decreases s.len(),
{
    if s.len() > 0 {
        last_at_bounds(s.drop_last(), c);
    }
}

/// A single character occurs exactly where the text holds it.
pub proof fn first_at_char(s: Seq<char>, c: char)
    ensures
        first_at(s, seq![c]) is Some <==> s.contains(c),
        first_at(s, seq![c]) matches Some(i) ==> 0 <= i < s.len() && s[i] == c && (forall|j: int|
            0 <= j < i ==> s[j] != c),
{
    first_at_bounds(s, seq![c]);
    if let Some(i) = first_at(s, seq![c]) {
        assert(s.subrange(i, i + 1)[0] == c);
        assert forall|j: int| 0 <= j < i implies s[j] != c by {
            if s[j] == c {
                assert(s.subrange(j, j + 1) =~= seq![c]);
                first_at_least(s, seq![c], j);
            }
        }
    }
    if s.contains(c) {
        let k = choose|k: int| 0 <= k < s.len() && s[k] == c;
        assert(s.subrange(k, k + 1) =~= seq![c]);
        first_at_least(s, seq![c], k);
    }
}

// ---------------------------------------------------------------------------
// Executable functions
// ---------------------------------------------------------------------------

/// The characters of `s`.
pub fn chars_of(s: &str) -> (r: Vec<char>)
    ensures
        r@ == s@,
{
    let mut r: Vec<char> = Vec::new();
    for c in it: s.chars()
        invariant
            r@ == it.seq().take(it.index() as int),
            it.seq() == s@,
    {
        r.push(c);
    }
    r
}

/// The string made of `cs[from..to]`.
pub fn string_of(cs: &[char], from: usize, to: usize) -> (r: String)
    requires
        from <= to <= cs@.len(),
    ensures
        r@ == cs@.subrange(from as int, to as int),
{
    let mut r = String::new();
    let mut i: usize = from;
    while i < to
        invariant
            from <= i <= to <= cs@.len(),
            r@ == cs@.subrange(from as int, i as int),
        decreases to - i,
    {
        r.push(cs[i]);
        i += 1;
    }
    r
}

/// Whether `a` and `b` hold the same text.
pub fn same(a: &str, b: &str) -> (r: bool)
    ensures
        r == (a@ == b@),
{
    a.to_owned() == b.to_owned()
}

/// The number of the character `c`.
pub fn code_point(c: char) -> (r: u32)
    ensures
        r == c as int,
{
    c as u32
}

/// Whether `c` is Unicode white space.
pub fn is_whitespace(c: char) -> (r: bool)
    ensures
        r == is_space(c),
{
    let n: u32 = c as u32;
    (0x9 <= n && n <= 0xd) || n == 0x20 || n == 0x85 || n == 0xa0 || n == 0x1680 || (0x2000 <= n && n
        <= 0x200a) || n == 0x2028 || n == 0x2029 || n == 0x202f || n == 0x205f || n == 0x3000
}

/// Whether `p` stands in `cs` at `at`.
pub fn stands_at(cs: &[char], p: &[char], at: usize) -> (r: bool)
    requires
        at <= cs@.len(),
    ensures
        r == p@.is_prefix_of(cs@.skip(at as int)),
{
    if p.len() > cs.len() - at {
        return false;
    }
    let mut i: usize = 0;
    while i < p.len()
        invariant
            i <= p@.len(),
            at + p@.len() <= cs@.len() <= usize::MAX,
            forall|j: int| 0 <= j < i ==> p@[j] == cs@[at + j],
        decreases p@.len() - i,
    {
        if cs[at + i] != p[i] {
            assert(cs@.skip(at as int)[i as int] != p@[i as int]);
            return false;
        }
        i += 1;
    }
    assert(p@ =~= cs@.skip(at as int).subrange(0, p@.len() as int));
    true
}

/// Whether `s` starts with `p`.
pub fn starts_with(s: &str, p: &str) -> (r: bool)
    ensures
        r == p@.is_prefix_of(s@),
{
    let cs = chars_of(s);
    let ps = chars_of(p);
    assert(cs@.skip(0) =~= cs@);
    stands_at(&cs, &ps, 0)
}

/// Whether `s` ends with `p`.
pub fn ends_with(s: &str, p: &str) -> (r: bool)
    ensures
        r == p@.is_suffix_of(s@),
{
    let cs = chars_of(s);
    let ps = chars_of(p);
    if ps.len() > cs.len() {
        return false;
    }
    let at: usize = cs.len() - ps.len();
    assert(cs@.skip(at as int).subrange(0, ps@.len() as int) =~= cs@.subrange(
        at as int,
        cs@.len() as int,
    ));
    stands_at(&cs, &ps, at)
}

/// The position of the first occurrence of `p` in `cs` at or after `from`.
pub fn find_from(cs: &[char], p: &[char], from: usize) -> (r: Option<usize>)
    requires
        from <= cs@.len(),
    ensures
        match first_at(cs@.skip(from as int), p@) {
            Some(i) => r matches Some(j) && j == from + i && 0 <= i && j + p@.len() <= cs@.len()
                <= usize::MAX,
            None => r is None,
        },
{
    let n: usize = cs.len();
    proof {
        first_at_bounds(cs@.skip(from as int), p@);
    }
    let mut i: usize = from;
    while i <= n
        invariant
            n == cs@.len(),
            from <= i <= cs@.len() + 1,
            i <= cs@.len() ==> match first_at(cs@.skip(i as int), p@) {
                Some(k) => first_at(cs@.skip(from as int), p@) == Some(i - from + k),
                None => first_at(cs@.skip(from as int), p@) is None,
            },
            i == cs@.len() + 1 ==> first_at(cs@.skip(from as int), p@) is None,
            match first_at(cs@.skip(from as int), p@) {
                Some(i) => 0 <= i && from + i + p@.len() <= cs@.len(),
                None => true,
            },
        decreases cs@.len() + 1 - i,
    {
        if stands_at(cs, p, i) {
            return Some(i);
        }
        assert(i < cs@.len() ==> cs@.skip(i as int).skip(1) =~= cs@.skip(i + 1));
        if i == n {
            return None;
        }
        i += 1;
    }
    None
}

/// Whether `p` occurs in `s`.
pub fn contains(s: &str, p: &str) -> (r: bool)
    ensures
        r == occurs(s@, p@),
{
    let cs = chars_of(s);
    let ps = chars_of(p);
    assert(cs@.skip(0) =~= cs@);
    find_from(&cs, &ps, 0).is_some()
}

/// `s` without the prefix `p`, where it has it.
pub fn strip_prefix(s: &str, p: &str) -> (r: Option<String>)
    ensures
        match r {
            Some(rest) => p@.is_prefix_of(s@) && rest@ == s@.skip(p@.len() as int),
            None => !p@.is_prefix_of(s@),
        },
{
    if !starts_with(s, p) {
        return None;
    }
    let cs = chars_of(s);
    let ps = chars_of(p);
    Some(string_of(&cs, ps.len(), cs.len()))
}

/// What stands before and after the first occurrence of `p` in `s`.
pub fn split_once(s: &str, p: &str) -> (r: Option<(String, String)>)
    ensures
        match r {
            Some((a, b)) => halves(s@, p@) == Some((a@, b@)),
            None => halves(s@, p@) is None,
        },
{
    let cs = chars_of(s);
    let ps = chars_of(p);
    assert(cs@.skip(0) =~= cs@);
    let n: usize = cs.len();
    match find_from(&cs, &ps, 0) {
        Some(i) => {
            let a = string_of(&cs, 0, i);
            let b = string_of(&cs, i + ps.len(), n);
            assert(a@ =~= s@.take(i as int));
            assert(b@ =~= s@.skip(i + p@.len()));
            Some((a, b))
        },
        None => None,
    }
}

/// The part of `s` before the first occurrence of `p`, or all of it.
pub fn head(s: &str, p: &str) -> (r: String)
    ensures
        r@ == head_of(s@, p@),
{
    match split_once(s, p) {
        Some((a, _)) => a,
        None => s.to_owned(),
    }
}

/// What stands before and after the last `c` in `s`.
pub fn split_last(s: &str, c: char) -> (r: Option<(String, String)>)
    ensures
        match r {
            Some((a, b)) => last_halves(s@, c) == Some((a@, b@)),
            None => last_halves(s@, c) is None,
        },
{
    let cs = chars_of(s);
    let mut n: usize = cs.len();
    assert(cs@.take(n as int) =~= cs@);
    while n > 0
        invariant
            n <= cs@.len(),
            cs@ == s@,
            last_at(cs@, c) == last_at(cs@.take(n as int), c),
        decreases n,
    {
        assert(cs@.take(n as int).drop_last() =~= cs@.take(n - 1));
        if cs[n - 1] == c {
            let a = string_of(&cs, 0, n - 1);
            let b = string_of(&cs, n, cs.len());
            assert(a@ =~= s@.take(n - 1));
            assert(b@ =~= s@.skip(n as int));
            return Some((a, b));
        }
        n -= 1;
    }
    None
}

/// What stands before and after the last occurrence of `p` in `s`.
pub fn split_at_last(s: &str, p: &str) -> (r: Option<(String, String)>)
    ensures
        match r {
            Some((a, b)) => outer_halves(s@, p@) == Some((a@, b@)),
            None => outer_halves(s@, p@) is None,
        },
{
    let cs = chars_of(s);
    let ps = chars_of(p);
    let m: usize = ps.len();
    let mut n: usize = cs.len();
    assert(cs@.take(n as int) =~= cs@);
    loop
        invariant
            n <= cs@.len(),
            cs@ == s@,
            ps@ == p@,
            m == ps@.len(),
            last_found(cs@, p@) == last_found(cs@.take(n as int), p@),
        decreases n,
    {
        let ghost top = cs@.take(n as int);
        if m <= n && stands_at(&cs, &ps, n - m) {
            assert(top.subrange(n - m, n as int) =~= cs@.skip(n - m).subrange(0, m as int));
            let a = string_of(&cs, 0, n - m);
            let b = string_of(&cs, n, cs.len());
            assert(a@ =~= s@.take(n - m));
            assert(b@ =~= s@.skip(n as int));
            return Some((a, b));
        }
        proof {
            if p@.is_suffix_of(top) {
                assert(cs@.skip(n - m).subrange(0, m as int) =~= top.subrange(n - m, n as int));
            }
        }
        if n == 0 {
            return None;
        }
        assert(top.drop_last() =~= cs@.take(n - 1));
        n -= 1;
    }
}

/// The pieces of `s` between the occurrences of `p`.
pub fn split(s: &str, p: &str) -> (r: Vec<String>)
    requires
        p@.len() > 0,
    ensures
        texts(r@) == split_by(s@, p@),
{
    let cs = chars_of(s);
    let ps = chars_of(p);
    let mut r: Vec<String> = Vec::new();
    let mut at: usize = 0;
    assert(cs@.skip(0) =~= cs@);
    assert(texts(r@) =~= seq![]);
    assert(texts(r@) + split_by(cs@.skip(0), ps@) =~= split_by(s@, p@));
    loop
        invariant
            at <= cs@.len(),
            cs@ == s@,
            ps@ == p@,
            p@.len() > 0,
            texts(r@) + split_by(cs@.skip(at as int), ps@) == split_by(s@, p@),
        decreases cs@.len() - at,
    {
        match find_from(&cs, &ps, at) {
            Some(i) => {
                let piece = string_of(&cs, at, i);
                let ghost rest = cs@.skip(at as int);
                assert(piece@ =~= rest.take(i - at));
                assert(rest.skip(i - at + ps@.len()) =~= cs@.skip(i + ps@.len()));
                proof {
                    texts_push(r@, piece);
                }
                assert(texts(r@).push(piece@) + split_by(cs@.skip(i + ps@.len()), ps@) =~= texts(r@)
                    + split_by(rest, ps@));
                r.push(piece);
                at = i + ps.len();
            },
            None => {
                let piece = string_of(&cs, at, cs.len());
                assert(piece@ =~= cs@.skip(at as int));
                proof {
                    texts_push(r@, piece);
                }
                assert(texts(r@).push(piece@) =~= texts(r@) + split_by(cs@.skip(at as int), ps@));
                r.push(piece);
                return r;
            },
        }
    }
}

/// `s` without its leading white space.
pub fn trim_start(s: &str) -> (r: String)
    ensures
        r@ == left_trimmed(s@),
{
    let cs = chars_of(s);
    let mut i: usize = 0;
    assert(cs@.skip(0) =~= cs@);
    while i < cs.len() && is_whitespace(cs[i])
        invariant
            i <= cs@.len(),
            cs@ == s@,
            left_trimmed(cs@.skip(i as int)) == left_trimmed(s@),
        decreases cs@.len() - i,
    {
        assert(cs@.skip(i as int).skip(1) =~= cs@.skip(i + 1));
        i += 1;
    }
    string_of(&cs, i, cs.len())
}

/// `s` without its trailing white space.
pub fn trim_end(s: &str) -> (r: String)
    ensures
        r@ == right_trimmed(s@),
{
    let cs = chars_of(s);
    let mut n: usize = cs.len();
    assert(cs@.take(n as int) =~= cs@);
    while n > 0 && is_whitespace(cs[n - 1])
        invariant
            n <= cs@.len(),
            cs@ == s@,
            right_trimmed(cs@.take(n as int)) == right_trimmed(s@),
        decreases n,
    {
        assert(cs@.take(n as int).drop_last() =~= cs@.take(n - 1));
        n -= 1;
    }
    let r = string_of(&cs, 0, n);
    assert(r@ =~= cs@.take(n as int));
    r
}

/// `s` without white space at either end.
pub fn trim(s: &str) -> (r: String)
    ensures
        r@ == trimmed(s@),
{
    let left = trim_start(s);
    trim_end(left.as_str())
}

/// `s` without the `c`s that it starts with.
pub fn strip_start(s: &str, c: char) -> (r: String)
    ensures
        r@ == left_stripped(s@, c),
{
    let cs = chars_of(s);
    let mut i: usize = 0;
    assert(cs@.skip(0) =~= cs@);
    while i < cs.len() && cs[i] == c
        invariant
            i <= cs@.len(),
            cs@ == s@,
            left_stripped(cs@.skip(i as int), c) == left_stripped(s@, c),
        decreases cs@.len() - i,
    {
        assert(cs@.skip(i as int).skip(1) =~= cs@.skip(i + 1));
        i += 1;
    }
    string_of(&cs, i, cs.len())
}

/// `s` without the `c`s that it ends with.
pub fn strip_end(s: &str, c: char) -> (r: String)
    ensures
        r@ == right_stripped(s@, c),
{
    let cs = chars_of(s);
    let mut n: usize = cs.len();
    assert(cs@.take(n as int) =~= cs@);
    while n > 0 && cs[n - 1] == c
        invariant
            n <= cs@.len(),
            cs@ == s@,
            right_stripped(cs@.take(n as int), c) == right_stripped(s@, c),
        decreases n,
    {
        assert(cs@.take(n as int).drop_last() =~= cs@.take(n - 1));
        n -= 1;
    }
    let r = string_of(&cs, 0, n);
    assert(r@ =~= cs@.take(n as int));
    r
}

/// `s` without the copies of `p` that it starts with.
pub fn strip_prefixes(s: &str, p: &str) -> (r: String)
    ensures
        r@ == unprefixed(s@, p@),
{
    let cs = chars_of(s);
    let ps = chars_of(p);
    let n: usize = cs.len();
    let mut i: usize = 0;
    assert(cs@.skip(0) =~= cs@);
    while ps.len() > 0 && stands_at(&cs, &ps, i)
        invariant
            i <= n == cs@.len(),
            cs@ == s@,
            ps@ == p@,
            unprefixed(cs@.skip(i as int), p@) == unprefixed(s@, p@),
        decreases cs@.len() - i,
    {
        assert(p@.len() <= cs@.skip(i as int).len());
        assert(cs@.skip(i as int).skip(ps@.len() as int) =~= cs@.skip(i + ps@.len()));
        i += ps.len();
    }
    string_of(&cs, i, n)
}

/// Appends the word `cs[from..to]`, if it is not empty.
fn push_word(cs: &[char], from: usize, to: usize, words: &mut Vec<String>)
    requires
        from <= to <= cs@.len(),
    ensures
        texts(final(words)@) == texts(old(words)@) + word_if(cs@.subrange(from as int, to as int)),
{
    let ghost before = words@;
    if from < to {
        let word = string_of(cs, from, to);
        proof {
            texts_push(words@, word);
        }
        words.push(word);
    }
    assert(texts(words@) =~= texts(before) + word_if(cs@.subrange(from as int, to as int)));
}

/// The words of `s`.
pub fn split_whitespace(s: &str) -> (r: Vec<String>)
    ensures
        texts(r@) == words_of(s@),
{
    let cs = chars_of(s);
    let mut words: Vec<String> = Vec::new();
    let mut from: usize = 0;
    let mut i: usize = 0;
    assert(cs@.skip(0) =~= cs@);
    assert(cs@.subrange(0, 0) =~= seq![]);
    assert(texts(words@) + words_from(cs@.skip(0), cs@.subrange(0, 0)) =~= words_of(s@));
    while i < cs.len()
        invariant
            from <= i <= cs@.len(),
            cs@ == s@,
            texts(words@) + words_from(cs@.skip(i as int), cs@.subrange(from as int, i as int))
                == words_of(s@),
        decreases cs@.len() - i,
    {
        let c: char = cs[i];
        let ghost rest = cs@.skip(i as int);
        let ghost word = cs@.subrange(from as int, i as int);
        let ghost before = texts(words@);
        assert(rest.skip(1) =~= cs@.skip(i + 1));
        assert(cs@.subrange(i + 1, i + 1) =~= seq![]);
        if is_whitespace(c) {
            push_word(&cs, from, i, &mut words);
            assert(texts(words@) + words_from(rest.skip(1), seq![]) =~= before + words_from(
                rest,
                word,
            ));
            from = i + 1;
        } else {
            assert(word.push(c) =~= cs@.subrange(from as int, i + 1));
        }
        i += 1;
    }
    push_word(&cs, from, i, &mut words);
    words
}

/// "s" unless there is just one.
pub fn plural(n: usize) -> (r: &'static str)
    ensures
        r@ == plural_of(n as nat),
{
    if n == 1 {
        ""
    } else {
        "s"
    }
}

/// The lines of `s`.
pub fn lines(s: &str) -> (r: Vec<String>)
    ensures
        texts(r@) == lines_of(s@),
{
    let cs = chars_of(s);
    let mut nl: Vec<char> = Vec::new();
    nl.push('\n');
    assert(nl@ =~= seq!['\n']);
    let mut r: Vec<String> = Vec::new();
    let mut at: usize = 0;
    assert(cs@.skip(0) =~= cs@);
    assert(texts(r@) + lines_of(cs@.skip(0)) =~= lines_of(s@));
    loop
        invariant
            at <= cs@.len(),
            cs@ == s@,
            nl@ == seq!['\n'],
            texts(r@) + lines_of(cs@.skip(at as int)) == lines_of(s@),
        decreases cs@.len() - at,
    {
        let ghost rest = cs@.skip(at as int);
        let n: usize = cs.len();
        match find_from(&cs, &nl, at) {
            Some(i) => {
                let end: usize = if i > at && cs[i - 1] == '\r' {
                    i - 1
                } else {
                    i
                };
                let piece = string_of(&cs, at, end);
                assert(piece@ =~= without_cr(rest.take(i - at)));
                assert(rest.skip(i - at + 1) =~= cs@.skip(i + 1));
                proof {
                    texts_push(r@, piece);
                }
                assert(texts(r@).push(piece@) + lines_of(cs@.skip(i + 1)) =~= texts(r@) + lines_of(
                    rest,
                ));
                r.push(piece);
                at = i + 1;
            },
            None => {
                if at < n {
                    let piece = string_of(&cs, at, n);
                    assert(piece@ =~= rest);
                    proof {
                        texts_push(r@, piece);
                    }
                    assert(texts(r@).push(piece@) =~= texts(r@) + lines_of(rest));
                    r.push(piece);
                } else {
                    assert(texts(r@) =~= texts(r@) + lines_of(rest));
                }
                return r;
            },
        }
    }
}

/// `parts` one after the other, with `sep` between each two.
pub fn join(parts: &[String], sep: &str) -> (r: String)
    ensures
        r@ == joined(texts(parts@), sep@),
{
    let mut r = String::new();
    let mut i: usize = 0;
    while i < parts.len()
        invariant
            i <= parts@.len(),
            r@ == joined(texts(parts@).take(i as int), sep@),
        decreases parts@.len() - i,
    {
        assert(texts(parts@).take(i + 1).drop_last() =~= texts(parts@).take(i as int));
        if i > 0 {
            r.append(sep);
        }
        r.append(parts[i].as_str());
        i += 1;
    }
    assert(texts(parts@).take(i as int) =~= texts(parts@));
    r
}

/// `c`, `n` times.
pub fn repeat(c: char, n: usize) -> (r: String)
    ensures
        r@ == filled(c, n as nat),
{
    let mut r = String::new();
    let mut i: usize = 0;
    while i < n
        invariant
            i <= n,
            r@ == filled(c, i as nat),
        decreases n - i,
    {
        r.push(c);
        i += 1;
    }
    r
}

/// The character for the decimal digit `d`.
fn digit_char(d: usize) -> (r: char)
    requires
        d < 10,
    ensures
        r == digit(d as nat),
{
    match d {
        0 => '0',
        1 => '1',
        2 => '2',
        3 => '3',
        4 => '4',
        5 => '5',
        6 => '6',
        7 => '7',
        8 => '8',
        _ => '9',
    }
}

/// `n` in decimal.
pub fn decimal(n: usize) -> (r: String)
    ensures
        r@ == decimal_of(n as nat),
    decreases n,
{
    if n < 10 {
        let mut r = String::new();
        r.push(digit_char(n));
        assert(r@ =~= seq![digit(n as nat)]);
        r
    } else {
        let mut r = decimal(n / 10);
        r.push(digit_char(n % 10));
        r
    }
}

/// Joining one more part adds the separator and the part; a part alone is
/// joined without a separator, and no part makes no text.
pub proof fn joined_push(parts: Seq<Seq<char>>, last: Seq<char>, sep: Seq<char>)
    ensures
        joined(Seq::empty(), sep).len() == 0,
        parts.len() == 0 ==> joined(parts.push(last), sep) == last,
        parts.len() > 0 ==> joined(parts.push(last), sep) == joined(parts, sep) + sep + last,
{
    assert(parts.push(last).drop_last() =~= parts);
}

/// The first occurrence parts a text: where nothing before it starts like `p`,
/// what stands before and after it comes back.
pub proof fn parted_at_first(a: Seq<char>, p: Seq<char>, b: Seq<char>)
    requires
        p.len() > 0,
        !a.contains(p[0]),
    ensures
        first_at(a + p + b, p) == Some(a.len() as int),
        halves(a + p + b, p) == Some((a, b)),
        head_of(a + p + b, p) == a,
        split_by(a + p + b, p) == seq![a] + split_by(b, p),
{
    let s = a + p + b;
    let n = a.len() as int;
    first_is_at(a, p, b);
    assert(s.take(n) =~= a);
    assert(s.skip(n + p.len()) =~= b);
}

proof fn first_is_at(a: Seq<char>, p: Seq<char>, b: Seq<char>)
    requires
        p.len() > 0,
        !a.contains(p[0]),
    ensures
        first_at(a + p + b, p) == Some(a.len() as int),
    decreases a.len(),
{
    let s = a + p + b;
    if a.len() == 0 {
        assert(p =~= s.subrange(0, p.len() as int));
    } else {
        assert(a.contains(a[0]));
        assert(s[0] == a[0]);
        assert(!p.is_prefix_of(s));
        assert forall|k: int| 0 <= k < a.skip(1).len() implies a.skip(1)[k] != p[0] by {
            assert(a.contains(a[k + 1]));
        }
        first_is_at(a.skip(1), p, b);
        assert(s.skip(1) =~= a.skip(1) + p + b);
    }
}

/// What does not occur parts nothing.
pub proof fn not_parted(a: Seq<char>, p: Seq<char>)
    requires
        p.len() > 0,
        !a.contains(p[0]),
    ensures
        first_at(a, p) is None,
        halves(a, p) is None,
        head_of(a, p) == a,
        split_by(a, p) == seq![a],
{
    first_at_bounds(a, p);
    if let Some(i) = first_at(a, p) {
        assert(a.subrange(i, i + p.len())[0] == a[i]);
        assert(a.contains(a[i]));
    }
}

/// The last occurrence parts a text: where nothing after it ends like `p`, what
/// stands before and after it comes back.
pub proof fn parted_at_last(a: Seq<char>, p: Seq<char>, b: Seq<char>)
    requires
        p.len() > 0,
        !b.contains(p.last()),
    ensures
        last_found(a + p + b, p) == Some(a.len() as int),
        outer_halves(a + p + b, p) == Some((a, b)),
    decreases b.len(),
{
    let s = a + p + b;
    assert(s.take(a.len() as int) =~= a);
    assert(s.skip((a.len() + p.len()) as int) =~= b);
    if b.len() == 0 {
        assert(s =~= a + p);
        assert(p =~= s.subrange(s.len() - p.len(), s.len() as int));
    } else {
        let init = b.drop_last();
        assert(s.drop_last() =~= a + p + init);
        if p.is_suffix_of(s) {
            assert(s.last() == p.last());
            assert(b.contains(b[b.len() - 1]));
        }
        assert forall|k: int| 0 <= k < init.len() implies init[k] != p.last() by {
            assert(b.contains(b[k]));
        }
        parted_at_last(a, p, init);
    }
}

/// The last occurrence of a character parts a text.
pub proof fn parted_at_last_char(a: Seq<char>, c: char, b: Seq<char>)
    requires
        !b.contains(c),
    ensures
        last_at(a.push(c) + b, c) == Some(a.len() as int),
        last_halves(a.push(c) + b, c) == Some((a, b)),
        last_at(b, c) is None,
        last_halves(b, c) is None,
    decreases b.len(),
{
    let s = a.push(c) + b;
    assert(s.take(a.len() as int) =~= a);
    assert(s.skip((a.len() + 1) as int) =~= b);
    if b.len() > 0 {
        let init = b.drop_last();
        assert(s.drop_last() =~= a.push(c) + init);
        assert(b.contains(b[b.len() - 1]));
        assert forall|k: int| 0 <= k < init.len() implies init[k] != c by {
            assert(b.contains(b[k]));
        }
        parted_at_last_char(a, c, init);
    }
}

/// Trimming takes the white space at both ends, and nothing else: what is left
/// neither starts nor ends with white space.
pub proof fn trimming_takes_white_space(before: Seq<char>, s: Seq<char>, after: Seq<char>)
    requires
        forall|i: int| 0 <= i < before.len() ==> is_space(#[trigger] before[i]),
        forall|i: int| 0 <= i < after.len() ==> is_space(#[trigger] after[i]),
        s.len() > 0,
        !is_space(s[0]),
        !is_space(s.last()),
    ensures
        trimmed(before + s + after) == s,
{
    left_trimmed_past(before, s + after);
    assert(before + (s + after) =~= before + s + after);
    assert((s + after)[0] == s[0]);
    right_trimmed_past(s, after);
}

proof fn left_trimmed_past(before: Seq<char>, s: Seq<char>)
    requires
        forall|i: int| 0 <= i < before.len() ==> is_space(#[trigger] before[i]),
    ensures
        left_trimmed(before + s) == left_trimmed(s),
    decreases before.len(),
{
    if before.len() == 0 {
        assert(before + s =~= s);
    } else {
        assert(is_space(before[0]));
        assert((before + s).skip(1) =~= before.skip(1) + s);
        left_trimmed_past(before.skip(1), s);
    }
}

proof fn right_trimmed_past(s: Seq<char>, after: Seq<char>)
    requires
        forall|i: int| 0 <= i < after.len() ==> is_space(#[trigger] after[i]),
        s.len() > 0,
        !is_space(s.last()),
    ensures
        right_trimmed(s + after) == s,
    decreases after.len(),
{
    if after.len() == 0 {
        assert(s + after =~= s);
    } else {
        assert(is_space(after[after.len() - 1]));
        assert((s + after).drop_last() =~= s + after.drop_last());
        right_trimmed_past(s, after.drop_last());
    }
}

/// One thing is spoken of without the plural "s", any other number with it.
pub proof fn plural_of_counts(n: nat)
    ensures
        n == 1 ==> plural_of(n).len() == 0,
        n != 1 ==> plural_of(n) == "s"@,
{
    reveal_strlit("");
}

/// Words are what stands between white space: a word in front of white space is
/// the first one, leading white space makes none.
pub proof fn words_stand_between_white_space(word: Seq<char>, c: char, rest: Seq<char>)
    requires
        forall|i: int| 0 <= i < word.len() ==> !is_space(#[trigger] word[i]),
        is_space(c),
        word.len() > 0,
    ensures
        words_of(word) == seq![word],
        words_of(word.push(c) + rest) == seq![word] + words_of(rest),
        words_of(seq![c] + rest) == words_of(rest),
        words_of(Seq::empty()).len() == 0,
{
    let none = Seq::<char>::empty();
    word_is_read(word, none, none);
    assert(word + none =~= word);
    assert(none + word =~= word);
    word_is_read(word, seq![c] + rest, none);
    assert(word + (seq![c] + rest) =~= word.push(c) + rest);
    assert((seq![c] + rest).skip(1) =~= rest);
    assert((seq![c] + rest)[0] == c);
    assert(words_of(seq![c] + rest) =~= words_of(rest));
}

proof fn word_is_read(word: Seq<char>, rest: Seq<char>, read: Seq<char>)
    requires
        forall|i: int| 0 <= i < word.len() ==> !is_space(#[trigger] word[i]),
    ensures
        words_from(word + rest, read) == words_from(rest, read + word),
    decreases word.len(),
{
    if word.len() == 0 {
        assert(word + rest =~= rest);
        assert(read + word =~= read);
    } else {
        assert(!is_space(word[0]));
        assert((word + rest)[0] == word[0]);
        assert((word + rest).skip(1) =~= word.skip(1) + rest);
        word_is_read(word.skip(1), rest, read.push(word[0]));
        assert(read.push(word[0]) + word.skip(1) =~= read + word);
    }
}

/// A line feed ends a line, with or without a carriage return before it; what is
/// left at the end is a line unless it is empty.
pub proof fn lines_end_with_line_feeds(line: Seq<char>, rest: Seq<char>)
    requires
        !line.contains('\n'),
    ensures
        line.len() > 0 ==> lines_of(line) == seq![line],
        lines_of(Seq::empty()).len() == 0,
        lines_of(line.push('\n') + rest) == seq![without_cr(line)] + lines_of(rest),
        without_cr(line.push('\r')) == line,
        line.len() == 0 || line.last() != '\r' ==> without_cr(line) == line,
{
    let lf = seq!['\n'];
    not_parted(line, lf);
    parted_at_first(line, lf, rest);
    assert(line + lf + rest =~= line.push('\n') + rest);
    let s = line.push('\n') + rest;
    assert(s.take(line.len() as int) =~= line);
    assert(s.skip((line.len() + 1) as int) =~= rest);
    not_parted(Seq::empty(), lf);
    assert(line.push('\r').drop_last() =~= line);
}

/// Stripping takes a character away from one end as often as it stands there, and
/// nothing else.
pub proof fn stripping_takes_one_character(s: Seq<char>, c: char, n: nat)
    requires
        s.len() > 0,
    ensures
        s[0] != c ==> left_stripped(filled(c, n) + s, c) == s,
        s.last() != c ==> right_stripped(s + filled(c, n), c) == s,
    decreases n,
{
    if n == 0 {
        assert(filled(c, n) + s =~= s);
        assert(s + filled(c, n) =~= s);
    } else {
        let fewer = filled(c, (n - 1) as nat);
        stripping_takes_one_character(s, c, (n - 1) as nat);
        assert((filled(c, n) + s).skip(1) =~= fewer + s);
        assert((s + filled(c, n)).drop_last() =~= s + fewer);
    }
}

/// A prefix is taken away as often as it stands in front.
pub proof fn prefixes_are_taken_away(s: Seq<char>, p: Seq<char>)
    requires
        p.len() > 0,
    ensures
        !p.is_prefix_of(s) ==> unprefixed(s, p) == s,
        unprefixed(p + s, p) == unprefixed(s, p),
{
    assert(p =~= (p + s).subrange(0, p.len() as int));
    assert((p + s).skip(p.len() as int) =~= s);
}

/// White space: the controls from tab to carriage return, the blanks of ASCII, of
/// Latin-1 and of Unicode, and the separators of lines and paragraphs.
pub proof fn white_space_is_known(c: char)
    ensures
        c == ' ' || c == '\t' || c == '\n' || c == '\r' ==> is_space(c),
        c == '\u{b}' || c == '\u{c}' || c == '\u{85}' || c == '\u{a0}' ==> is_space(c),
        c == '\u{1680}' || c == '\u{2028}' || c == '\u{2029}' || c == '\u{202f}' ==> is_space(c),
        '\u{2000}' <= c <= '\u{200a}' || c == '\u{205f}' || c == '\u{3000}' ==> is_space(c),
        '!' <= c <= '~' ==> !is_space(c),
        is_space(c) ==> c <= ' ' || '\u{85}' <= c <= '\u{3000}',
{
}

/// A number is written with its digits in order: one more digit makes it ten times as
/// large, and the digit more.
pub proof fn numbers_are_written_in_digits(n: nat, d: nat)
    requires
        d < 10,
    ensures
        n < 10 ==> decimal_of(n).len() == 1 && decimal_of(n)[0] as int == '0' as int + n,
        n > 0 ==> decimal_of(10 * n + d) == decimal_of(n) + decimal_of(d),
{
    if n > 0 {
        assert((10 * n + d) / 10 == n);
        assert((10 * n + d) % 10 == d);
        assert(decimal_of(n).push(digit(d)) =~= decimal_of(n) + decimal_of(d));
    }
}

} // verus!
