//! Decimal numbers in text.

use vstd::prelude::*;

use crate::text::{chars_of, code_point, decimal, decimal_of, digit};

verus! {

/// Whether `c` is a decimal digit.
pub open spec fn is_digit(c: char) -> bool {
    '0' <= c <= '9'
}

/// The value of a digit.
pub open spec fn digit_value(c: char) -> nat {
    (c as int - '0' as int) as nat
}

/// The number that a text of one or more digits stands for.
pub open spec fn digits_value(s: Seq<char>) -> Option<nat>
    decreases s.len(),
{
    if s.len() == 0 || !is_digit(s.last()) {
        None
    } else if s.len() == 1 {
        Some(digit_value(s[0]))
    } else {
        match digits_value(s.drop_last()) {
            Some(v) => Some(10 * v + digit_value(s.last())),
            None => None,
        }
    }
}

/// The count that `s` stands for: digits, perhaps after a plus sign, not above
/// `limit`.
pub open spec fn count_value(s: Seq<char>, limit: nat) -> Option<nat> {
    let bare = if s.len() > 0 && s[0] == '+' {
        s.skip(1)
    } else {
        s
    };
    match digits_value(bare) {
        Some(v) => if v <= limit {
            Some(v)
        } else {
            None
        },
        None => None,
    }
}

/// The number of 32 bits that `s` stands for: digits, perhaps after a sign.
pub open spec fn code_value(s: Seq<char>) -> Option<int> {
    if s.len() > 0 && s[0] == '-' {
        match digits_value(s.skip(1)) {
            Some(v) => if v <= 0x8000_0000 {
                Some(-(v as int))
            } else {
                None
            },
            None => None,
        }
    } else {
        match count_value(s, 0x7fff_ffff) {
            Some(v) => Some(v as int),
            None => None,
        }
    }
}

/// The value of the digits `cs[from..]`, where it is not above `limit`.
fn parse_digits(cs: &[char], from: usize, limit: u64) -> (r: Option<u64>)
    requires
        from <= cs@.len(),
    ensures
        match digits_value(cs@.skip(from as int)) {
            Some(v) => if v <= limit {
                r == Some(v as u64)
            } else {
                r is None
            },
            None => r is None,
        },
{
    let n: usize = cs.len();
    if from == n {
        return None;
    }
    let mut value: u64 = 0;
    let mut big = false;
    let mut i: usize = from;
    while i < n
        invariant
            from <= i <= n == cs@.len(),
            from < n,
            i == from ==> value == 0 && !big,
            i > from ==> match digits_value(cs@.subrange(from as int, i as int)) {
                Some(v) => if big {
                    v > limit
                } else {
                    v == value && value <= limit
                },
                None => false,
            },
            !big ==> value <= limit,
        decreases n - i,
    {
        let c: char = cs[i];
        let ghost head = cs@.subrange(from as int, i as int);
        let ghost next = cs@.subrange(from as int, i + 1);
        assert(next.drop_last() =~= head);
        assert(next.last() == c);
        if !('0' <= c && c <= '9') {
            proof {
                no_value_past(cs@.skip(from as int), i - from);
                assert(cs@.skip(from as int)[i - from] == c);
            }
            return None;
        }
        let d: u64 = (code_point(c) - code_point('0')) as u64;
        if !big {
            let wide: u128 = value as u128 * 10 + d as u128;
            if wide > limit as u128 {
                big = true;
            } else {
                value = wide as u64;
            }
        }
        i += 1;
    }
    assert(cs@.subrange(from as int, n as int) =~= cs@.skip(from as int));
    if big {
        None
    } else {
        Some(value)
    }
}

/// A text with something else than digits in it is no number.
proof fn no_value_past(s: Seq<char>, i: int)
    requires
        0 <= i < s.len(),
        !is_digit(s[i]),
    ensures
        digits_value(s) is None,
    decreases s.len(),
{
    if i < s.len() - 1 {
        no_value_past(s.drop_last(), i);
    }
}

/// The count that `s` stands for.
pub fn parse_count(s: &str) -> (r: Option<usize>)
    ensures
        match count_value(s@, usize::MAX as nat) {
            Some(v) => r matches Some(n) && n == v,
            None => r is None,
        },
{
    let cs = chars_of(s);
    let from: usize = if cs.len() > 0 && cs[0] == '+' {
        1
    } else {
        0
    };
    assert(cs@.skip(0) =~= cs@);
    match parse_digits(&cs, from, usize::MAX as u64) {
        Some(v) => Some(v as usize),
        None => None,
    }
}

/// The number of 64 bits that `s` stands for.
pub fn parse_u64(s: &str) -> (r: Option<u64>)
    ensures
        match count_value(s@, u64::MAX as nat) {
            Some(v) => r matches Some(n) && n == v,
            None => r is None,
        },
{
    let cs = chars_of(s);
    let from: usize = if cs.len() > 0 && cs[0] == '+' {
        1
    } else {
        0
    };
    assert(cs@.skip(0) =~= cs@);
    parse_digits(&cs, from, u64::MAX)
}

/// The number of 32 bits that `s` stands for.
pub fn parse_code(s: &str) -> (r: Option<i32>)
    ensures
        match code_value(s@) {
            Some(v) => r matches Some(n) && n == v,
            None => r is None,
        },
{
    let cs = chars_of(s);
    assert(cs@.skip(0) =~= cs@);
    if cs.len() > 0 && cs[0] == '-' {
        return match parse_digits(&cs, 1, 0x8000_0000) {
            Some(v) => Some((0i64 - v as i64) as i32),
            None => None,
        };
    }
    let from: usize = if cs.len() > 0 && cs[0] == '+' {
        1
    } else {
        0
    };
    match parse_digits(&cs, from, 0x7fff_ffff) {
        Some(v) => Some(v as i32),
        None => None,
    }
}

/// The digits of an exit code, after a minus sign where it is negative.
pub open spec fn code_of(code: int) -> Seq<char> {
    if code < 0 {
        "-"@ + decimal_of(-code as nat)
    } else {
        decimal_of(code as nat)
    }
}

/// The digits of an exit code.
pub fn code_text(code: i32) -> (r: String)
    ensures
        r@ == code_of(code as int),
{
    if code < 0 {
        let size: usize = (-(code as i64)) as usize;
        let digits = decimal(size);
        let mut r: String = "-".to_owned();
        r.append(digits.as_str());
        r
    } else {
        decimal(code as usize)
    }
}

/// The digits of a number stand for it.
pub proof fn decimal_round_trip(n: nat)
    ensures
        digits_value(decimal_of(n)) == Some(n),
        decimal_of(n).len() > 0,
        is_digit(decimal_of(n)[0]),
    decreases n,
{
    if n < 10 {
        assert(is_digit(digit(n)));
    } else {
        decimal_round_trip(n / 10);
        let s = decimal_of(n);
        assert(s.drop_last() =~= decimal_of(n / 10));
        assert(s[0] == decimal_of(n / 10)[0]);
        assert(is_digit(digit(n % 10)));
    }
}

/// An exit code that was written down is read back as it was.
pub proof fn code_round_trip(code: i32)
    ensures
        code_value(code_of(code as int)) == Some(code as int),
{
    let size = (if code < 0 {
        -code
    } else {
        code as int
    }) as nat;
    decimal_round_trip(size);
    if code < 0 {
        reveal_strlit("-");
        assert(code_of(code as int).skip(1) =~= decimal_of(size));
    }
}

/// A count is read from its decimal digits, with a plus sign before them or not;
/// one above the limit is none, and neither is a text with anything else in it.
pub proof fn counts_are_read(n: nat, limit: nat, s: Seq<char>, k: int)
    requires
        0 < k < s.len(),
        !is_digit(s[k]),
    ensures
        n <= limit ==> count_value(decimal_of(n), limit) == Some(n),
        n <= limit ==> count_value("+"@ + decimal_of(n), limit) == Some(n),
        n > limit ==> count_value(decimal_of(n), limit) is None,
        count_value(s, limit) is None,
{
    reveal_strlit("+");
    decimal_round_trip(n);
    assert(("+"@ + decimal_of(n)).skip(1) =~= decimal_of(n));
    if s[0] == '+' {
        assert(s.skip(1)[k - 1] == s[k]);
        no_number(s.skip(1), k - 1);
    } else {
        no_number(s, k);
    }
}

/// A text with a character that is no digit is no number.
proof fn no_number(s: Seq<char>, k: int)
    requires
        0 <= k < s.len(),
        !is_digit(s[k]),
    ensures
        digits_value(s) is None,
    decreases s.len(),
{
    if k < s.len() - 1 {
        assert(s.drop_last()[k] == s[k]);
        no_number(s.drop_last(), k);
    }
}

} // verus!
