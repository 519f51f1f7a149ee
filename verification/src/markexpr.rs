//! `-k` / `-m` selection expressions: `and`, `or`, `not` and parentheses over
//! identifiers that a predicate decides.

use vstd::prelude::*;

use crate::text::{chars_of, is_space, is_whitespace, same, string_of};

verus! {

#[derive(Debug)]
pub enum Token {
    Ident(String),
    And,
    Or,
    Not,
    Open,
    Close,
}

/// A token as a mathematical value.
pub enum Sym {
    Ident(Seq<char>),
    And,
    Or,
    Not,
    Open,
    Close,
}

impl View for Token {
    type V = Sym;

    open spec fn view(&self) -> Sym {
        match self {
            Token::Ident(word) => Sym::Ident(word@),
            Token::And => Sym::And,
            Token::Or => Sym::Or,
            Token::Not => Sym::Not,
            Token::Open => Sym::Open,
            Token::Close => Sym::Close,
        }
    }
}

/// The symbols of a list of tokens.
pub open spec fn syms(tokens: Seq<Token>) -> Seq<Sym> {
    Seq::new(tokens.len(), |i: int| tokens[i]@)
}

/// The token that a word spells.
pub open spec fn word_sym(word: Seq<char>) -> Sym {
    if word == "and"@ {
        Sym::And
    } else if word == "or"@ {
        Sym::Or
    } else if word == "not"@ {
        Sym::Not
    } else {
        Sym::Ident(word)
    }
}

/// The token for the word read so far, if anything was read.
pub open spec fn pending(word: Seq<char>) -> Seq<Sym> {
    if word.len() == 0 {
        seq![]
    } else {
        seq![word_sym(word)]
    }
}

/// The tokens of `s`, when `word` has been read of the current word:
/// parentheses stand for themselves, white space separates words.
pub open spec fn scanned(s: Seq<char>, word: Seq<char>) -> Seq<Sym>
    decreases s.len(),
{
    if s.len() == 0 {
        pending(word)
    } else if s[0] == '(' {
        pending(word).push(Sym::Open) + scanned(s.skip(1), seq![])
    } else if s[0] == ')' {
        pending(word).push(Sym::Close) + scanned(s.skip(1), seq![])
    } else if is_space(s[0]) {
        pending(word) + scanned(s.skip(1), seq![])
    } else {
        scanned(s.skip(1), word.push(s[0]))
    }
}

/// The tokens of the expression `s`.
pub open spec fn tokens_of(s: Seq<char>) -> Seq<Sym> {
    scanned(s, seq![])
}

/// A selection expression.
pub enum Expr {
    Ident(Seq<char>),
    Not(Box<Expr>),
    And(Box<Expr>, Box<Expr>),
    Or(Box<Expr>, Box<Expr>),
}

/// A parsed expression with the position after it, or the message of the
/// first error with the position where it was found.
pub type Parsed = Result<(Expr, int), (Seq<char>, int)>;

/// What is said of a token that cannot start an operand.
pub open spec fn unexpected(t: Seq<Sym>, p: int) -> Seq<char> {
    if 0 <= p < t.len() {
        match t[p] {
            Sym::And => "unexpected token: Some(And)"@,
            Sym::Or => "unexpected token: Some(Or)"@,
            Sym::Not => "unexpected token: Some(Not)"@,
            _ => "unexpected token: Some(Close)"@,
        }
    } else {
        "unexpected token: None"@
    }
}

/// `or_expr := and_expr ("or" and_expr)*`, from position `p` on.
pub open spec fn parse_or(t: Seq<Sym>, p: int) -> Parsed
    decreases t.len() - p, 5int,
{
    match parse_and(t, p) {
        Err(m) => Err(m),
        Ok((e, q)) => if p < q <= t.len() {
            or_rest(t, q, e)
        } else {
            Ok((e, q))
        },
    }
}

/// The further operands of an `or` whose left side is `left`.
pub open spec fn or_rest(t: Seq<Sym>, p: int, left: Expr) -> Parsed
    decreases t.len() - p, 4int,
{
    if 0 <= p < t.len() && t[p] is Or {
        match parse_and(t, p + 1) {
            Err(m) => Err(m),
            Ok((e, q)) => if p < q <= t.len() {
                or_rest(t, q, Expr::Or(Box::new(left), Box::new(e)))
            } else {
                Ok((e, q))
            },
        }
    } else {
        Ok((left, p))
    }
}

/// `and_expr := not_expr ("and" not_expr)*`.
pub open spec fn parse_and(t: Seq<Sym>, p: int) -> Parsed
    decreases t.len() - p, 3int,
{
    match parse_not(t, p) {
        Err(m) => Err(m),
        Ok((e, q)) => if p < q <= t.len() {
            and_rest(t, q, e)
        } else {
            Ok((e, q))
        },
    }
}

/// The further operands of an `and` whose left side is `left`.
pub open spec fn and_rest(t: Seq<Sym>, p: int, left: Expr) -> Parsed
    decreases t.len() - p, 2int,
{
    if 0 <= p < t.len() && t[p] is And {
        match parse_not(t, p + 1) {
            Err(m) => Err(m),
            Ok((e, q)) => if p < q <= t.len() {
                and_rest(t, q, Expr::And(Box::new(left), Box::new(e)))
            } else {
                Ok((e, q))
            },
        }
    } else {
        Ok((left, p))
    }
}

/// `not_expr := "not" not_expr | atom`.
pub open spec fn parse_not(t: Seq<Sym>, p: int) -> Parsed
    decreases t.len() - p, 1int,
{
    if 0 <= p < t.len() && t[p] is Not {
        match parse_not(t, p + 1) {
            Err(m) => Err(m),
            Ok((e, q)) => Ok((Expr::Not(Box::new(e)), q)),
        }
    } else {
        parse_atom(t, p)
    }
}

/// `atom := "(" or_expr ")" | identifier`.
pub open spec fn parse_atom(t: Seq<Sym>, p: int) -> Parsed
    decreases t.len() - p, 0int,
{
    if 0 <= p < t.len() && t[p] is Open {
        match parse_or(t, p + 1) {
            Err(m) => Err(m),
            Ok((e, q)) => if 0 <= q < t.len() && t[q] is Close {
                Ok((e, q + 1))
            } else {
                Err(("expected )"@, q))
            },
        }
    } else if 0 <= p < t.len() && t[p] is Ident {
        Ok((Expr::Ident(t[p]->Ident_0), p + 1))
    } else {
        Err((unexpected(t, p), p))
    }
}

/// A whole token list as one expression.
pub open spec fn parse_all(t: Seq<Sym>) -> Result<Expr, Seq<char>> {
    match parse_or(t, 0) {
        Err((m, _)) => Err(m),
        Ok((e, q)) => if q == t.len() {
            Ok(e)
        } else {
            Err("unexpected trailing tokens"@)
        },
    }
}

/// Whether `b` is a value of `e` when the predicate `f` decides identifiers.
pub open spec fn evaluates<F: Fn(&str) -> bool>(f: F, e: Expr, b: bool) -> bool
    decreases e,
{
    match e {
        Expr::Ident(w) => exists|x: &str| x@ == w && #[trigger] call_ensures(f, (x,), b),
        Expr::Not(x) => evaluates(f, *x, !b),
        Expr::And(x, y) => if b {
            evaluates(f, *x, true) && evaluates(f, *y, true)
        } else {
            ||| evaluates(f, *x, false) && evaluates(f, *y, true)
            ||| evaluates(f, *x, false) && evaluates(f, *y, false)
            ||| evaluates(f, *x, true) && evaluates(f, *y, false)
        },
        Expr::Or(x, y) => if b {
            ||| evaluates(f, *x, true) && evaluates(f, *y, true)
            ||| evaluates(f, *x, true) && evaluates(f, *y, false)
            ||| evaluates(f, *x, false) && evaluates(f, *y, true)
        } else {
            evaluates(f, *x, false) && evaluates(f, *y, false)
        },
    }
}

/// The value of `e` when the function `m` decides identifiers.
pub open spec fn value(e: Expr, m: spec_fn(Seq<char>) -> bool) -> bool
    decreases e,
{
    match e {
        Expr::Ident(w) => m(w),
        Expr::Not(x) => !value(*x, m),
        Expr::And(x, y) => value(*x, m) && value(*y, m),
        Expr::Or(x, y) => value(*x, m) || value(*y, m),
    }
}

/// The predicate `f` answers as the function `m` does.
pub open spec fn decides<F: Fn(&str) -> bool>(f: F, m: spec_fn(Seq<char>) -> bool) -> bool {
    forall|x: &str, b: bool| #[trigger] call_ensures(f, (x,), b) ==> b == m(x@)
}

/// An expression has one value under a predicate that is a function of the
/// identifier.
pub proof fn evaluates_to_value<F: Fn(&str) -> bool>(
    f: F,
    e: Expr,
    b: bool,
    m: spec_fn(Seq<char>) -> bool,
)
    requires
        evaluates(f, e, b),
        decides(f, m),
    ensures
        b == value(e, m),
    decreases e,
{
    match e {
        Expr::Ident(w) => {
            let x: &str = choose|x: &str| x@ == w && #[trigger] call_ensures(f, (x,), b);
            assert(call_ensures(f, (x,), b));
        },
        Expr::Not(x) => {
            evaluates_to_value(f, *x, !b, m);
        },
        Expr::And(x, y) => {
            if evaluates(f, *x, true) {
                evaluates_to_value(f, *x, true, m);
            }
            if evaluates(f, *x, false) {
                evaluates_to_value(f, *x, false, m);
            }
            if evaluates(f, *y, true) {
                evaluates_to_value(f, *y, true, m);
            }
            if evaluates(f, *y, false) {
                evaluates_to_value(f, *y, false, m);
            }
        },
        Expr::Or(x, y) => {
            if evaluates(f, *x, true) {
                evaluates_to_value(f, *x, true, m);
            }
            if evaluates(f, *x, false) {
                evaluates_to_value(f, *x, false, m);
            }
            if evaluates(f, *y, true) {
                evaluates_to_value(f, *y, true, m);
            }
            if evaluates(f, *y, false) {
                evaluates_to_value(f, *y, false, m);
            }
        },
    }
}

/// Parsing moves forward: what was parsed ends after `p`, inside the list.
pub proof fn parse_progress(t: Seq<Sym>, p: int, level: nat)
    requires
        0 <= p,
        level <= 3,
    ensures
        level == 0 ==> (parse_atom(t, p) matches Ok((_, q)) ==> p < q <= t.len()),
        level == 1 ==> (parse_not(t, p) matches Ok((_, q)) ==> p < q <= t.len()),
        level == 2 ==> (parse_and(t, p) matches Ok((_, q)) ==> p < q <= t.len()),
        level == 3 ==> (parse_or(t, p) matches Ok((_, q)) ==> p < q <= t.len()),
    decreases t.len() - p, level, 1nat,
{
    if level == 0 {
        if p < t.len() && t[p] is Open {
            parse_progress(t, p + 1, 3);
        }
    } else if level == 1 {
        if p < t.len() && t[p] is Not {
            parse_progress(t, p + 1, 1);
        } else {
            parse_progress(t, p, 0);
        }
    } else if level == 2 {
        parse_progress(t, p, 1);
        if let Ok((e, q)) = parse_not(t, p) {
            and_rest_progress(t, q, e);
        }
    } else {
        parse_progress(t, p, 2);
        if let Ok((e, q)) = parse_and(t, p) {
            or_rest_progress(t, q, e);
        }
    }
}

proof fn and_rest_progress(t: Seq<Sym>, p: int, left: Expr)
    requires
        0 <= p <= t.len(),
    ensures
        and_rest(t, p, left) matches Ok((_, q)) ==> p <= q <= t.len(),
    decreases t.len() - p, 0nat, 0nat,
{
    if p < t.len() && t[p] is And {
        parse_progress(t, p + 1, 1);
        if let Ok((e, q)) = parse_not(t, p + 1) {
            and_rest_progress(t, q, Expr::And(Box::new(left), Box::new(e)));
        }
    }
}

proof fn or_rest_progress(t: Seq<Sym>, p: int, left: Expr)
    requires
        0 <= p <= t.len(),
    ensures
        or_rest(t, p, left) matches Ok((_, q)) ==> p <= q <= t.len(),
    decreases t.len() - p, 0nat, 0nat,
{
    if p < t.len() && t[p] is Or {
        parse_progress(t, p + 1, 2);
        if let Ok((e, q)) = parse_and(t, p + 1) {
            or_rest_progress(t, q, Expr::Or(Box::new(left), Box::new(e)));
        }
    }
}

/// The token that the word `cs[from..to]` spells, if it is not empty.
fn flush(cs: &[char], from: usize, to: usize, tokens: &mut Vec<Token>)
    requires
        from <= to <= cs@.len(),
    ensures
        syms(final(tokens)@) == syms(old(tokens)@) + pending(
            cs@.subrange(from as int, to as int),
        ),
{
    let ghost before = tokens@;
    if from < to {
        let word = string_of(cs, from, to);
        let token = if same(word.as_str(), "and") {
            Token::And
        } else if same(word.as_str(), "or") {
            Token::Or
        } else if same(word.as_str(), "not") {
            Token::Not
        } else {
            Token::Ident(word)
        };
        tokens.push(token);
    }
    assert(syms(tokens@) =~= syms(before) + pending(cs@.subrange(from as int, to as int)));
}

/// The tokens of `expr`.
pub fn tokenize(expr: &str) -> (r: Vec<Token>)
    ensures
        syms(r@) == tokens_of(expr@),
{
    let cs = chars_of(expr);
    let mut tokens: Vec<Token> = Vec::new();
    let mut from: usize = 0;
    let mut i: usize = 0;
    assert(cs@.skip(0) =~= cs@);
    assert(cs@.subrange(0, 0) =~= seq![]);
    assert(syms(tokens@) + scanned(cs@.skip(0), cs@.subrange(0, 0)) =~= tokens_of(expr@));
    while i < cs.len()
        invariant
            from <= i <= cs@.len(),
            cs@ == expr@,
            syms(tokens@) + scanned(cs@.skip(i as int), cs@.subrange(from as int, i as int))
                == tokens_of(expr@),
        decreases cs@.len() - i,
    {
        let c = cs[i];
        let ghost rest = cs@.skip(i as int);
        let ghost word = cs@.subrange(from as int, i as int);
        let ghost before = syms(tokens@);
        assert(rest.skip(1) =~= cs@.skip(i + 1));
        assert(cs@.subrange(i + 1, i + 1) =~= seq![]);
        if c == '(' || c == ')' {
            flush(&cs, from, i, &mut tokens);
            let ghost flushed = tokens@;
            let token = if c == '(' {
                Token::Open
            } else {
                Token::Close
            };
            tokens.push(token);
            assert(syms(tokens@) =~= syms(flushed).push(token@));
            assert(syms(tokens@) =~= before + pending(word).push(token@));
            assert(syms(tokens@) + scanned(rest.skip(1), seq![]) =~= before + scanned(rest, word));
            from = i + 1;
        } else if is_whitespace(c) {
            flush(&cs, from, i, &mut tokens);
            assert(syms(tokens@) + scanned(rest.skip(1), seq![]) =~= before + scanned(rest, word));
            from = i + 1;
        } else {
            assert(word.push(c) =~= cs@.subrange(from as int, i + 1));
        }
        i += 1;
    }
    flush(&cs, from, i, &mut tokens);
    tokens
}

/// A recursive-descent reader over a token list.
pub struct Parser<'a, F: Fn(&str) -> bool> {
    pub tokens: &'a [Token],
    pub pos: usize,
    pub matches: &'a F,
}

/// What one reading step did: it consumed the expression that the grammar
/// finds and returned a value of it, or it stopped where the grammar finds an
/// error and returned that.
pub open spec fn step_ok<F: Fn(&str) -> bool>(
    f: F,
    parsed: Parsed,
    end: int,
    r: Result<bool, String>,
) -> bool {
    match parsed {
        Ok((e, q)) => r matches Ok(b) && end == q && evaluates(f, e, b),
        Err((m, q)) => r matches Err(s) && s@ == m && end == q,
    }
}

impl<'a, F: Fn(&str) -> bool> Parser<'a, F> {
    /// The predicate can be asked about every identifier. The position may
    /// lie anywhere, also past the end.
    pub open spec fn wf(self) -> bool {
        forall|x: &str| #[trigger] call_requires(*self.matches, (x,))
    }

    /// The next token.
    pub fn peek(&self) -> (r: Option<&'a Token>)
        ensures
            match r {
                Some(token) => self.pos < self.tokens@.len() <= usize::MAX && *token
                    == self.tokens@[self.pos as int],
                None => self.pos >= self.tokens@.len(),
            },
    {
        if self.pos < self.tokens.len() {
            Some(&self.tokens[self.pos])
        } else {
            None
        }
    }

    /// Reads operands joined by `or`.
    pub fn or_expr(&mut self) -> (r: Result<bool, String>)
        requires
            old(self).wf(),
        ensures
            final(self).wf(),
            final(self).tokens == old(self).tokens,
            final(self).matches == old(self).matches,
            step_ok(
                *old(self).matches,
                parse_or(syms(old(self).tokens@), old(self).pos as int),
                final(self).pos as int,
                r,
            ),
        decreases old(self).tokens@.len() - old(self).pos, 4nat,
    {
        let ghost t = syms(self.tokens@);
        let ghost p = self.pos as int;
        proof {
            parse_progress(t, p, 2);
        }
        let mut value: bool = match self.and_expr() {
            Ok(v) => v,
            Err(m) => {
                return Err(m);
            },
        };
        let ghost mut e = parse_and(t, p)->Ok_0.0;
        loop
            invariant
                self.wf(),
                self.tokens == old(self).tokens,
                self.matches == old(self).matches,
                t == syms(self.tokens@),
                old(self).pos < self.pos <= self.tokens@.len(),
                evaluates(*self.matches, e, value),
                parse_or(t, old(self).pos as int) == or_rest(t, self.pos as int, e),
            decreases self.tokens@.len() - self.pos,
        {
            let more = match self.peek() {
                Some(Token::Or) => true,
                _ => false,
            };
            assert(more == (self.pos < t.len() && t[self.pos as int] is Or));
            if !more {
                return Ok(value);
            }
            let ghost at = self.pos as int;
            self.pos += 1;
            proof {
                parse_progress(t, at + 1, 2);
            }
            let rhs: bool = match self.and_expr() {
                Ok(v) => v,
                Err(m) => {
                    return Err(m);
                },
            };
            proof {
                let left = e;
                let right = parse_and(t, at + 1)->Ok_0.0;
                e = Expr::Or(Box::new(left), Box::new(right));
                assert(evaluates(*self.matches, left, value) && evaluates(
                    *self.matches,
                    right,
                    rhs,
                ));
                assert(evaluates(*self.matches, e, value || rhs));
            }
            value = value || rhs;
        }
    }

    /// Reads operands joined by `and`.
    pub fn and_expr(&mut self) -> (r: Result<bool, String>)
        requires
            old(self).wf(),
        ensures
            final(self).wf(),
            final(self).tokens == old(self).tokens,
            final(self).matches == old(self).matches,
            step_ok(
                *old(self).matches,
                parse_and(syms(old(self).tokens@), old(self).pos as int),
                final(self).pos as int,
                r,
            ),
        decreases old(self).tokens@.len() - old(self).pos, 3nat,
    {
        let ghost t = syms(self.tokens@);
        let ghost p = self.pos as int;
        proof {
            parse_progress(t, p, 1);
        }
        let mut value: bool = match self.not_expr() {
            Ok(v) => v,
            Err(m) => {
                return Err(m);
            },
        };
        let ghost mut e = parse_not(t, p)->Ok_0.0;
        loop
            invariant
                self.wf(),
                self.tokens == old(self).tokens,
                self.matches == old(self).matches,
                t == syms(self.tokens@),
                old(self).pos < self.pos <= self.tokens@.len(),
                evaluates(*self.matches, e, value),
                parse_and(t, old(self).pos as int) == and_rest(t, self.pos as int, e),
            decreases self.tokens@.len() - self.pos,
        {
            let more = match self.peek() {
                Some(Token::And) => true,
                _ => false,
            };
            assert(more == (self.pos < t.len() && t[self.pos as int] is And));
            if !more {
                return Ok(value);
            }
            let ghost at = self.pos as int;
            self.pos += 1;
            proof {
                parse_progress(t, at + 1, 1);
            }
            let rhs: bool = match self.not_expr() {
                Ok(v) => v,
                Err(m) => {
                    return Err(m);
                },
            };
            proof {
                let left = e;
                let right = parse_not(t, at + 1)->Ok_0.0;
                e = Expr::And(Box::new(left), Box::new(right));
                assert(evaluates(*self.matches, left, value) && evaluates(
                    *self.matches,
                    right,
                    rhs,
                ));
                assert(evaluates(*self.matches, e, value && rhs));
            }
            value = value && rhs;
        }
    }

    /// Reads an operand with the `not`s before it.
    pub fn not_expr(&mut self) -> (r: Result<bool, String>)
        requires
            old(self).wf(),
        ensures
            final(self).wf(),
            final(self).tokens == old(self).tokens,
            final(self).matches == old(self).matches,
            step_ok(
                *old(self).matches,
                parse_not(syms(old(self).tokens@), old(self).pos as int),
                final(self).pos as int,
                r,
            ),
        decreases old(self).tokens@.len() - old(self).pos, 2nat,
    {
        let ghost t = syms(self.tokens@);
        let negated = match self.peek() {
            Some(Token::Not) => true,
            _ => false,
        };
        assert(negated == (self.pos < t.len() && t[self.pos as int] is Not));
        if negated {
            self.pos += 1;
            match self.not_expr() {
                Ok(v) => Ok(!v),
                Err(m) => Err(m),
            }
        } else {
            self.atom()
        }
    }

    /// Reads an identifier or a parenthesised expression.
    pub fn atom(&mut self) -> (r: Result<bool, String>)
        requires
            old(self).wf(),
        ensures
            final(self).wf(),
            final(self).tokens == old(self).tokens,
            final(self).matches == old(self).matches,
            step_ok(
                *old(self).matches,
                parse_atom(syms(old(self).tokens@), old(self).pos as int),
                final(self).pos as int,
                r,
            ),
        decreases old(self).tokens@.len() - old(self).pos, 1nat,
    {
        let ghost t = syms(self.tokens@);
        let ghost p = self.pos as int;
        match self.peek() {
            Some(Token::Open) => {
                assert(t[p] is Open);
                self.pos += 1;
                proof {
                    parse_progress(t, p + 1, 3);
                }
                let value: bool = match self.or_expr() {
                    Ok(v) => v,
                    Err(m) => {
                        return Err(m);
                    },
                };
                let closed = match self.peek() {
                    Some(Token::Close) => true,
                    _ => false,
                };
                assert(closed == (self.pos < t.len() && t[self.pos as int] is Close));
                if !closed {
                    return Err("expected )".to_owned());
                }
                self.pos += 1;
                Ok(value)
            },
            Some(Token::Ident(ident)) => {
                assert(t[p] == Sym::Ident(ident@));
                self.pos += 1;
                let word: &str = ident.as_str();
                let b: bool = (self.matches)(word);
                assert(call_ensures(*self.matches, (word,), b));
                Ok(b)
            },
            Some(Token::And) => {
                assert(t[p] is And);
                Err("unexpected token: Some(And)".to_owned())
            },
            Some(Token::Or) => {
                assert(t[p] is Or);
                Err("unexpected token: Some(Or)".to_owned())
            },
            Some(Token::Not) => {
                assert(t[p] is Not);
                Err("unexpected token: Some(Not)".to_owned())
            },
            Some(Token::Close) => {
                assert(t[p] is Close);
                Err("unexpected token: Some(Close)".to_owned())
            },
            None => Err("unexpected token: None".to_owned()),
        }
    }
}

/// Evaluates a selection expression; `matches` decides one identifier. An
/// expression without tokens selects everything.
pub fn evaluate<F: Fn(&str) -> bool>(expr: &str, matches: F) -> (r: Result<bool, String>)
    requires
        forall|x: &str| #[trigger] call_requires(matches, (x,)),
    ensures
        tokens_of(expr@).len() == 0 ==> r == Ok::<bool, String>(true),
        tokens_of(expr@).len() > 0 ==> match parse_all(tokens_of(expr@)) {
            Ok(e) => r matches Ok(b) && evaluates(matches, e, b) && forall|
                m: spec_fn(Seq<char>) -> bool,
            | #[trigger]
                decides(matches, m) ==> b == value(e, m),
            Err(message) => r matches Err(s) && s@ == message,
        },
{
    let tokens = tokenize(expr);
    if tokens.len() == 0 {
        return Ok(true);
    }
    let n: usize = tokens.len();
    let mut parser = Parser { tokens: tokens.as_slice(), pos: 0, matches: &matches };
    match parser.or_expr() {
        Ok(b) => {
            if parser.pos != n {
                return Err("unexpected trailing tokens".to_owned());
            }
            proof {
                let e = parse_all(tokens_of(expr@))->Ok_0;
                assert forall|m: spec_fn(Seq<char>) -> bool| #[trigger]
                    decides(matches, m) implies b == value(e, m) by {
                    evaluates_to_value(matches, e, b, m);
                }
            }
            Ok(b)
        },
        Err(m) => Err(m),
    }
}

// ---------------------------------------------------------------------------
// Laws
// ---------------------------------------------------------------------------

/// An expression of white space alone has no tokens, so it selects
/// everything.
pub proof fn blank_has_no_tokens(s: Seq<char>)
    requires
        forall|i: int| 0 <= i < s.len() ==> is_space(#[trigger] s[i]),
    ensures
        tokens_of(s) == Seq::<Sym>::empty(),
    decreases s.len(),
{
    if s.len() > 0 {
        assert(is_space(s[0]));
        assert forall|i: int| 0 <= i < s.skip(1).len() implies is_space(#[trigger] s.skip(1)[i]) by {
            assert(is_space(s[i + 1]));
        }
        blank_has_no_tokens(s.skip(1));
        assert(tokens_of(s) =~= Seq::<Sym>::empty());
    }
}

/// `e` in parentheses.
pub open spec fn grouped(e: Expr) -> Seq<Sym>
    decreases e, 1nat,
{
    seq![Sym::Open] + spelled(e) + seq![Sym::Close]
}

/// `e` written out, with every operand in parentheses.
pub open spec fn spelled(e: Expr) -> Seq<Sym>
    decreases e, 0nat,
{
    match e {
        Expr::Ident(w) => seq![Sym::Ident(w)],
        Expr::Not(x) => seq![Sym::Not] + grouped(*x),
        Expr::And(x, y) => grouped(*x) + seq![Sym::And] + grouped(*y),
        Expr::Or(x, y) => grouped(*x) + seq![Sym::Or] + grouped(*y),
    }
}

/// `part` stands in `t` at `p`.
pub open spec fn stands(t: Seq<Sym>, p: int, part: Seq<Sym>) -> bool {
    0 <= p && p + part.len() <= t.len() && t.subrange(p, p + part.len()) == part
}

proof fn grouped_parses(t: Seq<Sym>, p: int, e: Expr)
    requires
        stands(t, p, grouped(e)),
    ensures
        parse_atom(t, p) == Ok::<(Expr, int), (Seq<char>, int)>((e, p + grouped(e).len())),
        parse_not(t, p) == parse_atom(t, p),
        grouped(e).len() >= 2,
    decreases e, 3nat,
{
    let g = grouped(e);
    let n = spelled(e).len() as int;
    assert(t.subrange(p, p + g.len())[0] == Sym::Open);
    assert(t.subrange(p, p + g.len())[n + 1] == Sym::Close);
    assert(t.subrange(p + 1, p + 1 + n) =~= spelled(e)) by {
        assert forall|i: int| 0 <= i < n implies t[p + 1 + i] == spelled(e)[i] by {
            assert(t.subrange(p, p + g.len())[i + 1] == g[i + 1]);
        }
    }
    spelled_parses(t, p + 1, e);
}

proof fn spelled_parses(t: Seq<Sym>, p: int, e: Expr)
    requires
        stands(t, p, spelled(e)),
        p + spelled(e).len() < t.len() ==> {
            &&& !(t[p + spelled(e).len()] is And)
            &&& !(t[p + spelled(e).len()] is Or)
        },
    ensures
        parse_or(t, p) == Ok::<(Expr, int), (Seq<char>, int)>((e, p + spelled(e).len())),
    decreases e, 2nat,
{
    let s = spelled(e);
    let sub = t.subrange(p, p + s.len());
    match e {
        Expr::Ident(w) => {
            assert(sub[0] == Sym::Ident(w));
            assert(parse_atom(t, p) == Ok::<(Expr, int), (Seq<char>, int)>((e, p + 1)));
            assert(parse_not(t, p) == Ok::<(Expr, int), (Seq<char>, int)>((e, p + 1)));
            assert(and_rest(t, p + 1, e) == Ok::<(Expr, int), (Seq<char>, int)>((e, p + 1)));
        },
        Expr::Not(x) => {
            assert(sub[0] == Sym::Not);
            assert(t.subrange(p + 1, p + 1 + grouped(*x).len()) =~= grouped(*x)) by {
                assert forall|i: int| 0 <= i < grouped(*x).len() implies t[p + 1 + i] == grouped(
                    *x,
                )[i] by {
                    assert(sub[i + 1] == s[i + 1]);
                }
            }
            grouped_parses(t, p + 1, *x);
            assert(parse_not(t, p) == Ok::<(Expr, int), (Seq<char>, int)>((e, p + s.len())));
            assert(and_rest(t, p + s.len(), e) == Ok::<(Expr, int), (Seq<char>, int)>((e, p + s.len())));
        },
        Expr::And(x, y) => {
            two_groups(t, p, e, *x, Sym::And, *y);
            let q = p + grouped(*x).len();
            let end = p + s.len();
            assert(parse_not(t, p) == Ok::<(Expr, int), (Seq<char>, int)>((*x, q)));
            assert(parse_not(t, q + 1) == Ok::<(Expr, int), (Seq<char>, int)>((*y, end)));
            assert(and_rest(t, end, e) == Ok::<(Expr, int), (Seq<char>, int)>((e, end)));
            assert(and_rest(t, q, *x) == Ok::<(Expr, int), (Seq<char>, int)>((e, end)));
            assert(parse_and(t, p) == Ok::<(Expr, int), (Seq<char>, int)>((e, end)));
        },
        Expr::Or(x, y) => {
            two_groups(t, p, e, *x, Sym::Or, *y);
            let q = p + grouped(*x).len();
            let end = p + s.len();
            assert(parse_not(t, p) == Ok::<(Expr, int), (Seq<char>, int)>((*x, q)));
            assert(and_rest(t, q, *x) == Ok::<(Expr, int), (Seq<char>, int)>((*x, q)));
            assert(parse_and(t, p) == Ok::<(Expr, int), (Seq<char>, int)>((*x, q)));
            assert(parse_not(t, q + 1) == Ok::<(Expr, int), (Seq<char>, int)>((*y, end)));
            assert(and_rest(t, end, *y) == Ok::<(Expr, int), (Seq<char>, int)>((*y, end)));
            assert(parse_and(t, q + 1) == Ok::<(Expr, int), (Seq<char>, int)>((*y, end)));
            assert(or_rest(t, end, e) == Ok::<(Expr, int), (Seq<char>, int)>((e, end)));
            assert(or_rest(t, q, *x) == Ok::<(Expr, int), (Seq<char>, int)>((e, end)));
        },
    }
}

proof fn two_groups(t: Seq<Sym>, p: int, e: Expr, x: Expr, op: Sym, y: Expr)
    requires
        stands(t, p, grouped(x) + seq![op] + grouped(y)),
        e == Expr::And(Box::new(x), Box::new(y)) || e == Expr::Or(Box::new(x), Box::new(y)),
    ensures
        t[p + grouped(x).len()] == op,
        grouped(x).len() >= 2,
        grouped(y).len() >= 2,
        parse_not(t, p) == Ok::<(Expr, int), (Seq<char>, int)>((x, p + grouped(x).len())),
        parse_not(t, p + grouped(x).len() + 1) == Ok::<(Expr, int), (Seq<char>, int)>(
            (y, p + grouped(x).len() + 1 + grouped(y).len()),
        ),
    decreases e, 1nat,
{
    let s = grouped(x) + seq![op] + grouped(y);
    let n = grouped(x).len() as int;
    let sub = t.subrange(p, p + s.len());
    assert(sub[n] == op);
    assert(t.subrange(p, p + n) =~= grouped(x)) by {
        assert forall|i: int| 0 <= i < n implies t[p + i] == grouped(x)[i] by {
            assert(sub[i] == s[i]);
        }
    }
    assert(t.subrange(p + n + 1, p + n + 1 + grouped(y).len()) =~= grouped(y)) by {
        assert forall|i: int| 0 <= i < grouped(y).len() implies t[p + n + 1 + i] == grouped(y)[i] by {
            assert(sub[n + 1 + i] == s[n + 1 + i]);
        }
    }
    match e {
        Expr::And(a, b) | Expr::Or(a, b) => {
            grouped_parses(t, p, *a);
            grouped_parses(t, p + n + 1, *b);
        },
        _ => {},
    }
}

/// Every expression can be written: its fully parenthesised spelling parses
/// back to it.
pub proof fn spelling_parses_back(e: Expr)
    ensures
        parse_all(spelled(e)) == Ok::<Expr, Seq<char>>(e),
{
    assert(spelled(e).subrange(0, spelled(e).len() as int) =~= spelled(e));
    spelled_parses(spelled(e), 0, e);
}

/// `and` binds tighter than `or`, and `not` tighter than both.
pub proof fn binding_strength(a: Seq<char>, b: Seq<char>, c: Seq<char>)
    ensures
        parse_all(seq![Sym::Ident(a), Sym::Or, Sym::Ident(b), Sym::And, Sym::Ident(c)]) == Ok::<
            Expr,
            Seq<char>,
        >(
            Expr::Or(
                Box::new(Expr::Ident(a)),
                Box::new(Expr::And(Box::new(Expr::Ident(b)), Box::new(Expr::Ident(c)))),
            ),
        ),
        parse_all(seq![Sym::Not, Sym::Ident(a), Sym::And, Sym::Ident(b)]) == Ok::<Expr, Seq<char>>(
            Expr::And(
                Box::new(Expr::Not(Box::new(Expr::Ident(a)))),
                Box::new(Expr::Ident(b)),
            ),
        ),
{
    reveal_with_fuel(parse_or, 3);
    reveal_with_fuel(or_rest, 3);
    reveal_with_fuel(parse_and, 3);
    reveal_with_fuel(and_rest, 3);
    reveal_with_fuel(parse_not, 3);
    reveal_with_fuel(parse_atom, 3);
}

/// A character that ends a word.
pub open spec fn ends_word(c: char) -> bool {
    c == '(' || c == ')' || is_space(c)
}

/// The token of a character that ends a word, if it has one.
pub open spec fn mark_of(c: char) -> Seq<Sym> {
    if c == '(' {
        seq![Sym::Open]
    } else if c == ')' {
        seq![Sym::Close]
    } else {
        seq![]
    }
}

proof fn scanned_joins(a: Seq<char>, word: Seq<char>, c: char, b: Seq<char>)
    requires
        ends_word(c),
    ensures
        scanned(a + seq![c] + b, word) == scanned(a, word) + mark_of(c) + scanned(b, seq![]),
    decreases a.len(),
{
    let s = a + seq![c] + b;
    if a.len() == 0 {
        assert(s[0] == c);
        assert(s.skip(1) =~= b);
        assert(scanned(s, word) =~= scanned(a, word) + mark_of(c) + scanned(b, seq![]));
    } else {
        assert(s[0] == a[0]);
        assert(s.skip(1) =~= a.skip(1) + seq![c] + b);
        let next = if ends_word(a[0]) {
            seq![]
        } else {
            word.push(a[0])
        };
        scanned_joins(a.skip(1), next, c, b);
        assert(scanned(s, word) =~= scanned(a, word) + mark_of(c) + scanned(b, seq![]));
    }
}

/// The tokens of two texts with white space or a parenthesis between them are
/// those of the one, the parenthesis, and those of the other.
pub proof fn tokens_of_joined_texts(a: Seq<char>, c: char, b: Seq<char>)
    requires
        ends_word(c),
    ensures
        tokens_of(a + seq![c] + b) == tokens_of(a) + mark_of(c) + tokens_of(b),
{
    scanned_joins(a, seq![], c, b);
}

/// The expression is made without `not`.
pub open spec fn without_not(e: Expr) -> bool
    decreases e,
{
    match e {
        Expr::Ident(_) => true,
        Expr::Not(_) => false,
        Expr::And(x, y) => without_not(*x) && without_not(*y),
        Expr::Or(x, y) => without_not(*x) && without_not(*y),
    }
}

proof fn parses_without_not(t: Seq<Sym>, p: int, level: nat)
    requires
        0 <= p,
        level <= 3,
        forall|i: int| 0 <= i < t.len() ==> !(#[trigger] t[i] is Not),
    ensures
        level == 0 ==> (parse_atom(t, p) matches Ok((e, _)) ==> without_not(e)),
        level == 1 ==> (parse_not(t, p) matches Ok((e, _)) ==> without_not(e)),
        level == 2 ==> (parse_and(t, p) matches Ok((e, _)) ==> without_not(e)),
        level == 3 ==> (parse_or(t, p) matches Ok((e, _)) ==> without_not(e)),
    decreases t.len() - p, level, 1nat,
{
    if level == 0 {
        if p < t.len() && t[p] is Open {
            parses_without_not(t, p + 1, 3);
        }
    } else if level == 1 {
        parses_without_not(t, p, 0);
    } else if level == 2 {
        parses_without_not(t, p, 1);
        parse_progress(t, p, 1);
        if let Ok((e, q)) = parse_not(t, p) {
            and_rest_without_not(t, q, e);
        }
    } else {
        parses_without_not(t, p, 2);
        parse_progress(t, p, 2);
        if let Ok((e, q)) = parse_and(t, p) {
            or_rest_without_not(t, q, e);
        }
    }
}

proof fn and_rest_without_not(t: Seq<Sym>, p: int, left: Expr)
    requires
        0 <= p,
        without_not(left),
        forall|i: int| 0 <= i < t.len() ==> !(#[trigger] t[i] is Not),
    ensures
        and_rest(t, p, left) matches Ok((e, _)) ==> without_not(e),
    decreases t.len() - p, 0nat, 0nat,
{
    if p < t.len() && t[p] is And {
        parses_without_not(t, p + 1, 1);
        parse_progress(t, p + 1, 1);
        if let Ok((e, q)) = parse_not(t, p + 1) {
            and_rest_without_not(t, q, Expr::And(Box::new(left), Box::new(e)));
        }
    }
}

proof fn or_rest_without_not(t: Seq<Sym>, p: int, left: Expr)
    requires
        0 <= p,
        without_not(left),
        forall|i: int| 0 <= i < t.len() ==> !(#[trigger] t[i] is Not),
    ensures
        or_rest(t, p, left) matches Ok((e, _)) ==> without_not(e),
    decreases t.len() - p, 0nat, 0nat,
{
    if p < t.len() && t[p] is Or {
        parses_without_not(t, p + 1, 2);
        parse_progress(t, p + 1, 2);
        if let Ok((e, q)) = parse_and(t, p + 1) {
            or_rest_without_not(t, q, Expr::Or(Box::new(left), Box::new(e)));
        }
    }
}

proof fn value_grows(
    e: Expr,
    fewer: spec_fn(Seq<char>) -> bool,
    more: spec_fn(Seq<char>) -> bool,
)
    requires
        without_not(e),
        forall|w: Seq<char>| #[trigger] fewer(w) ==> more(w),
        value(e, fewer),
    ensures
        value(e, more),
    decreases e,
{
    match e {
        Expr::Ident(w) => {
            assert(fewer(w));
        },
        Expr::Not(_) => {},
        Expr::And(x, y) => {
            value_grows(*x, fewer, more);
            value_grows(*y, fewer, more);
        },
        Expr::Or(x, y) => {
            if value(*x, fewer) {
                value_grows(*x, fewer, more);
            } else {
                value_grows(*y, fewer, more);
            }
        },
    }
}

/// An expression without `not` that holds still holds where more identifiers
/// match.
pub proof fn more_matches_select_more(
    t: Seq<Sym>,
    fewer: spec_fn(Seq<char>) -> bool,
    more: spec_fn(Seq<char>) -> bool,
)
    requires
        forall|i: int| 0 <= i < t.len() ==> !(#[trigger] t[i] is Not),
        forall|w: Seq<char>| #[trigger] fewer(w) ==> more(w),
        parse_all(t) matches Ok(e) && value(e, fewer),
    ensures
        parse_all(t) matches Ok(e) && value(e, more),
{
    parses_without_not(t, 0, 3);
    value_grows(parse_all(t)->Ok_0, fewer, more);
}

/// `t` stands in `u` from `k` on, and a closing parenthesis follows it.
pub open spec fn enclosed(t: Seq<Sym>, u: Seq<Sym>, k: int) -> bool {
    stands(u, k, t + seq![Sym::Close])
}

proof fn enclosed_at(t: Seq<Sym>, u: Seq<Sym>, k: int, i: int)
    requires
        enclosed(t, u, k),
        0 <= i <= t.len(),
    ensures
        0 <= k + i < u.len(),
        i < t.len() ==> u[k + i] == t[i],
        i == t.len() ==> u[k + i] is Close,
{
    let part = t + seq![Sym::Close];
    assert(u.subrange(k, k + part.len())[i] == part[i]);
}

/// What parses in one place parses alike inside parentheses.
proof fn enclosed_parses(t: Seq<Sym>, u: Seq<Sym>, k: int, p: int, level: nat)
    requires
        enclosed(t, u, k),
        0 <= p <= t.len(),
        level <= 3,
    ensures
        level == 0 ==> (parse_atom(t, p) matches Ok((e, q)) ==> parse_atom(u, k + p) == Ok::<
            (Expr, int),
            (Seq<char>, int),
        >((e, k + q))),
        level == 1 ==> (parse_not(t, p) matches Ok((e, q)) ==> parse_not(u, k + p) == Ok::<
            (Expr, int),
            (Seq<char>, int),
        >((e, k + q))),
        level == 2 ==> (parse_and(t, p) matches Ok((e, q)) ==> parse_and(u, k + p) == Ok::<
            (Expr, int),
            (Seq<char>, int),
        >((e, k + q))),
        level == 3 ==> (parse_or(t, p) matches Ok((e, q)) ==> parse_or(u, k + p) == Ok::<
            (Expr, int),
            (Seq<char>, int),
        >((e, k + q))),
    decreases t.len() - p, level, 1nat,
{
    enclosed_at(t, u, k, p);
    if level == 0 {
        if p < t.len() && t[p] is Open {
            parse_progress(t, p + 1, 3);
            enclosed_parses(t, u, k, p + 1, 3);
            if let Ok((e, q)) = parse_or(t, p + 1) {
                enclosed_at(t, u, k, q);
            }
        }
    } else if level == 1 {
        if p < t.len() && t[p] is Not {
            enclosed_parses(t, u, k, p + 1, 1);
        } else {
            enclosed_parses(t, u, k, p, 0);
        }
    } else if level == 2 {
        parse_progress(t, p, 1);
        enclosed_parses(t, u, k, p, 1);
        if let Ok((e, q)) = parse_not(t, p) {
            enclosed_at(t, u, k, q);
            enclosed_and_rest(t, u, k, q, e);
        }
    } else {
        parse_progress(t, p, 2);
        enclosed_parses(t, u, k, p, 2);
        if let Ok((e, q)) = parse_and(t, p) {
            enclosed_at(t, u, k, q);
            enclosed_or_rest(t, u, k, q, e);
        }
    }
}

proof fn enclosed_and_rest(t: Seq<Sym>, u: Seq<Sym>, k: int, p: int, left: Expr)
    requires
        enclosed(t, u, k),
        0 <= p <= t.len(),
    ensures
        and_rest(t, p, left) matches Ok((e, q)) ==> and_rest(u, k + p, left) == Ok::<
            (Expr, int),
            (Seq<char>, int),
        >((e, k + q)),
    decreases t.len() - p, 0nat, 0nat,
{
    enclosed_at(t, u, k, p);
    if p < t.len() && t[p] is And {
        parse_progress(t, p + 1, 1);
        enclosed_parses(t, u, k, p + 1, 1);
        if let Ok((e, q)) = parse_not(t, p + 1) {
            enclosed_at(t, u, k, q);
            enclosed_and_rest(t, u, k, q, Expr::And(Box::new(left), Box::new(e)));
        }
    }
}

proof fn enclosed_or_rest(t: Seq<Sym>, u: Seq<Sym>, k: int, p: int, left: Expr)
    requires
        enclosed(t, u, k),
        0 <= p <= t.len(),
    ensures
        or_rest(t, p, left) matches Ok((e, q)) ==> or_rest(u, k + p, left) == Ok::<
            (Expr, int),
            (Seq<char>, int),
        >((e, k + q)),
    decreases t.len() - p, 0nat, 0nat,
{
    enclosed_at(t, u, k, p);
    if p < t.len() && t[p] is Or {
        parse_progress(t, p + 1, 2);
        enclosed_parses(t, u, k, p + 1, 2);
        if let Ok((e, q)) = parse_and(t, p + 1) {
            enclosed_at(t, u, k, q);
            enclosed_or_rest(t, u, k, q, Expr::Or(Box::new(left), Box::new(e)));
        }
    }
}

/// Tokens in parentheses.
pub open spec fn bracketed(t: Seq<Sym>) -> Seq<Sym> {
    seq![Sym::Open] + t + seq![Sym::Close]
}

proof fn bracketed_parses(t: Seq<Sym>, u: Seq<Sym>, k: int, e: Expr)
    requires
        parse_all(t) == Ok::<Expr, Seq<char>>(e),
        stands(u, k, bracketed(t)),
    ensures
        parse_not(u, k) == Ok::<(Expr, int), (Seq<char>, int)>((e, k + t.len() + 2)),
{
    let n = t.len() as int;
    let part = bracketed(t);
    let inner = t + seq![Sym::Close];
    let sub = u.subrange(k, k + part.len());
    assert(sub[0] == Sym::Open);
    assert(u.subrange(k + 1, k + 1 + inner.len()) =~= inner) by {
        assert forall|i: int| 0 <= i < inner.len() implies u[k + 1 + i] == inner[i] by {
            assert(sub[i + 1] == part[i + 1]);
        }
    }
    enclosed_parses(t, u, k + 1, 0, 3);
    enclosed_at(t, u, k + 1, n);
    assert(parse_or(u, k + 1) == Ok::<(Expr, int), (Seq<char>, int)>((e, k + 1 + n)));
    assert(u[k] is Open && u[k + 1 + n] is Close);
    assert(parse_atom(u, k) == Ok::<(Expr, int), (Seq<char>, int)>((e, k + n + 2)));
}

/// Expressions in parentheses combine: the value of `(a) and (b)` is that of
/// both, of `(a) or (b)` that of either, and of `not (a)` the opposite.
pub proof fn brackets_combine(a: Seq<Sym>, b: Seq<Sym>, x: Expr, y: Expr)
    requires
        parse_all(a) == Ok::<Expr, Seq<char>>(x),
        parse_all(b) == Ok::<Expr, Seq<char>>(y),
    ensures
        parse_all(bracketed(a)) == Ok::<Expr, Seq<char>>(x),
        parse_all(bracketed(a) + seq![Sym::And] + bracketed(b)) == Ok::<Expr, Seq<char>>(
            Expr::And(Box::new(x), Box::new(y)),
        ),
        parse_all(bracketed(a) + seq![Sym::Or] + bracketed(b)) == Ok::<Expr, Seq<char>>(
            Expr::Or(Box::new(x), Box::new(y)),
        ),
        parse_all(seq![Sym::Not] + bracketed(a)) == Ok::<Expr, Seq<char>>(Expr::Not(Box::new(x))),
        forall|m: spec_fn(Seq<char>) -> bool|
            #![trigger value(x, m)]
            #![trigger value(y, m)]
            {
                &&& value(Expr::And(Box::new(x), Box::new(y)), m) == (value(x, m) && value(y, m))
                &&& value(Expr::Or(Box::new(x), Box::new(y)), m) == (value(x, m) || value(y, m))
                &&& value(Expr::Not(Box::new(x)), m) == !value(x, m)
            },
{
    let one = bracketed(a);
    assert(one.subrange(0, one.len() as int) =~= one);
    bracketed_parses(a, one, 0, x);
    assert(and_rest(one, one.len() as int, x) == Ok::<(Expr, int), (Seq<char>, int)>(
        (x, one.len() as int),
    ));
    assert(parse_and(one, 0) == Ok::<(Expr, int), (Seq<char>, int)>((x, one.len() as int)));

    let negated = seq![Sym::Not] + one;
    assert(negated.subrange(1, 1 + one.len() as int) =~= one);
    bracketed_parses(a, negated, 1, x);
    let not_x = Expr::Not(Box::new(x));
    let n = negated.len() as int;
    assert(negated[0] is Not);
    assert(parse_not(negated, 0) == Ok::<(Expr, int), (Seq<char>, int)>((not_x, n)));
    assert(and_rest(negated, n, not_x) == Ok::<(Expr, int), (Seq<char>, int)>((not_x, n)));
    assert(parse_and(negated, 0) == Ok::<(Expr, int), (Seq<char>, int)>((not_x, n)));

    both_parse(a, b, x, y, Sym::And);
    both_parse(a, b, x, y, Sym::Or);
}

proof fn both_parse(a: Seq<Sym>, b: Seq<Sym>, x: Expr, y: Expr, op: Sym)
    requires
        parse_all(a) == Ok::<Expr, Seq<char>>(x),
        parse_all(b) == Ok::<Expr, Seq<char>>(y),
        op is And || op is Or,
    ensures
        op is And ==> parse_all(bracketed(a) + seq![op] + bracketed(b)) == Ok::<Expr, Seq<char>>(
            Expr::And(Box::new(x), Box::new(y)),
        ),
        op is Or ==> parse_all(bracketed(a) + seq![op] + bracketed(b)) == Ok::<Expr, Seq<char>>(
            Expr::Or(Box::new(x), Box::new(y)),
        ),
{
    let left = bracketed(a);
    let right = bracketed(b);
    let u = left + seq![op] + right;
    let q = left.len() as int;
    let end = u.len() as int;
    assert(u.subrange(0, q) =~= left);
    assert(u.subrange(q + 1, q + 1 + right.len()) =~= right);
    assert(u[q] == op);
    bracketed_parses(a, u, 0, x);
    bracketed_parses(b, u, q + 1, y);
    assert(parse_not(u, 0) == Ok::<(Expr, int), (Seq<char>, int)>((x, q)));
    assert(parse_not(u, q + 1) == Ok::<(Expr, int), (Seq<char>, int)>((y, end)));
    if op is And {
        let e = Expr::And(Box::new(x), Box::new(y));
        assert(and_rest(u, end, e) == Ok::<(Expr, int), (Seq<char>, int)>((e, end)));
        assert(and_rest(u, q, x) == Ok::<(Expr, int), (Seq<char>, int)>((e, end)));
        assert(parse_and(u, 0) == Ok::<(Expr, int), (Seq<char>, int)>((e, end)));
        assert(or_rest(u, end, e) == Ok::<(Expr, int), (Seq<char>, int)>((e, end)));
    } else {
        let e = Expr::Or(Box::new(x), Box::new(y));
        assert(and_rest(u, q, x) == Ok::<(Expr, int), (Seq<char>, int)>((x, q)));
        assert(parse_and(u, 0) == Ok::<(Expr, int), (Seq<char>, int)>((x, q)));
        assert(and_rest(u, end, y) == Ok::<(Expr, int), (Seq<char>, int)>((y, end)));
        assert(parse_and(u, q + 1) == Ok::<(Expr, int), (Seq<char>, int)>((y, end)));
        assert(or_rest(u, end, e) == Ok::<(Expr, int), (Seq<char>, int)>((e, end)));
        assert(or_rest(u, q, x) == Ok::<(Expr, int), (Seq<char>, int)>((e, end)));
    }
}

proof fn operator_token(word: Seq<char>, op: Sym)
    requires
        word == "and"@ && op == Sym::And || word == "or"@ && op == Sym::Or,
    ensures
        tokens_of(word) == seq![op],
{
    reveal_strlit("and");
    reveal_strlit("or");
    reveal_with_fuel(scanned, 4);
    if word == "and"@ {
        assert(word.skip(1).skip(1).skip(1).len() == 0);
        assert(seq![].push('a').push('n').push('d') =~= word);
    } else {
        assert(word.skip(1).skip(1).len() == 0);
        assert(seq![].push('o').push('r') =~= word);
        assert(word != "and"@);
    }
    assert(tokens_of(word) =~= seq![op]);
}

proof fn bracketed_text(a: Seq<char>)
    ensures
        tokens_of(seq!['('] + a + seq![')']) == bracketed(tokens_of(a)),
{
    let nothing = Seq::<char>::empty();
    let open = seq!['('] + a;
    tokens_of_joined_texts(nothing, '(', a);
    tokens_of_joined_texts(open, ')', nothing);
    assert(nothing + seq!['('] + a =~= open);
    assert(open + seq![')'] + nothing =~= seq!['('] + a + seq![')']);
    assert(tokens_of(nothing) =~= seq![]);
    assert(tokens_of(open) =~= seq![Sym::Open] + tokens_of(a));
    assert(tokens_of(seq!['('] + a + seq![')']) =~= bracketed(tokens_of(a)));
}

/// The tokens of `(a) and (b)` and of `(a) or (b)` are those of the two texts
/// in parentheses, with the operator between them.
pub proof fn tokens_of_bracketed_texts(a: Seq<char>, b: Seq<char>, word: Seq<char>, op: Sym)
    requires
        word == "and"@ && op == Sym::And || word == "or"@ && op == Sym::Or,
    ensures
        tokens_of(
            seq!['('] + a + seq![')'] + seq![' '] + word + seq![' '] + (seq!['('] + b + seq![')']),
        ) == bracketed(tokens_of(a)) + seq![op] + bracketed(tokens_of(b)),
{
    let left = seq!['('] + a + seq![')'];
    let right = seq!['('] + b + seq![')'];
    assert(is_space(' '));
    bracketed_text(a);
    bracketed_text(b);
    operator_token(word, op);
    tokens_of_joined_texts(left, ' ', word);
    let head = left + seq![' '] + word;
    tokens_of_joined_texts(head, ' ', right);
    assert(tokens_of(head) =~= bracketed(tokens_of(a)) + seq![op]);
    assert(tokens_of(head + seq![' '] + right) =~= bracketed(tokens_of(a)) + seq![op]
        + bracketed(tokens_of(b)));
}

/// A word is one token: `and`, `or` and `not` are operators, any other word stands
/// for itself.
pub proof fn words_are_tokens(word: Seq<char>)
    requires
        word.len() > 0,
        forall|i: int|
            0 <= i < word.len() ==> (#[trigger] word[i]) != '(' && word[i] != ')' && !is_space(
                word[i],
            ),
    ensures
        word == "and"@ ==> tokens_of(word) == seq![Sym::And],
        word == "or"@ ==> tokens_of(word) == seq![Sym::Or],
        word == "not"@ ==> tokens_of(word) == seq![Sym::Not],
        word != "and"@ && word != "or"@ && word != "not"@ ==> tokens_of(word) == seq![
            Sym::Ident(word),
        ],
{
    reveal_strlit("and");
    reveal_strlit("or");
    reveal_strlit("not");
    assert("and"@[0] == 'a' && "or"@[0] == 'o' && "not"@[0] == 'n');
    let none = Seq::<char>::empty();
    word_is_scanned(word, none);
    assert(none + word =~= word);
}

proof fn word_is_scanned(s: Seq<char>, word: Seq<char>)
    requires
        forall|i: int|
            0 <= i < s.len() ==> (#[trigger] s[i]) != '(' && s[i] != ')' && !is_space(s[i]),
    ensures
        scanned(s, word) == pending(word + s),
    decreases s.len(),
{
    if s.len() == 0 {
        assert(word + s =~= word);
    } else {
        assert(s[0] != '(' && s[0] != ')' && !is_space(s[0]));
        assert forall|i: int| 0 <= i < s.skip(1).len() implies (#[trigger] s.skip(1)[i]) != '('
            && s.skip(1)[i] != ')' && !is_space(s.skip(1)[i]) by {
            assert(s.skip(1)[i] == s[i + 1]);
        }
        word_is_scanned(s.skip(1), word.push(s[0]));
        assert(word.push(s[0]) + s.skip(1) =~= word + s);
    }
}

/// A word alone is as true as the matcher says of it.
pub proof fn words_are_matched(w: Seq<char>, m: spec_fn(Seq<char>) -> bool)
    ensures
        parse_all(seq![Sym::Ident(w)]) == Ok::<Expr, Seq<char>>(Expr::Ident(w)),
        value(Expr::Ident(w), m) == m(w),
{
    spelling_parses_back(Expr::Ident(w));
}

/// What is no expression is refused, with the reason: one that starts with an operator
/// that needs something before it, or with a closing bracket; one that ends where
/// something is to follow; two words in a row; a bracket that is not closed.
pub proof fn broken_expressions_are_refused(t: Seq<Sym>)
    ensures
        t.len() > 0 && t[0] is And ==> parse_all(t) == Err::<Expr, Seq<char>>(
            "unexpected token: Some(And)"@,
        ),
        t.len() > 0 && t[0] is Or ==> parse_all(t) == Err::<Expr, Seq<char>>(
            "unexpected token: Some(Or)"@,
        ),
        t.len() > 0 && t[0] is Close ==> parse_all(t) == Err::<Expr, Seq<char>>(
            "unexpected token: Some(Close)"@,
        ),
        t.len() == 1 && t[0] is Not ==> parse_all(t) == Err::<Expr, Seq<char>>(
            "unexpected token: None"@,
        ),
        t.len() >= 2 && t[0] is Ident && t[1] is Ident ==> parse_all(t) == Err::<Expr, Seq<char>>(
            "unexpected trailing tokens"@,
        ),
        t.len() == 2 && t[0] is Open && t[1] is Ident ==> parse_all(t) == Err::<Expr, Seq<char>>(
            "expected )"@,
        ),
{
    reveal_with_fuel(parse_not, 3);
    reveal_with_fuel(parse_or, 3);
    reveal_with_fuel(parse_and, 3);
    reveal_with_fuel(parse_atom, 3);
    reveal_with_fuel(and_rest, 2);
    reveal_with_fuel(or_rest, 2);
    if t.len() == 2 && t[0] is Open && t[1] is Ident {
        let e = Expr::Ident(t[1]->Ident_0);
        assert(parse_not(t, 1) == Ok::<(Expr, int), (Seq<char>, int)>((e, 2)));
        assert(and_rest(t, 2, e) == Ok::<(Expr, int), (Seq<char>, int)>((e, 2)));
        assert(parse_and(t, 1) == Ok::<(Expr, int), (Seq<char>, int)>((e, 2)));
        assert(parse_or(t, 1) == Ok::<(Expr, int), (Seq<char>, int)>((e, 2)));
        assert(parse_atom(t, 0) is Err);
        assert(parse_not(t, 0) is Err);
    }
}

/// `and` binds tighter on the left of an `or` as well, and `not` takes one operand
/// only.
pub proof fn binding_strength_on_the_left(a: Seq<char>, b: Seq<char>, c: Seq<char>)
    ensures
        parse_all(seq![Sym::Ident(a), Sym::And, Sym::Ident(b), Sym::Or, Sym::Ident(c)]) == Ok::<
            Expr,
            Seq<char>,
        >(
            Expr::Or(
                Box::new(Expr::And(Box::new(Expr::Ident(a)), Box::new(Expr::Ident(b)))),
                Box::new(Expr::Ident(c)),
            ),
        ),
        parse_all(seq![Sym::Not, Sym::Ident(a), Sym::Or, Sym::Ident(b)]) == Ok::<Expr, Seq<char>>(
            Expr::Or(
                Box::new(Expr::Not(Box::new(Expr::Ident(a)))),
                Box::new(Expr::Ident(b)),
            ),
        ),
{
    reveal_with_fuel(parse_or, 3);
    reveal_with_fuel(or_rest, 3);
    reveal_with_fuel(parse_and, 3);
    reveal_with_fuel(and_rest, 3);
    reveal_with_fuel(parse_not, 3);
    reveal_with_fuel(parse_atom, 3);
}

} // verus!
