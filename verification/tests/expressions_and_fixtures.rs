use pytest_rs_core::fixture::{precedes, FixtureDef, FixtureRegistry, Scope};
use pytest_rs_core::markexpr::{evaluate, tokenize, Parser, Token};
use pytest_rs_core::object::Handle;

fn strings(v: &[&str]) -> Vec<String> {
    v.iter().map(|s| s.to_string()).collect()
}

fn fixture(name: &str, baseid: &str, scope: Scope, autouse: bool, params: &[&str]) -> FixtureDef {
    FixtureDef {
        name: name.to_string(),
        func: Handle { id: 0 },
        scope,
        autouse,
        is_coroutine: false,
        is_generator: false,
        is_async_gen: false,
        param_names: strings(params),
        baseid: baseid.to_string(),
        needs_instance: false,
        params: None,
        ids: None,
    }
}

fn names(registry: &FixtureRegistry, at: &[usize]) -> Vec<String> {
    at.iter().map(|i| registry.all_defs()[*i].name.clone()).collect()
}

#[test]
fn expressions_are_evaluated() {
    let has = |names: &[&str], expr: &str| {
        let names = strings(names);
        evaluate(expr, |name| names.iter().any(|n| n == name))
    };
    assert_eq!(has(&["a"], "a"), Ok(true));
    assert_eq!(has(&["a"], "not a"), Ok(false));
    assert_eq!(has(&["a"], "not not a"), Ok(true));
    assert_eq!(has(&["a"], "a and b"), Ok(false));
    assert_eq!(has(&["a"], "a or b"), Ok(true));
    assert_eq!(has(&["b"], "not (a or b)"), Ok(false));
    // "and" binds tighter than "or", "not" tightest.
    assert_eq!(has(&["a"], "a or b and c"), Ok(true));
    assert_eq!(has(&["a"], "(a or b) and c"), Ok(false));
    assert_eq!(has(&[], "not a and not b"), Ok(true));
}

#[test]
fn empty_expression_is_true() {
    assert_eq!(evaluate("  ", |_| false), Ok(true));
}

#[test]
fn bad_expressions_are_errors() {
    for expr in ["a and", "(a", "a b", ")", "and a", "or", "a or", "a )"] {
        assert!(evaluate(expr, |_| true).is_err(), "{expr}");
    }
}

#[test]
fn tokens_of_an_expression() {
    let tokens = tokenize("not(a or b_1) and test[x]");
    let kinds: Vec<String> = tokens
        .iter()
        .map(|t| match t {
            Token::Ident(s) => s.clone(),
            Token::And => "&".to_string(),
            Token::Or => "|".to_string(),
            Token::Not => "!".to_string(),
            Token::Open => "(".to_string(),
            Token::Close => ")".to_string(),
        })
        .collect();
    assert_eq!(kinds[..6], strings(&["!", "(", "a", "|", "b_1", ")"])[..]);
    assert_eq!(kinds[6], "&");
}

fn shown(tokens: &[Token]) -> Vec<String> {
    tokens.iter().map(|t| format!("{t:?}")).collect()
}

#[test]
fn joined_expressions_join_their_tokens() {
    for (a, b) in [("a and", " (b)"), ("not(", "x or y"), ("a ", "b"), ("", "a"), (")", "not")] {
        let joined = shown(&tokenize(&format!("{a}{b}")));
        let mut parts = shown(&tokenize(a));
        parts.extend(shown(&tokenize(b)));
        assert_eq!(joined, parts, "{a}|{b}");
    }
    // Without a boundary two words become one.
    assert_eq!(tokenize("ab").len(), 1);
}

#[test]
fn bracketed_expressions_combine() {
    let texts = ["a", "not a", "a or b", "a and not b", "(b)"];
    for names in [vec![], strings(&["a"]), strings(&["b"]), strings(&["a", "b"])] {
        let value = |expr: &str| evaluate(expr, |name| names.iter().any(|n| n == name)).unwrap();
        for a in texts {
            assert_eq!(value(&format!("not ({a})")), !value(a));
            for b in texts {
                assert_eq!(value(&format!("({a}) and ({b})")), value(a) && value(b));
                assert_eq!(value(&format!("({a}) or ({b})")), value(a) || value(b));
            }
        }
    }
}

#[test]
fn more_matching_names_select_more() {
    for expr in ["a or b", "a and b", "(a or b) and c", "a"] {
        let value = |names: &[&str]| evaluate(expr, |name| names.contains(&name)).unwrap();
        assert!(!value(&["a"]) || value(&["a", "b"]), "{expr}");
        assert!(!value(&["a", "b"]) || value(&["a", "b", "c"]), "{expr}");
        assert!(value(&["a", "b", "c"]), "{expr}");
    }
    // "not" breaks this.
    assert_eq!(evaluate("not a", |_| false), Ok(true));
    assert_eq!(evaluate("not a", |_| true), Ok(false));
}

#[test]
fn parsers_stop_where_the_error_lies() {
    let all = |_: &str| true;
    let tokens = tokenize("a and or b");
    let mut parser = Parser { tokens: &tokens, pos: 0, matches: &all };
    assert!(parser.or_expr().is_err());
    assert_eq!(parser.pos, 2);
    let mut parser = Parser { tokens: &tokens, pos: 9, matches: &all };
    assert!(parser.peek().is_none());
    assert!(parser.atom().is_err());
    assert_eq!(parser.pos, 9);
    let open = tokenize("(a b");
    let mut parser = Parser { tokens: &open, pos: 0, matches: &all };
    assert!(parser.not_expr().is_err());
    assert_eq!(parser.pos, 2);
}

#[test]
fn scope_names_round_trip() {
    for scope in [Scope::Function, Scope::Class, Scope::Module, Scope::Package, Scope::Session] {
        assert_eq!(Scope::parse(scope.as_str()), Some(scope));
    }
    assert_eq!(Scope::parse("session"), Some(Scope::Session));
    assert_eq!(Scope::parse("Session"), None);
    assert!(Scope::Session.rank() > Scope::Package.rank());
    assert!(Scope::Class.rank() > Scope::Function.rank());
}

#[test]
fn most_specific_definition_wins() {
    let mut r = FixtureRegistry::default();
    r.register(fixture("db", "", Scope::Session, false, &[]));
    r.register(fixture("db", "tests/a.py", Scope::Function, false, &["db"]));
    assert_eq!(r.lookup("db", "tests/a.py::f"), Some(1));
    assert_eq!(r.lookup("db", "tests/b.py::f"), Some(0));
    assert_eq!(r.lookup("x", "tests/b.py::f"), None);
    assert_eq!(r.lookup_overridden("db", "tests/a.py::f", 1), Some(0));
    assert_eq!(r.lookup_overridden("db", "tests/a.py::f", 0), None);
    assert_eq!(r.all_defs().len(), 2);
}

#[test]
fn closure_is_transitive_and_widest_first() {
    let mut r = FixtureRegistry::default();
    r.register(fixture("f", "", Scope::Function, false, &["m", "request"]));
    r.register(fixture("m", "", Scope::Module, false, &["s"]));
    r.register(fixture("s", "", Scope::Session, false, &[]));
    r.register(fixture("auto", "", Scope::Function, true, &[]));
    let closure = r.closure_for("a.py::t", &strings(&["f", "value"]));
    assert_eq!(names(&r, &closure), strings(&["s", "m", "auto", "f"]));
}

#[test]
fn direct_parameters_hide_fixtures() {
    let mut r = FixtureRegistry::default();
    r.register(fixture("f", "", Scope::Function, false, &["m"]));
    r.register(fixture("m", "", Scope::Module, false, &[]));
    let closure = r.closure_ignoring("a.py::t", &strings(&["f"]), &strings(&["f"]));
    assert_eq!(names(&r, &closure), strings(&["f"]));
}

#[test]
fn argnames_are_followed() {
    let mut r = FixtureRegistry::default();
    r.register(fixture("a", "", Scope::Function, false, &["b", "leaf"]));
    r.register(fixture("b", "", Scope::Function, false, &["c", "request"]));
    let mut found = r.transitive_argnames("x.py::t", &r.all_defs()[0]);
    found.sort();
    assert_eq!(found, strings(&["a", "b", "c", "leaf"]));
}

#[test]
fn overridden_fixtures_are_followed() {
    let mut r = FixtureRegistry::default();
    r.register(fixture("x", "", Scope::Function, false, &["y"]));
    r.register(fixture("x", "t.py::", Scope::Function, false, &["x", "item", "request"]));
    let mut found = r.transitive_argnames("t.py::test_a", &r.all_defs()[1]);
    found.sort();
    assert_eq!(found, strings(&["item", "x", "y"]));
    let mut found = r.transitive_argnames("t.py::test_a", &r.all_defs()[0]);
    found.sort();
    assert_eq!(found, strings(&["x", "y"]));
    // The same where the override is itself requested by name.
    r.register(fixture("user", "", Scope::Function, false, &["x"]));
    let mut found = r.transitive_argnames("t.py::test_a", &r.all_defs()[2]);
    found.sort();
    assert_eq!(found, strings(&["item", "user", "x", "y"]));
}

#[test]
fn autouse_order() {
    let mut r = FixtureRegistry::default();
    r.register(fixture("z", "", Scope::Function, true, &[]));
    r.register(fixture("y", "a.py", Scope::Function, true, &[]));
    r.register(fixture("a", "", Scope::Function, true, &[]));
    r.register(fixture("s", "a.py", Scope::Session, true, &[]));
    r.register(fixture("n", "", Scope::Session, false, &[]));
    r.register(fixture("other", "b.py", Scope::Session, true, &[]));
    let auto = r.autouse_for("a.py::t");
    assert_eq!(names(&r, &auto), strings(&["s", "a", "z", "y"]));
}

#[test]
fn text_order_is_that_of_str() {
    for a in ["", "a", "ab", "b", "B", "é", "\u{1f600}", "\u{ffff}"] {
        for b in ["", "a", "ab", "b", "B", "é", "\u{1f600}", "\u{ffff}"] {
            assert_eq!(precedes(a, b), a < b, "{a} {b}");
        }
    }
}
