use pytest_rs_core::banner::{
    builtin_mark, center_banner, center_named, center_with, section_rule, short_message,
};
use pytest_rs_core::lists::{has_text, partition, push_name, takeable, texts_prefix};
use pytest_rs_core::nodeid::{find_class_key, last_part, parts_of};
use pytest_rs_core::numbers::{code_text, parse_code, parse_count, parse_u64};
use pytest_rs_core::paths::{has_path, lies_below, parent, push_path, same_path};
use pytest_rs_core::text;

fn strings(v: &[&str]) -> Vec<String> {
    v.iter().map(|s| s.to_string()).collect()
}

#[test]
fn whitespace_agrees_with_char() {
    for code in 0u32..=0x10ffff {
        if let Some(c) = char::from_u32(code) {
            assert_eq!(text::is_whitespace(c), c.is_whitespace(), "{code:x}");
            assert_eq!(text::code_point(c), code);
        }
    }
}

#[test]
fn trimming_agrees_with_str() {
    for s in ["", "  ", " a b ", "\u{3000}x\u{2028}", "x", "\t\n x \u{85}", "ab"] {
        assert_eq!(text::trim(s), s.trim());
        assert_eq!(text::trim_start(s), s.trim_start());
        assert_eq!(text::trim_end(s), s.trim_end());
        let words: Vec<String> = s.split_whitespace().map(|w| w.to_string()).collect();
        assert_eq!(text::split_whitespace(s), words);
    }
}

#[test]
fn lines_agree_with_str() {
    for s in ["", "\n", "a", "a\n", "a\r\nb", "a\rb\n\n", "\r", "a\r", "\r\n\r\n", "x\n\ny"] {
        let lines: Vec<String> = s.lines().map(|l| l.to_string()).collect();
        assert_eq!(text::lines(s), lines, "{s:?}");
    }
}

#[test]
fn splitting_agrees_with_str() {
    for s in ["", "::", "a::b::c", "a:b", ":::", "a::", "::a", "a:::b"] {
        let parts: Vec<String> = s.split("::").map(|p| p.to_string()).collect();
        assert_eq!(text::split(s, "::"), parts, "{s:?}");
        assert_eq!(parts_of(s), parts, "{s:?}");
        let once = s.split_once("::").map(|(a, b)| (a.to_string(), b.to_string()));
        assert_eq!(text::split_once(s, "::"), once);
        assert_eq!(text::head(s, "::"), s.split("::").next().unwrap());
        assert_eq!(text::contains(s, "::"), s.contains("::"));
        assert_eq!(text::starts_with(s, "::"), s.starts_with("::"));
        assert_eq!(text::ends_with(s, "::"), s.ends_with("::"));
        assert_eq!(
            text::strip_prefix(s, "::"),
            s.strip_prefix("::").map(|r| r.to_string())
        );
        let last = s.rsplit_once(':').map(|(a, b)| (a.to_string(), b.to_string()));
        assert_eq!(text::split_last(s, ':'), last);
    }
}

#[test]
fn stripping_agrees_with_str() {
    for s in ["", "||a|", "a", "|", "a||", "pytest_pytest_x", "pytest_"] {
        assert_eq!(text::strip_start(s, '|'), s.trim_start_matches('|'));
        assert_eq!(text::strip_end(s, '|'), s.trim_end_matches('|'));
        assert_eq!(text::strip_prefixes(s, "pytest_"), s.trim_start_matches("pytest_"));
    }
}

#[test]
fn building_texts() {
    assert_eq!(text::join(&strings(&["a", "b", "c"]), ", "), "a, b, c");
    assert_eq!(text::join(&strings(&[]), ", "), "");
    assert_eq!(text::repeat('=', 3), "===");
    assert_eq!(text::decimal(0), "0");
    assert_eq!(text::decimal(907), "907");
    assert_eq!(text::decimal(usize::MAX), usize::MAX.to_string());
    assert_eq!(text::plural(0), "s");
    assert_eq!(text::plural(1), "");
    let cs = text::chars_of("héllo");
    assert_eq!(cs, vec!['h', 'é', 'l', 'l', 'o']);
    assert_eq!(text::string_of(&cs, 1, 4), "éll");
}

#[test]
fn numbers_are_parsed_like_integers() {
    for s in [
        "", "0", "007", "+5", "-5", "5 ", "1_000", "99999999999999999999999", "+", "-",
        "18446744073709551615", "18446744073709551616", "٣",
    ] {
        assert_eq!(parse_count(s), s.parse::<usize>().ok(), "{s:?}");
        assert_eq!(parse_u64(s), s.parse::<u64>().ok(), "{s:?}");
    }
    for s in ["", "0", "4", "-1", "+3", "2147483647", "2147483648", "-2147483648", "-2147483649"] {
        assert_eq!(parse_code(s), s.parse::<i32>().ok(), "{s:?}");
    }
}

#[test]
fn exit_codes_are_read_back() {
    for code in [0, 1, 5, -1, 42, i32::MAX, i32::MIN] {
        assert_eq!(code_text(code), code.to_string());
        assert_eq!(parse_code(&code_text(code)), Some(code));
    }
}

#[test]
fn banners_are_eighty_wide() {
    let banner = center_with("FAILURES", '=');
    assert_eq!(banner, format!("{} FAILURES {}", "=".repeat(35), "=".repeat(35)));
    assert_eq!(center_banner("ERRORS").len(), 80);
    assert_eq!(
        center_named("test_a"),
        format!("{} test_a {}", "_".repeat(36), "_".repeat(36))
    );
    // The odd one goes to the right, and a long label keeps one on either side.
    assert_eq!(center_banner("a"), format!("{} a {}", "=".repeat(38), "=".repeat(39)));
    let long = "x".repeat(100);
    assert_eq!(center_with(&long, '!'), format!("! {long} !"));
}

#[test]
fn banner_width_counts_bytes() {
    // "é" is two bytes long.
    assert_eq!(
        center_banner("é"),
        format!("{} é {}", "=".repeat(38), "=".repeat(38))
    );
}

#[test]
fn section_rules_are_eighty_wide() {
    assert_eq!(
        section_rule("Captured stdout call"),
        format!("{} Captured stdout call {}", "-".repeat(29), "-".repeat(29))
    );
    assert_eq!(section_rule("ab é"), format!("{} ab é {}", "-".repeat(37), "-".repeat(37)));
}

#[test]
fn short_message_prefers_the_e_line() {
    assert_eq!(
        short_message("def f():\n>   g()\nE   ValueError: no\nE   more\n\na.py:3: ValueError"),
        Some("ValueError: no".to_string())
    );
    assert_eq!(
        short_message("  | ExceptionGroup: two (2 sub-exceptions)\n  +-+---- 1 ----\nlast"),
        Some("ExceptionGroup: two (2 sub-exceptions)".to_string())
    );
    assert_eq!(
        short_message("x (1 sub-exception)\nlast"),
        Some("x (1 sub-exception)".to_string())
    );
    assert_eq!(short_message("one\n  two  \n\n"), Some("two".to_string()));
    assert_eq!(short_message("\n  \n"), None);
    assert_eq!(short_message("E "), None);
}

#[test]
fn builtin_marks() {
    for name in ["skip", "skipif", "xfail", "parametrize", "xdist_group", "pytester_example_path"] {
        assert!(builtin_mark(name));
    }
    assert!(!builtin_mark("slow"));
    assert!(!builtin_mark("Skip"));
}

#[test]
fn lists_of_names() {
    let list = strings(&["a", "b"]);
    assert!(has_text(&list, "b"));
    assert!(!has_text(&list, "c"));
    assert!(texts_prefix(&list, &strings(&["a", "b", "c"])));
    assert!(!texts_prefix(&list, &strings(&["a"])));
    let mut names = list;
    push_name(&mut names, "a");
    push_name(&mut names, "c");
    assert_eq!(names, strings(&["a", "b", "c"]));
    assert_eq!(takeable(vec![1, 2]), vec![Some(1), Some(2)]);
}

#[test]
fn partition_keeps_order() {
    let (yes, no) = partition(vec!["a", "b", "c", "d"], &[true, false, true, false]);
    assert_eq!(yes, vec!["a", "c"]);
    assert_eq!(no, vec!["b", "d"]);
}

#[test]
fn paths_by_components() {
    let p = strings(&["/", "a", "b"]);
    assert_eq!(parent(&p), Some(strings(&["/", "a"])));
    assert_eq!(parent(&strings(&["/"])), None);
    assert_eq!(parent(&strings(&[])), None);
    assert_eq!(parent(&strings(&["a"])), Some(strings(&[])));
    assert!(same_path(&p, &strings(&["/", "a", "b"])));
    assert!(!same_path(&p, &strings(&["/", "a"])));
    assert!(lies_below(&p, &[strings(&["/", "x"]), strings(&["/", "a"])]));
    assert!(lies_below(&p, &[p.clone()]));
    assert!(!lies_below(&p, &[strings(&["/", "a", "b", "c"])]));
    let mut list = vec![p.clone()];
    push_path(&mut list, &p);
    push_path(&mut list, &strings(&["x"]));
    assert_eq!(list, vec![p.clone(), strings(&["x"])]);
    assert!(has_path(&list, &p));
}

#[test]
fn class_keys_of_nodeids() {
    assert_eq!(find_class_key("a.py::T::m[x]"), Some("a.py::T".to_string()));
    assert_eq!(find_class_key("a.py::f"), None);
    assert_eq!(find_class_key("a.py"), None);
}

#[test]
fn texts_split_at_the_last_place() {
    for s in ["a::b::c", "a:::b", "::::", ":", "", "abc", "a::", "::a", "a::::b"] {
        let expected = s.rsplit_once("::").map(|(a, b)| (a.to_string(), b.to_string()));
        assert_eq!(text::split_at_last(s, "::"), expected, "{s}");
        assert_eq!(last_part(s), s.rsplit("::").next().unwrap(), "{s}");
    }
    assert_eq!(text::split_at_last("a:::b", "::"), Some(("a:".to_string(), "b".to_string())));
    assert_eq!(last_part("a:::b"), "b");
}
