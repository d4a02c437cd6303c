use qutemarks::text::{decimal_string, is_whitespace, join_with, split_by, trim_end_str, trim_str};

fn strings(v: &[&str]) -> Vec<String> {
    v.iter().map(|s| s.to_string()).collect()
}

#[test]
fn split_by_separates_at_each_separator() {
    assert_eq!(split_by("a,b,c", ','), strings(&["a", "b", "c"]));
}

#[test]
fn split_by_keeps_empty_pieces() {
    assert_eq!(split_by("a,,b,", ','), strings(&["a", "", "b", ""]));
    assert_eq!(split_by(",", ','), strings(&["", ""]));
}

#[test]
fn split_by_empty_string_gives_one_empty_piece() {
    assert_eq!(split_by("", ','), strings(&[""]));
}

#[test]
fn split_by_matches_std_split() {
    for s in ["x", "héllo,wörld", "\n\n", "a\nb\n"] {
        for sep in [',', '\n'] {
            let expected: Vec<String> = s.split(sep).map(String::from).collect();
            assert_eq!(split_by(s, sep), expected);
        }
    }
}

#[test]
fn join_with_puts_separator_between_neighbours() {
    assert_eq!(join_with(&strings(&["rust", "web"]), ","), "rust,web");
    assert_eq!(join_with(&strings(&["only"]), ", "), "only");
    assert_eq!(join_with(&strings(&[]), ","), "");
    assert_eq!(join_with(&strings(&["", ""]), ","), ",");
}

#[test]
fn join_after_split_gives_back_the_string() {
    for s in ["", ",", "a,,b", "rust,browser", "x,"] {
        assert_eq!(join_with(&split_by(s, ','), ","), s);
    }
}

#[test]
fn trim_str_cuts_both_ends() {
    assert_eq!(trim_str("  hello world \t\n"), "hello world");
    assert_eq!(trim_str("   "), "");
    assert_eq!(trim_str(""), "");
    assert_eq!(trim_str("\u{3000}x\u{a0}"), "x");
}

#[test]
fn trim_end_str_cuts_only_the_end() {
    assert_eq!(trim_end_str("  hello  "), "  hello");
    assert_eq!(trim_end_str("a\u{2028}\u{85}"), "a");
    assert_eq!(trim_end_str(" \t "), "");
}

#[test]
fn whitespace_agrees_with_std() {
    for n in 0u32..0x3100 {
        if let Some(c) = char::from_u32(n) {
            assert_eq!(is_whitespace(c), c.is_whitespace(), "char {:#x}", n);
        }
    }
}

#[test]
fn decimal_string_formats_integers() {
    assert_eq!(decimal_string(0), "0");
    assert_eq!(decimal_string(7), "7");
    assert_eq!(decimal_string(1725029869), "1725029869");
    assert_eq!(decimal_string(-42), "-42");
    assert_eq!(decimal_string(i64::MIN), "-9223372036854775808");
    assert_eq!(decimal_string(i64::MAX), "9223372036854775807");
}
