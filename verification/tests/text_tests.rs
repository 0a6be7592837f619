use stockgo::pattern::match_text;
use stockgo::text::{
    concat_strs, decimal_string, lines_str, parse_i64_chars, replace_str, signed_decimal_string, split_pat_str, split_str, str_contains,
    str_eq, trim_str,
};

fn strings(items: &[&str]) -> Vec<String> {
    items.iter().map(|s| s.to_string()).collect()
}

#[test]
fn splitting_like_str_split() {
    assert_eq!(split_str("a,b,,c", ','), strings(&["a", "b", "", "c"]));
    assert_eq!(split_str("", ','), strings(&[""]));
    assert_eq!(split_pat_str("a@Post:b@Post:c", "@Post:"), strings(&["a", "b", "c"]));
    assert_eq!(split_pat_str("abc", "@Post:"), strings(&["abc"]));
}

#[test]
fn lines_like_str_lines() {
    assert_eq!(lines_str("a\r\nb\n\nc"), strings(&["a", "b", "", "c"]));
    assert_eq!(lines_str("a\n"), strings(&["a"]));
    assert!(lines_str("").is_empty());
}

#[test]
fn replacing_and_trimming() {
    assert_eq!(replace_str("a.b.c", ".", "_"), "a_b_c");
    assert_eq!(replace_str("aaa", "aa", "b"), "ba");
    assert_eq!(trim_str("\u{3000} x \t"), "x");
    assert!(str_contains("hello", "ll"));
    assert!(!str_contains("hello", "lo!"));
    assert!(str_eq("a", "a"));
    assert_eq!(concat_strs(&strings(&["a", "b", "c"])), "abc");
}

#[test]
fn numbers_in_decimal() {
    assert_eq!(decimal_string(0), "0");
    assert_eq!(decimal_string(1234), "1234");
    assert_eq!(signed_decimal_string(-42), "-42");
    assert_eq!(signed_decimal_string(113), "113");
}

#[test]
fn patterns_match_or_are_rejected() {
    assert_eq!(match_text("\\d+~\\d+", "20240101~20240105"), Some(true));
    assert_eq!(match_text("^ALL$", "ALL fields"), Some(false));
    assert_eq!(match_text("(", "x"), None);
}

#[test]
fn integers_parse_as_std_does() {
    let p = |s: &str| parse_i64_chars(&s.chars().collect::<Vec<char>>());
    assert_eq!(p("42"), Some(42));
    assert_eq!(p("-42"), Some(-42));
    assert_eq!(p("+7"), Some(7));
    assert_eq!(p("9223372036854775807"), Some(i64::MAX));
    assert_eq!(p("-9223372036854775808"), Some(i64::MIN));
    assert_eq!(p("9223372036854775808"), None);
    assert_eq!(p("-"), None);
    assert_eq!(p(""), None);
    assert_eq!(p(" 1"), None);
    assert_eq!(p("1x"), None);
}
