use sac::text::{decimal_string, join_lines, parse_i32, same_text, trim_start};

#[test]
fn decimal_of_integers() {
    assert_eq!(decimal_string(0), "0");
    assert_eq!(decimal_string(7), "7");
    assert_eq!(decimal_string(10), "10");
    assert_eq!(decimal_string(-4), "-4");
    assert_eq!(decimal_string(2147483647), "2147483647");
    assert_eq!(decimal_string(-2147483648), "-2147483648");
    assert_eq!(decimal_string(i64::MAX), "9223372036854775807");
    assert_eq!(decimal_string(i64::MIN), "-9223372036854775808");
}

#[test]
fn parse_i32_reads_what_std_reads() {
    for text in [
        "0", "42", "007", "+5", "-5", "-0", "2147483647", "2147483648", "-2147483648",
        "-2147483649", "99999999999999999999", "", "+", "-", "1a", "a1", " 1", "1 ", "--1", "+-1",
        "१",
    ] {
        assert_eq!(parse_i32(text), text.parse::<i32>().ok(), "{:?}", text);
    }
}

#[test]
fn join_puts_a_line_feed_between_lines() {
    assert_eq!(join_lines(&vec![]), "");
    assert_eq!(join_lines(&vec!["a".to_string()]), "a");
    assert_eq!(join_lines(&vec!["a".to_string(), "".to_string(), "b".to_string()]), "a\n\nb");
}

#[test]
fn trim_start_drops_leading_whitespace_only() {
    assert_eq!(trim_start("  \n\t a b \n"), "a b \n");
    assert_eq!(trim_start("a "), "a ");
    assert_eq!(trim_start(" \n"), "");
    assert_eq!(trim_start(""), "");
    assert_eq!(trim_start("\u{a0}x"), "x");
}

#[test]
fn same_text_compares_characters() {
    assert!(same_text("abc", "abc"));
    assert!(!same_text("abc", "abd"));
    assert!(!same_text("abc", "ab"));
    assert!(same_text("", ""));
}
