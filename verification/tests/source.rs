use sac::frontend::pattern::{find_at, is_pattern, PatternError};
use sac::frontend::source::Source;

#[test]
fn a_new_cursor_is_at_the_start() {
    let s = Source::from("abc".to_string());
    assert_eq!(s.path, "dud.txt");
    assert_eq!(s.content, "abc");
    assert_eq!(s.index, 0);
    assert_eq!(s.rest(), "abc");
    let d = Source::dud();
    assert_eq!(d.content, "");
    assert_eq!(d.index, 0);
}

#[test]
fn a_match_at_the_cursor_moves_it() {
    let mut s = Source::from("12ab34".to_string());
    let (matched, snapshot) = s.match_reg("[0-9]+").expect("a pattern").expect("a match");
    assert_eq!(matched, "12");
    assert_eq!(s.index, 2);
    assert_eq!(snapshot.index, 2);
    assert_eq!(snapshot.content, "12ab34");
    assert_eq!(s.rest(), "ab34");
}

#[test]
fn a_match_further_on_does_not_count() {
    let mut s = Source::from("ab34".to_string());
    assert!(s.match_reg("[0-9]+").expect("a pattern").is_none());
    assert_eq!(s.index, 0);
    let (matched, _) = s.match_reg("[a-z]+").expect("a pattern").expect("a match");
    assert_eq!(matched, "ab");
    let (matched, _) = s.match_reg("[0-9]+").expect("a pattern").expect("a match");
    assert_eq!(matched, "34");
    assert_eq!(s.index, 4);
    assert!(s.match_reg("[0-9]+").expect("a pattern").is_none());
    assert_eq!(s.index, 4);
}

#[test]
fn the_cursor_counts_bytes() {
    let mut s = Source::from("αβγ1".to_string());
    let (matched, _) = s.match_reg("\\p{Greek}+").expect("a pattern").expect("a match");
    assert_eq!(matched, "αβγ");
    assert_eq!(s.index, 6);
    assert_eq!(s.rest(), "1");
}

#[test]
fn an_anchor_sees_the_text_before_the_cursor() {
    let mut s = Source::from("ab".to_string());
    s.match_literal("a").expect("a match");
    assert!(s.match_reg("^b").expect("a pattern").is_none());
    assert!(s.match_reg("b").expect("a pattern").is_some());
}

#[test]
fn an_invalid_pattern_is_an_error_and_leaves_the_cursor() {
    let mut s = Source::from("abc".to_string());
    assert_eq!(s.match_reg("(").map(|m| m.is_some()), Err(PatternError));
    assert_eq!(s.index, 0);
}

#[test]
fn a_literal_at_the_cursor_moves_it() {
    let mut s = Source::from("let x".to_string());
    let (matched, snapshot) = s.match_literal("let").expect("a match");
    assert_eq!(matched, "let");
    assert_eq!(s.index, 3);
    assert_eq!(snapshot.index, 3);
    assert!(s.match_literal("x").is_none());
    assert_eq!(s.index, 3);
    assert!(s.match_literal(" x y").is_none());
    assert!(s.match_literal(" x").is_some());
    assert_eq!(s.index, 5);
    assert!(s.match_literal("").is_some());
    assert!(s.match_literal("a").is_none());
}

#[test]
fn find_at_gives_byte_offsets_of_the_leftmost_match() {
    assert_eq!(find_at("[0-9]+", "ab123cd45", 0), Ok(Some((2, 5))));
    assert_eq!(find_at("[0-9]+", "ab123cd45", 5), Ok(Some((7, 9))));
    assert_eq!(find_at("[0-9]+", "abc", 0), Ok(None));
    assert_eq!(find_at("\\p{Greek}+", "Greek: αβγδ", 0), Ok(Some((7, 15))));
    assert_eq!(find_at("[", "abc", 0), Err(PatternError));
}

#[test]
fn is_pattern_tells_regular_expressions() {
    assert!(is_pattern("[0-9]+"));
    assert!(is_pattern("(?s)[/][*].*[*][/]"));
    assert!(!is_pattern("foo(bar"));
}
