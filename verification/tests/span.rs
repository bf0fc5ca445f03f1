use sac::frontend::span::Span;

fn span(file: &str, start_line: i32, start_col: i32, end_line: i32, end_col: i32) -> Span {
    Span { file: file.to_string(), start_line, start_col, end_line, end_col }
}

#[test]
fn dud_span_is_the_placeholder() {
    assert_eq!(Span::new_dud(), span("garb.txt", 1, 1, 1, 1));
}

#[test]
fn merge_takes_least_start_and_greatest_end() {
    let a = span("a.sac", 3, 7, 4, 2);
    let b = span("a.sac", 2, 9, 3, 30);
    assert_eq!(a.merge_with(&b), span("a.sac", 2, 7, 4, 30));
}

#[test]
fn merge_is_commutative_on_the_box() {
    let a = span("a.sac", 3, 7, 4, 2);
    let b = span("a.sac", 2, 9, 3, 30);
    assert_eq!(a.merge_with(&b), b.merge_with(&a));
}

#[test]
fn merge_keeps_the_file_of_the_receiver() {
    let a = span("a.sac", 1, 1, 1, 1);
    let b = span("b.sac", 1, 1, 1, 1);
    assert_eq!(a.merge_with(&b).file, "a.sac");
    assert_eq!(b.merge_with(&a).file, "b.sac");
}

#[test]
fn merge_is_idempotent() {
    let a = span("a.sac", 3, 7, 4, 2);
    assert_eq!(a.merge_with(&a), a);
}

#[test]
fn merge_of_ordered_spans_is_ordered() {
    let a = span("a.sac", 1, 5, 2, 1);
    let b = span("a.sac", 1, 9, 2, 3);
    let m = a.merge_with(&b);
    assert!((m.start_line, m.start_col) <= (m.end_line, m.end_col));
}

#[test]
fn clone_of_a_span_is_equal() {
    let a = span("a.sac", 3, 7, 4, 2);
    assert_eq!(a.clone(), a);
}
