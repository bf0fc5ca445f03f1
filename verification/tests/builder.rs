use sac::codegen::builder::{Builder, CodegenError, Context, Label};

fn lines(b: &Builder) -> Vec<&str> {
    b.lines().iter().map(|l| l.as_str()).collect()
}

#[test]
fn label_text_is_prefix_tag_and_number() {
    assert_eq!(Label::nn(3, "Interned".to_string()).s(), ".SacLabelInterned3");
    assert_eq!(Label::nn(0, String::new()).s(), ".SacLabel0");
    assert_eq!(Label::nn(-12, "x".to_string()).s(), ".SacLabelx-12");
}

#[test]
fn new_labels_count_up() {
    let mut b = Builder::n("t.sac".to_string());
    let first = b.new_label();
    let second = b.new_label();
    let third = b.new_label();
    assert_eq!(first, Label::nn(0, String::new()));
    assert_eq!(second, Label::nn(1, String::new()));
    assert_eq!(third, Label::nn(2, String::new()));
    assert!(b.has_labels(2));
}

#[test]
fn add_appends_and_add_at_inserts() {
    let mut b = Builder::n("t.sac".to_string());
    b.add("one");
    b.add("three");
    b.add_at("two", 1);
    b.add_at("zero", 0);
    b.add_at("four", 4);
    assert_eq!(lines(&b), vec!["zero", "one", "two", "three", "four"]);
    assert_eq!(b.src(), "t.sac");
}

#[test]
fn parameters_get_offsets_below_the_frame_pointer() {
    let mut b = Builder::n("t.sac".to_string());
    b.set_up_env(&["a".to_string()]);
    assert_eq!(b.try_get(&"a".to_string()), Some(&-4));

    let mut b = Builder::n("t.sac".to_string());
    b.set_up_env(&["a".to_string(), "b".to_string(), "c".to_string()]);
    assert_eq!(b.try_get(&"a".to_string()), Some(&-12));
    assert_eq!(b.try_get(&"b".to_string()), Some(&-8));
    assert_eq!(b.try_get(&"c".to_string()), Some(&-4));
    assert_eq!(b.try_get(&"d".to_string()), None);
    b.set("d".to_string());
    assert_eq!(b.try_get(&"d".to_string()), Some(&-16));
    b.set("e".to_string());
    assert_eq!(b.try_get(&"e".to_string()), Some(&-20));
}

#[test]
fn no_parameters_leave_the_first_slot_free() {
    let mut b = Builder::n("t.sac".to_string());
    b.set_up_env(&[]);
    b.set("x".to_string());
    assert_eq!(b.try_get(&"x".to_string()), Some(&-4));
}

#[test]
fn locals_of_a_new_builder_start_at_zero() {
    let mut b = Builder::n("t.sac".to_string());
    assert!(b.has_frame_room());
    b.set("x".to_string());
    b.set("y".to_string());
    assert_eq!(b.try_get(&"x".to_string()), Some(&0));
    assert_eq!(b.try_get(&"y".to_string()), Some(&-4));
}

#[test]
fn a_later_declaration_replaces_an_earlier_one() {
    let mut b = Builder::n("t.sac".to_string());
    b.set("x".to_string());
    b.set("x".to_string());
    assert_eq!(b.try_get(&"x".to_string()), Some(&-4));
}

#[test]
fn inner_scope_shadows_and_exit_restores() {
    let mut b = Builder::n("t.sac".to_string());
    b.set_up_env(&["x".to_string(), "y".to_string()]);
    assert_eq!(b.try_get(&"x".to_string()), Some(&-8));
    b.enter_ctx();
    assert_eq!(b.try_get(&"x".to_string()), Some(&-8));
    b.set("x".to_string());
    assert_eq!(b.try_get(&"x".to_string()), Some(&0));
    assert_eq!(b.try_get(&"y".to_string()), Some(&-4));
    b.enter_ctx();
    b.set_up_env(&["x".to_string()]);
    assert_eq!(b.try_get(&"x".to_string()), Some(&-4));
    assert_eq!(b.exit_ctx(), Ok(()));
    assert_eq!(b.try_get(&"x".to_string()), Some(&0));
    assert_eq!(b.exit_ctx(), Ok(()));
    assert_eq!(b.try_get(&"x".to_string()), Some(&-8));
    assert_eq!(b.try_get(&"y".to_string()), Some(&-4));
}

#[test]
fn the_outermost_scope_cannot_be_left() {
    let mut b = Builder::n("t.sac".to_string());
    b.set("x".to_string());
    assert_eq!(b.exit_ctx(), Err(CodegenError::OrphanedScope));
    assert_eq!(b.try_get(&"x".to_string()), Some(&0));
    b.enter_ctx();
    assert_eq!(b.exit_ctx(), Ok(()));
    assert_eq!(b.exit_ctx(), Err(CodegenError::OrphanedScope));
}

#[test]
fn context_chain_enters_and_exits() {
    let mut outer = Context::n();
    assert!(outer.is_outermost());
    outer.set("x".to_string(), -4);
    outer.set_next_offset(-8);
    let mut inner = outer.enter();
    assert!(!inner.is_outermost());
    assert_eq!(inner.next_offset(), 0);
    assert_eq!(inner.get(&"x".to_string()), Some(&-4));
    inner.set("x".to_string(), -12);
    assert_eq!(inner.get(&"x".to_string()), Some(&-12));
    let back = inner.exit().expect("an outer scope");
    assert_eq!(back.get(&"x".to_string()), Some(&-4));
    assert_eq!(back.next_offset(), -8);
    assert!(Context::n().exit().is_none());
}

#[test]
fn interning_twice_gives_one_label_and_one_directive() {
    let mut b = Builder::n("t.sac".to_string());
    assert!(b.has_interned_room());
    let first = b.add_interned_str("Hello".to_string());
    let other = b.add_interned_str("World".to_string());
    let again = b.add_interned_str("Hello".to_string());
    assert_eq!(first, Label::nn(0, "Interned".to_string()));
    assert_eq!(other, Label::nn(1, "Interned".to_string()));
    assert_eq!(again, first);
    assert_eq!(b.interned(&"Hello".to_string()), Some(first));
    assert_eq!(b.interned(&"hello".to_string()), None);
    let listing = b.assembly();
    assert_eq!(listing.matches(".string \"Hello\"").count(), 1);
    assert_eq!(listing.matches(".string \"World\"").count(), 1);
    assert_eq!(listing.matches(".string").count(), 2);
}

#[test]
fn interning_compares_texts_exactly() {
    let mut b = Builder::n("t.sac".to_string());
    let a = b.add_interned_str("hello".to_string());
    let c = b.add_interned_str("Hello".to_string());
    let d = b.add_interned_str("hello ".to_string());
    assert_ne!(a, c);
    assert_ne!(a, d);
    assert_ne!(c, d);
}

#[test]
fn listing_without_strings_is_the_lines() {
    let mut b = Builder::n("t.sac".to_string());
    b.add("");
    b.add(".global f");
    b.add("f:");
    b.add("  bl g");
    assert_eq!(b.assembly(), ".global f\nf:\n  bl g\n");
}

#[test]
fn listing_of_nothing_is_one_line_feed() {
    let b = Builder::n("t.sac".to_string());
    assert_eq!(b.assembly(), "\n");
}

#[test]
fn listing_puts_directives_before_the_lines() {
    let mut b = Builder::n("t.sac".to_string());
    b.add("  bl g");
    b.add_interned_str("a b".to_string());
    b.add_interned_str("c".to_string());
    assert_eq!(
        b.assembly(),
        ".SacLabelInterned0:\n  .string \"a b\"\n  .balign 4\n\n.SacLabelInterned1:\n  .string \"c\"\n  .balign 4\n\n  bl g\n"
    );
}

#[test]
fn every_error_has_its_diagnostic() {
    assert_eq!(
        CodegenError::UndefinedVariable { name: "x".to_string() }.message(),
        "undefined variable: `x` :("
    );
    assert_eq!(
        CodegenError::TooManyArguments.message(),
        "More than 4 arguments is not supported :("
    );
    assert_eq!(
        CodegenError::TooManyParameters.message(),
        "sac doesn't support more than 4 parameters :("
    );
    assert_eq!(CodegenError::Unimplemented.message(), "unimplemented :(");
    assert_eq!(CodegenError::OrphanedScope.message(), "cannot leave orphaned scope :(");
    assert_eq!(CodegenError::OutOfLabels.message(), "too many labels :(");
    assert_eq!(CodegenError::FrameTooLarge.message(), "too many local variables :(");
}
