use sac::codegen::builder::CodegenError;
use sac::compiler::{compile, CompileError};

#[test]
fn compile_gives_the_whole_listing() {
    let listing = compile("t.sac".to_string(), ":main { ret 1 + 2; }\n").expect("a listing");
    assert_eq!(
        listing,
        ".global main\nmain:\n  push {fp, lr}\n  mov fp, sp\n  ldr r0, =1\n  push {r0, ip}\n  ldr r0, =2\n  pop {r1, ip}\n  add r0, r0, r1\n  mov sp, fp\n  pop {fp, pc}\n  mov sp, fp\n  mov r0, #0\n  pop {fp, pc}\n"
    );
}

#[test]
fn compile_puts_string_constants_first() {
    let listing = compile(
        "t.sac".to_string(),
        ":main { printf(\"Hello\"); printf(\"Hello\"); }",
    )
    .expect("a listing");
    assert!(listing.starts_with(".SacLabelInterned0:\n  .string \"Hello\"\n  .balign 4\n\n"));
    assert_eq!(listing.matches(".string").count(), 1);
    assert_eq!(listing.matches("  ldr r0, =.SacLabelInterned0\n").count(), 2);
    assert!(listing.ends_with("  pop {fp, pc}\n"));
}

#[test]
fn compile_skips_comments_and_whitespace() {
    let source = "// a program\n:main { /* nothing\n to do */ ret 0; }\n  // the end\n";
    assert!(compile("t.sac".to_string(), source).is_ok());
}

#[test]
fn compile_of_nothing_is_an_empty_listing() {
    assert_eq!(compile("t.sac".to_string(), ""), Ok("\n".to_string()));
    assert_eq!(compile("t.sac".to_string(), " \n // only a comment"), Ok("\n".to_string()));
}

#[test]
fn compile_reports_what_is_left_over() {
    assert_eq!(
        compile("t.sac".to_string(), ":main { ret 0; } )"),
        Err(CompileError::Syntax { at: ")".to_string() })
    );
    assert_eq!(
        compile("t.sac".to_string(), "ret 1"),
        Err(CompileError::Syntax { at: "ret 1".to_string() })
    );
}

#[test]
fn compile_reports_a_fault_of_the_generator() {
    assert_eq!(
        compile("t.sac".to_string(), ":main { ret x; }"),
        Err(CompileError::Codegen {
            error: CodegenError::UndefinedVariable { name: "x".to_string() }
        })
    );
    assert_eq!(
        compile("t.sac".to_string(), "f(1, 2, 3, 4, 5);"),
        Err(CompileError::Codegen { error: CodegenError::TooManyArguments })
    );
    assert_eq!(
        compile("t.sac".to_string(), ":f a, b, c, d, e { }"),
        Err(CompileError::Codegen { error: CodegenError::TooManyParameters })
    );
}
