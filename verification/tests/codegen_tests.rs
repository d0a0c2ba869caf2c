use danfe::ast::{Expr, Literal};
use danfe::compiler::{Compile, CompileError};
use danfe::lexer::Lexer;
use danfe::machine::{run_program, Instr};
use danfe::parser::Parser;
use danfe::text::parse_decimal_i32;

/// Lexes, parses, compiles and interprets a source program, yielding the
/// values its print calls emit.
fn run_source(src: &str) -> Option<Vec<u64>> {
    let lexer = Lexer::new(src);
    let mut parser = Parser::new(lexer).expect("parser starts");
    let program = parser.walk().expect("parses");
    let mut instrs: Vec<Instr> = Vec::new();
    for expr in &program.exprs {
        let mut part = Compile::compile_expr(expr).expect("compiles");
        instrs.append(&mut part);
    }
    run_program(&instrs)
}

#[test]
fn printed_arithmetic_matches_standard_evaluation() {
    assert_eq!(run_source("print(2+3*4)"), Some(vec![14]));
    assert_eq!(run_source("print((2+3)*4)"), Some(vec![20]));
    assert_eq!(run_source("print(10-4-3)"), Some(vec![3]));
    assert_eq!(run_source("print(7*6)"), Some(vec![42]));
}

#[test]
fn printed_equality_is_one_or_zero() {
    assert_eq!(run_source("print(2==2)"), Some(vec![1]));
    assert_eq!(run_source("print(2==3)"), Some(vec![0]));
}

#[test]
fn several_prints_emit_in_order() {
    assert_eq!(run_source("print(1)\nprint(2+2)\nprint(5==5)"), Some(vec![1, 4, 1]));
}

#[test]
fn subtraction_wraps_like_the_machine() {
    assert_eq!(run_source("print(0-1)"), Some(vec![u64::MAX]));
}

#[test]
fn new_artifact_holds_the_prologue() {
    let comp = Compile::new();
    assert_eq!(comp.lines.len(), 37);
    assert_eq!(comp.lines[0], "BITS 64");
    assert_eq!(comp.lines[1], "segment .text");
    assert_eq!(comp.lines[2], "dump:");
    assert_eq!(comp.lines[35], "global _start");
    assert_eq!(comp.lines[36], "_start:");
}

#[test]
fn write_appends_one_line() {
    let mut comp = Compile::new();
    let before = comp.lines.len();
    comp.write("    nop");
    assert_eq!(comp.lines.len(), before + 1);
    assert_eq!(comp.lines[before], "    nop");
}

#[test]
fn epilogue_appends_the_exit_sequence() {
    let mut comp = Compile::new();
    let before = comp.lines.len();
    comp.epilogue();
    let emitted: Vec<&str> = comp.lines[before..].iter().map(|s| s.as_str()).collect();
    assert_eq!(emitted, vec!["    mov rax, 60", "    mov rdi, 0", "    syscall"]);
}

#[test]
fn evaluate_renders_a_print_call() {
    let lexer = Lexer::new("print(2==2)");
    let mut parser = Parser::new(lexer).expect("parser starts");
    let mut program = parser.walk().expect("parses");
    let mut comp = Compile::new();
    let before = comp.lines.len();
    comp.evaluate(program.exprs.remove(0)).expect("generates");
    let emitted: Vec<&str> = comp.lines[before..].iter().map(|s| s.as_str()).collect();
    assert_eq!(
        emitted,
        vec![
            "    ;; -- push  --",
            "    push 2",
            "    ;; -- push  --",
            "    push 2",
            "    ;; -- equal --",
            "    mov rcx, 0",
            "    mov rdx, 1",
            "    pop rax",
            "    pop rbx",
            "    cmp rax, rbx",
            "    cmove rcx, rdx",
            "    push rcx",
            "    ;; -- dump --",
            "    pop rdi",
            "    call dump",
        ]
    );
}

#[test]
fn evaluate_renders_binary_arithmetic() {
    let lexer = Lexer::new("4-1");
    let mut parser = Parser::new(lexer).expect("parser starts");
    let mut program = parser.walk().expect("parses");
    let mut comp = Compile::new();
    let before = comp.lines.len();
    comp.evaluate(program.exprs.remove(0)).expect("generates");
    let emitted: Vec<&str> = comp.lines[before..].iter().map(|s| s.as_str()).collect();
    assert_eq!(
        emitted,
        vec![
            "    ;; -- push  --",
            "    push 4",
            "    ;; -- push  --",
            "    push 1",
            "    ;; -- minus --",
            "    pop rax",
            "    pop rbx",
            "    sub rbx, rax",
            "    push rbx",
        ]
    );
}

#[test]
fn float_literal_is_pushed_as_its_text() {
    let lexer = Lexer::new("print(1.5)");
    let mut parser = Parser::new(lexer).expect("parser starts");
    let mut program = parser.walk().expect("parses");
    let mut comp = Compile::new();
    comp.evaluate(program.exprs.remove(0)).expect("generates");
    assert!(comp.lines.iter().any(|l| l == "    push 1.5"));
}

#[test]
fn negative_immediate_renders_with_sign() {
    let mut comp = Compile::new();
    let expr = Expr::OpLiteral(Box::new(Literal::Integer(-5)));
    comp.evaluate(expr).expect("generates");
    assert!(comp.lines.iter().any(|l| l == "    push -5"));
}

#[test]
fn unsupported_operations_fail_and_emit_nothing() {
    for src in ["1/2", "10%3", "x = 1", "speed", "if(1){ 2 }"] {
        let lexer = Lexer::new(src);
        let mut parser = Parser::new(lexer).expect("parser starts");
        let mut program = parser.walk().expect("parses");
        let mut comp = Compile::new();
        let before = comp.lines.len();
        match comp.evaluate(program.exprs.remove(0)) {
            Err(CompileError::UnsupportedOperation) => {}
            other => panic!("expected unsupported operation for {:?}, got {:?}", src, other),
        }
        assert_eq!(comp.lines.len(), before);
    }
}

#[test]
fn string_literal_is_unsupported_by_the_generator() {
    let expr = Expr::OpLiteral(Box::new(Literal::String("hello".to_string())));
    match Compile::compile_expr(&expr) {
        Err(CompileError::UnsupportedOperation) => {}
        other => panic!("expected unsupported operation, got {:?}", other),
    }
}

#[test]
fn comment_generates_no_code() {
    let mut comp = Compile::new();
    let before = comp.lines.len();
    comp.evaluate(Expr::OPComment).expect("comments are fine");
    assert_eq!(comp.lines.len(), before);
}

#[test]
fn machine_refuses_float_pushes() {
    let instrs = vec![Instr::PushFloat("1.5".to_string()), Instr::Print];
    assert_eq!(run_program(&instrs), None);
}

#[test]
fn machine_refuses_stack_underflow() {
    assert_eq!(run_program(&vec![Instr::Plus]), None);
    assert_eq!(run_program(&vec![Instr::PushInt(1), Instr::Equal]), None);
    assert_eq!(run_program(&vec![Instr::Print]), None);
}

#[test]
fn machine_runs_hand_built_programs() {
    let instrs = vec![Instr::PushInt(2), Instr::PushInt(3), Instr::Plus, Instr::Print];
    assert_eq!(run_program(&instrs), Some(vec![5]));
}

#[test]
fn decimal_parsing_matches_the_i32_range() {
    assert_eq!(parse_decimal_i32("0"), Some(0));
    assert_eq!(parse_decimal_i32("2147483647"), Some(2147483647));
    assert_eq!(parse_decimal_i32("2147483648"), None);
    assert_eq!(parse_decimal_i32(""), None);
    assert_eq!(parse_decimal_i32("12a"), None);
    assert_eq!(parse_decimal_i32("007"), Some(7));
}
