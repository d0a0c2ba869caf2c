use danfe::ast::{Expr, Literal, Operator, Program};
use danfe::lexer::{Lexer, TokenType};
use danfe::parser::{Parser, ParserError};

fn parse(src: &str) -> Result<Program, ParserError> {
    let lexer = Lexer::new(src);
    let mut parser = Parser::new(lexer)?;
    parser.walk()
}

fn as_int(e: &Expr) -> i32 {
    match e {
        Expr::OpLiteral(b) => match &**b {
            Literal::Integer(n) => *n,
            other => panic!("expected integer literal, got {:?}", other),
        },
        other => panic!("expected literal, got {:?}", other),
    }
}

#[test]
fn assignment_parses_to_symbol_and_literal() {
    let program = parse("x = 1").expect("parses");
    assert_eq!(program.exprs.len(), 1);
    match &program.exprs[0] {
        Expr::OpExpr(node) => {
            assert!(matches!(node.op, Operator::Assignment));
            assert_eq!(node.args.len(), 2);
            match &node.args[0] {
                Expr::OpLiteral(b) => match &**b {
                    Literal::Symbol(name) => assert_eq!(name, "x"),
                    other => panic!("expected symbol, got {:?}", other),
                },
                other => panic!("expected literal, got {:?}", other),
            }
            assert_eq!(as_int(&node.args[1]), 1);
        }
        other => panic!("expected assignment node, got {:?}", other),
    }
}

#[test]
fn precedence_binds_multiplication_tighter() {
    let program = parse("2+3*4").expect("parses");
    match &program.exprs[0] {
        Expr::OpExpr(plus) => {
            assert!(matches!(plus.op, Operator::Plus));
            assert_eq!(as_int(&plus.args[0]), 2);
            match &plus.args[1] {
                Expr::OpExpr(mul) => {
                    assert!(matches!(mul.op, Operator::Multiply));
                    assert_eq!(as_int(&mul.args[0]), 3);
                    assert_eq!(as_int(&mul.args[1]), 4);
                }
                other => panic!("expected multiply node, got {:?}", other),
            }
        }
        other => panic!("expected plus node, got {:?}", other),
    }
}

#[test]
fn grouping_overrides_precedence() {
    let program = parse("(2+3)*4").expect("parses");
    match &program.exprs[0] {
        Expr::OpExpr(mul) => {
            assert!(matches!(mul.op, Operator::Multiply));
            match &mul.args[0] {
                Expr::OpExpr(plus) => assert!(matches!(plus.op, Operator::Plus)),
                other => panic!("expected plus node, got {:?}", other),
            }
            assert_eq!(as_int(&mul.args[1]), 4);
        }
        other => panic!("expected multiply node, got {:?}", other),
    }
}

#[test]
fn print_call_parses_to_call_node() {
    let program = parse("print(2==2)").expect("parses");
    match &program.exprs[0] {
        Expr::OpExpr(call) => {
            match &call.op {
                Operator::Call(name) => assert_eq!(name, "print"),
                other => panic!("expected call operator, got {:?}", other),
            }
            assert_eq!(call.args.len(), 1);
            match &call.args[0] {
                Expr::OpExpr(eq) => assert!(matches!(eq.op, Operator::Equal)),
                other => panic!("expected equality node, got {:?}", other),
            }
        }
        other => panic!("expected call node, got {:?}", other),
    }
}

#[test]
fn if_with_block_parses_to_definition_node() {
    let program = parse("if(1){ 2 }").expect("parses");
    match &program.exprs[0] {
        Expr::OpExpr(node) => {
            match &node.op {
                Operator::Define(cond) => assert_eq!(as_int(cond), 1),
                other => panic!("expected definition operator, got {:?}", other),
            }
            assert_eq!(node.args.len(), 1);
            assert_eq!(as_int(&node.args[0]), 2);
        }
        other => panic!("expected definition node, got {:?}", other),
    }
}

#[test]
fn statements_split_on_lines() {
    let program = parse("1\n2\n3").expect("parses");
    assert_eq!(program.exprs.len(), 3);
    assert_eq!(as_int(&program.exprs[0]), 1);
    assert_eq!(as_int(&program.exprs[1]), 2);
    assert_eq!(as_int(&program.exprs[2]), 3);
}

#[test]
fn blank_lines_before_closing_paren_are_tolerated() {
    let program = parse("print(1\n\n)").expect("parses");
    assert_eq!(program.exprs.len(), 1);
}

#[test]
fn comment_line_parses_to_comment_expression() {
    let program = parse("# note\n1").expect("parses");
    assert_eq!(program.exprs.len(), 2);
    assert!(matches!(program.exprs[0], Expr::OPComment));
    assert_eq!(as_int(&program.exprs[1]), 1);
}

#[test]
fn bare_identifier_is_a_symbol_reference() {
    let program = parse("speed").expect("parses");
    match &program.exprs[0] {
        Expr::OpLiteral(b) => match &**b {
            Literal::Symbol(name) => assert_eq!(name, "speed"),
            other => panic!("expected symbol, got {:?}", other),
        },
        other => panic!("expected literal, got {:?}", other),
    }
}

#[test]
fn lexical_error_is_reported_with_position() {
    match parse("1 $") {
        Err(ParserError::Lexical { .. }) => {}
        other => panic!("expected lexical error, got {:?}", other),
    }
}

#[test]
fn oversized_integer_is_a_conversion_error() {
    match parse("99999999999") {
        Err(ParserError::LiteralConversion { .. }) => {}
        other => panic!("expected literal conversion error, got {:?}", other),
    }
}

#[test]
fn missing_close_paren_is_an_unexpected_token() {
    match parse("(1") {
        Err(ParserError::UnexpectedToken { expected, found, .. }) => {
            assert!(matches!(expected, TokenType::Puncutation { raw: ')', .. }));
            assert!(matches!(found, TokenType::EOF));
        }
        other => panic!("expected unexpected-token error, got {:?}", other),
    }
}

#[test]
fn stray_operator_is_an_unexpected_factor() {
    match parse("*2") {
        Err(ParserError::UnexpectedFactor { found, .. }) => {
            assert!(matches!(found, TokenType::Operators(_)));
        }
        other => panic!("expected unexpected-factor error, got {:?}", other),
    }
}

#[test]
fn token_after_bare_identifier_is_rejected() {
    match parse("x 1") {
        Err(ParserError::AfterIdentifier { name, .. }) => assert_eq!(name, "x"),
        other => panic!("expected after-identifier error, got {:?}", other),
    }
}

#[test]
fn unimplemented_keyword_is_reported() {
    match parse("loop") {
        Err(ParserError::UnimplementedKeyword { name, .. }) => assert_eq!(name, "loop"),
        other => panic!("expected unimplemented-keyword error, got {:?}", other),
    }
}

#[test]
fn keyword_without_parentheses_is_a_call_syntax_error() {
    match parse("print 1") {
        Err(ParserError::FunctionCallSyntax { .. }) => {}
        other => panic!("expected call-syntax error, got {:?}", other),
    }
}

#[test]
fn token_after_call_close_paren_is_a_call_syntax_error() {
    match parse("print(1) 2") {
        Err(ParserError::FunctionCallSyntax { .. }) => {}
        other => panic!("expected call-syntax error, got {:?}", other),
    }
}

#[test]
fn close_paren_after_call_ends_it_without_a_block() {
    let program = parse("print(print(1))").expect("parses");
    match &program.exprs[0] {
        Expr::OpExpr(call) => {
            match &call.op {
                Operator::Call(name) => assert_eq!(name, "print"),
                other => panic!("expected call operator, got {:?}", other),
            }
            assert_eq!(as_int(&call.args[0]), 1);
        }
        other => panic!("expected call node, got {:?}", other),
    }
}

#[test]
fn block_close_after_call_is_a_call_syntax_error() {
    match parse("if(1){ print(2) }") {
        Err(ParserError::FunctionCallSyntax { .. }) => {}
        other => panic!("expected call-syntax error, got {:?}", other),
    }
}

#[test]
fn non_ascii_identifier_is_rejected() {
    let lexer = Lexer::new("");
    let mut parser = Parser {
        lexer,
        current_token: TokenType::Identifier("h\u{e9}llo".to_string()),
    };
    match parser.walk() {
        Err(ParserError::InvalidIdentifier { name, .. }) => assert_eq!(name, "h\u{e9}llo"),
        other => panic!("expected invalid-identifier error, got {:?}", other),
    }
}

#[test]
fn empty_input_is_a_grammar_error() {
    match parse("") {
        Err(ParserError::UnexpectedFactor { found, .. }) => {
            assert!(matches!(found, TokenType::EOF));
        }
        other => panic!("expected unexpected-factor error, got {:?}", other),
    }
}
