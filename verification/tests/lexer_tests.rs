use danfe::lexer::{Lexer, LexerError, NumericType, PunctuationKind, TokenType};

fn lex_one(src: &str) -> Result<TokenType, LexerError> {
    let mut lx = Lexer::new(src);
    lx.next_token()
}

fn lex_all(src: &str) -> Result<Vec<TokenType>, LexerError> {
    let mut lx = Lexer::new(src);
    lx.tokenize()
}

#[test]
fn integer_lexes_with_integer_hint() {
    match lex_one("123") {
        Ok(TokenType::Numeric { raw, hint }) => {
            assert_eq!(raw, "123");
            assert!(matches!(hint, NumericType::Integer));
        }
        other => panic!("expected numeric token, got {:?}", other),
    }
}

#[test]
fn decimal_lexes_with_floating_point_hint() {
    match lex_one("1.5") {
        Ok(TokenType::Numeric { raw, hint }) => {
            assert_eq!(raw, "1.5");
            assert!(matches!(hint, NumericType::FloatingPoint));
        }
        other => panic!("expected numeric token, got {:?}", other),
    }
}

#[test]
fn two_decimal_points_fail_as_invalid_numeric() {
    match lex_one("1.2.3") {
        Err(LexerError::NumericInvalid { raw }) => assert_eq!(raw, "1.2."),
        other => panic!("expected invalid numeric, got {:?}", other),
    }
}

#[test]
fn letter_adjacent_to_digits_fails_as_invalid_numeric() {
    match lex_one("12a") {
        Err(LexerError::NumericInvalid { raw }) => assert_eq!(raw, "12a"),
        other => panic!("expected invalid numeric, got {:?}", other),
    }
}

#[test]
fn grouping_underscores_are_discarded() {
    match lex_one("1_000") {
        Ok(TokenType::Numeric { raw, hint }) => {
            assert_eq!(raw, "1000");
            assert!(matches!(hint, NumericType::Integer));
        }
        other => panic!("expected numeric token, got {:?}", other),
    }
}

#[test]
fn keywords_classify_as_symbols() {
    for kw in ["if", "print", "true", "false", "proc", "else", "loop", "break", "input"] {
        match lex_one(kw) {
            Ok(TokenType::Symobl(s)) => assert_eq!(s, kw),
            other => panic!("expected keyword symbol for {:?}, got {:?}", kw, other),
        }
    }
}

#[test]
fn words_classify_as_identifiers() {
    for id in ["foo", "ifx", "print2", "x_1", "Loop"] {
        match lex_one(id) {
            Ok(TokenType::Identifier(s)) => assert_eq!(s, id),
            other => panic!("expected identifier for {:?}, got {:?}", id, other),
        }
    }
}

#[test]
fn compound_operators_lex_as_one_token() {
    for op in ["==", ">=", "||", "&&", "<=", "+=", "-=", "%=", "++", "--"] {
        match lex_one(op) {
            Ok(TokenType::Operators(s)) => assert_eq!(s, op),
            other => panic!("expected operator for {:?}, got {:?}", op, other),
        }
    }
}

#[test]
fn compound_operator_is_never_split() {
    let toks = lex_all("1==2").expect("lexes");
    assert_eq!(toks.len(), 3);
    assert!(matches!(&toks[0], TokenType::Numeric { .. }));
    match &toks[1] {
        TokenType::Operators(s) => assert_eq!(s, "=="),
        other => panic!("expected one == token, got {:?}", other),
    }
    assert!(matches!(&toks[2], TokenType::Numeric { .. }));
}

#[test]
fn single_operator_at_end_of_input_lexes() {
    match lex_one("+") {
        Ok(TokenType::Operators(s)) => assert_eq!(s, "+"),
        other => panic!("expected operator, got {:?}", other),
    }
}

#[test]
fn well_formed_brackets_lex_without_error() {
    for src in ["()", "([]){}", "([{}])", "(()[])"] {
        let toks = lex_all(src).expect("balanced brackets must lex");
        assert_eq!(toks.len(), src.len());
    }
}

#[test]
fn unmatched_closer_names_its_opener() {
    match lex_all("(])") {
        Err(LexerError::MisbalancedBraces { symbol, open }) => {
            assert_eq!(symbol, ']');
            assert_eq!(open, '[');
        }
        other => panic!("expected misbalanced braces, got {:?}", other),
    }
    match lex_all(")") {
        Err(LexerError::MisbalancedBraces { symbol, open }) => {
            assert_eq!(symbol, ')');
            assert_eq!(open, '(');
        }
        other => panic!("expected misbalanced braces, got {:?}", other),
    }
}

#[test]
fn open_and_close_tokens_carry_depths() {
    let toks = lex_all("(())").expect("lexes");
    match &toks[0] {
        TokenType::Puncutation { raw, kind } => {
            assert_eq!(*raw, '(');
            assert!(matches!(kind, PunctuationKind::Open(0)));
        }
        other => panic!("unexpected token {:?}", other),
    }
    match &toks[1] {
        TokenType::Puncutation { kind, .. } => assert!(matches!(kind, PunctuationKind::Open(1))),
        other => panic!("unexpected token {:?}", other),
    }
    match &toks[2] {
        TokenType::Puncutation { kind, .. } => assert!(matches!(kind, PunctuationKind::Close(1))),
        other => panic!("unexpected token {:?}", other),
    }
    match &toks[3] {
        TokenType::Puncutation { kind, .. } => assert!(matches!(kind, PunctuationKind::Close(0))),
        other => panic!("unexpected token {:?}", other),
    }
}

#[test]
fn comment_ends_before_the_newline() {
    let toks = lex_all("# note\n1").expect("lexes");
    assert_eq!(toks.len(), 3);
    assert!(matches!(toks[0], TokenType::Comment));
    assert!(matches!(toks[1], TokenType::EOL));
    match &toks[2] {
        TokenType::Numeric { raw, hint } => {
            assert_eq!(raw, "1");
            assert!(matches!(hint, NumericType::Integer));
        }
        other => panic!("expected numeric token, got {:?}", other),
    }
}

#[test]
fn comment_contents_do_not_affect_later_tokens() {
    let plain = lex_all("# a\n7").expect("lexes");
    let wild = lex_all("# ([{ \"unclosed 1.2.3\n7").expect("lexes");
    assert_eq!(plain.len(), wild.len());
    match (&plain[2], &wild[2]) {
        (TokenType::Numeric { raw: a, .. }, TokenType::Numeric { raw: b, .. }) => assert_eq!(a, b),
        other => panic!("unexpected tokens {:?}", other),
    }
}

#[test]
fn comment_at_end_of_input() {
    let toks = lex_all("# only").expect("lexes");
    assert_eq!(toks.len(), 1);
    assert!(matches!(toks[0], TokenType::Comment));
}

#[test]
fn string_literal_collects_contents() {
    match lex_one("\"hi there\"") {
        Ok(TokenType::String(s)) => assert_eq!(s, "hi there"),
        other => panic!("expected string token, got {:?}", other),
    }
    match lex_one("'single'") {
        Ok(TokenType::String(s)) => assert_eq!(s, "single"),
        other => panic!("expected string token, got {:?}", other),
    }
}

#[test]
fn escaped_quote_stays_in_string() {
    match lex_one("\"a\\\"b\"") {
        Ok(TokenType::String(s)) => assert_eq!(s, "a\"b"),
        other => panic!("expected string token, got {:?}", other),
    }
}

#[test]
fn unterminated_string_fails() {
    match lex_one("\"abc") {
        Err(LexerError::UnexpectedEOF) => {}
        other => panic!("expected unexpected end of input, got {:?}", other),
    }
}

#[test]
fn unknown_character_fails() {
    match lex_one("$") {
        Err(LexerError::UnknownSymbol { symbol }) => assert_eq!(symbol, "$"),
        other => panic!("expected unknown symbol, got {:?}", other),
    }
}

#[test]
fn newline_is_a_token_and_whitespace_is_skipped() {
    let toks = lex_all("  1 \t 2\n3").expect("lexes");
    assert_eq!(toks.len(), 4);
    assert!(matches!(&toks[0], TokenType::Numeric { .. }));
    assert!(matches!(&toks[1], TokenType::Numeric { .. }));
    assert!(matches!(toks[2], TokenType::EOL));
    assert!(matches!(&toks[3], TokenType::Numeric { .. }));
}

#[test]
fn unicode_whitespace_is_skipped() {
    let toks = lex_all("1\u{a0}\u{2003}2\u{3000}3").expect("lexes");
    assert_eq!(toks.len(), 3);
    for t in &toks {
        assert!(matches!(t, TokenType::Numeric { .. }));
    }
}

#[test]
fn separators_have_no_balancing() {
    let toks = lex_all(",;").expect("lexes");
    assert_eq!(toks.len(), 2);
    for t in &toks {
        match t {
            TokenType::Puncutation { kind, .. } => {
                assert!(matches!(kind, PunctuationKind::Seperator))
            }
            other => panic!("unexpected token {:?}", other),
        }
    }
}

#[test]
fn peek_does_not_commit_the_position() {
    let mut lx = Lexer::new("if x");
    let peeked = lx.peek_next_token().expect("peek");
    assert_eq!(lx.cur_line, 1);
    assert_eq!(lx.cur_col, 1);
    assert_eq!(lx.codepoint_offset, 0);
    let next = lx.next_token().expect("next");
    match (peeked, next) {
        (TokenType::Symobl(a), TokenType::Symobl(b)) => assert_eq!(a, b),
        other => panic!("peek and next disagree: {:?}", other),
    }
}

#[test]
fn consume_char_tracks_position() {
    let mut lx = Lexer::new("a\nb");
    assert_eq!(lx.consume_char(), Some('a'));
    assert_eq!(lx.cur_line, 1);
    assert_eq!(lx.cur_col, 2);
    assert_eq!(lx.consume_char(), Some('\n'));
    assert_eq!(lx.cur_line, 2);
    assert_eq!(lx.cur_col, 1);
    assert_eq!(lx.consume_char(), Some('b'));
    assert_eq!(lx.codepoint_offset, 3);
    assert_eq!(lx.consume_char(), None);
}
