//! The recursive-descent parser: pulls tokens from the lexer through one
//! token of lookahead and builds the expression tree over three precedence
//! tiers (`+ -` loosest; `* / % ==` tighter; factors tightest), plus
//! keyword-call and grouping productions. Every grammar violation is a
//! recoverable error carrying the offending token and the lexer's position.

use vstd::prelude::*;

use crate::ast::Expr;
use crate::ast::ExprError;
use crate::ast::ExprV;
use crate::ast::Literal;
use crate::ast::OpExpr;
use crate::ast::OpV;
use crate::ast::Operator;
use crate::ast::Program;
use crate::ast::arity;
use crate::ast::lemma_exprs_view;
use crate::ast::lemma_exprs_view_push;
use crate::ast::op_view;
use crate::ast::wf_expr;
use crate::ast::ExprErrV;
use crate::ast::LitV;
use crate::ast::exprs_view;
use crate::ast::spec_new_literal;
use crate::lexer::ErrV;
use crate::lexer::LexSt;
use crate::lexer::Lexer;
use crate::lexer::LexerError;
use crate::lexer::PunctV;
use crate::lexer::PunctuationKind;
use crate::lexer::TokV;
use crate::lexer::TokenType;
use crate::lexer::count_newlines;
use crate::lexer::lemma_spec_next_advance;
use crate::lexer::lemma_spec_next_wf;
use crate::lexer::line_start;
use crate::lexer::spec_next;
use crate::lexer::wf_st;
use vstd::utf8::is_ascii_chars;

verus! {

/// A grammar error: each unexpected-token site is a distinct variant carrying
/// the offending token and the lexer's position.
#[derive(Debug)]
pub enum ParserError {
    /// The lexer failed while the parser pulled the next token.
    Lexical { error: LexerError, line: usize, col: usize },
    /// A numeric token would not convert to a literal.
    LiteralConversion { error: ExprError, line: usize, col: usize },
    /// One specific token was required and another one stood there.
    UnexpectedToken { expected: TokenType, found: TokenType, line: usize, col: usize },
    /// A token that no factor production accepts.
    UnexpectedFactor { found: TokenType, line: usize, col: usize },
    /// An identifier with characters outside ASCII.
    InvalidIdentifier { name: String, line: usize, col: usize },
    /// A token that may not follow a bare identifier.
    AfterIdentifier { name: String, found: TokenType, line: usize, col: usize },
    /// A keyword that is parsed but has no implemented production.
    UnimplementedKeyword { name: String, line: usize, col: usize },
    /// A malformed keyword call: the keyword must be followed by
    /// `( expression )`, optionally with a `{ expression }` block.
    FunctionCallSyntax { found: TokenType, line: usize, col: usize },
}

/// A copy of a token with the same view.
fn clone_token(t: &TokenType) -> (r: TokenType)
    ensures
        r@ == t@,
{
    match t {
        TokenType::EOF => TokenType::EOF,
        TokenType::EOL => TokenType::EOL,
        TokenType::Puncutation { raw, kind } => TokenType::Puncutation {
            raw: *raw,
            kind: *kind,
        },
        TokenType::String(s) => TokenType::String(s.clone()),
        TokenType::Operators(s) => TokenType::Operators(s.clone()),
        TokenType::Identifier(s) => TokenType::Identifier(s.clone()),
        TokenType::Numeric { raw, hint } => TokenType::Numeric { raw: raw.clone(), hint: *hint },
        TokenType::Symobl(s) => TokenType::Symobl(s.clone()),
        TokenType::Comment => TokenType::Comment,
    }
}

/// Whether two tokens are the same, variant and payload.
fn token_equals(a: &TokenType, b: &TokenType) -> (r: bool)
    ensures
        r == (a@ == b@),
{
    match a {
        TokenType::EOF => match b {
            TokenType::EOF => true,
            _ => false,
        },
        TokenType::EOL => match b {
            TokenType::EOL => true,
            _ => false,
        },
        TokenType::Comment => match b {
            TokenType::Comment => true,
            _ => false,
        },
        TokenType::Puncutation { raw: r1, kind: k1 } => match b {
            TokenType::Puncutation { raw: r2, kind: k2 } => *r1 == *r2 && *k1 == *k2,
            _ => false,
        },
        TokenType::String(s1) => match b {
            TokenType::String(s2) => *s1 == *s2,
            _ => false,
        },
        TokenType::Operators(s1) => match b {
            TokenType::Operators(s2) => *s1 == *s2,
            _ => false,
        },
        TokenType::Identifier(s1) => match b {
            TokenType::Identifier(s2) => *s1 == *s2,
            _ => false,
        },
        TokenType::Symobl(s1) => match b {
            TokenType::Symobl(s2) => *s1 == *s2,
            _ => false,
        },
        TokenType::Numeric { raw: r1, hint: h1 } => match b {
            TokenType::Numeric { raw: r2, hint: h2 } => *r1 == *r2 && *h1 == *h2,
            _ => false,
        },
    }
}

/// A binary operator node with well-formedness carried through.
fn binary_node(op: Operator, left: Expr, right: Expr) -> (r: Expr)
    requires
        wf_expr(left@),
        wf_expr(right@),
        arity(op_view(op)) == 2,
    ensures
        wf_expr(r@),
        r@ == (ExprV::Op { op: op_view(op), args: seq![left@, right@] }),
{
    let ghost lv = left@;
    let ghost rv = right@;
    let node = OpExpr::operator(op, left, right);
    let e = Expr::OpExpr(Box::new(node));
    proof {
        lemma_exprs_view(seq![left, right]);
        assert(crate::ast::exprs_view(seq![left, right]) =~= seq![lv, rv]);
    }
    e
}

/// A unary node: a call's or definition's single operand, with
/// well-formedness carried through.
fn unary_node(op: Operator, arg: Expr) -> (r: Expr)
    requires
        wf_expr(arg@),
        arity(op_view(op)) == 1,
        match op_view(op) {
            OpV::Define(b) => wf_expr(*b),
            _ => true,
        },
    ensures
        wf_expr(r@),
        r@ == (ExprV::Op { op: op_view(op), args: seq![arg@] }),
{
    let ghost av = arg@;
    let node = OpExpr::function_op(op, arg);
    let e = Expr::OpExpr(Box::new(node));
    proof {
        lemma_exprs_view(seq![arg]);
        assert(crate::ast::exprs_view(seq![arg]) =~= seq![av]);
    }
    e
}

// ---------------------------------------------------------------------------
// The grammar, at the specification level
// ---------------------------------------------------------------------------

/// Abstract parser state: the lexer's state and the one token of lookahead.
pub struct PSt {
    pub lex: LexSt,
    pub tok: TokV,
}

/// Well-formedness of an abstract parser state: the lexer state is
/// well-formed and an end-of-input lookahead stands only at the input's end.
pub open spec fn pwf(st: PSt) -> bool {
    &&& wf_st(st.lex)
    &&& (st.tok is EOF ==> st.lex.pos == st.lex.input.len())
}

/// Remaining work: unconsumed characters plus one for a pending token.
pub open spec fn pmeasure(st: PSt) -> int {
    st.lex.input.len() - st.lex.pos + if st.tok is EOF {
        0int
    } else {
        1int
    }
}

/// The line the lexer reports at a state (1-based).
pub open spec fn line_of(lx: LexSt) -> int {
    count_newlines(lx.input, lx.pos) + 1
}

/// The column the lexer reports at a state (1-based).
pub open spec fn col_of(lx: LexSt) -> int {
    lx.pos - line_start(lx.input, lx.pos) + 1
}

/// Spec-level mirror of `ParserError`.
pub enum PErrV {
    Lexical { error: ErrV, line: int, col: int },
    LiteralConversion { error: ExprErrV, line: int, col: int },
    UnexpectedToken { expected: TokV, found: TokV, line: int, col: int },
    UnexpectedFactor { found: TokV, line: int, col: int },
    InvalidIdentifier { name: Seq<char>, line: int, col: int },
    AfterIdentifier { name: Seq<char>, found: TokV, line: int, col: int },
    UnimplementedKeyword { name: Seq<char>, line: int, col: int },
    FunctionCallSyntax { found: TokV, line: int, col: int },
}

impl View for ParserError {
    type V = PErrV;

    open spec fn view(&self) -> PErrV {
        match *self {
            ParserError::Lexical { ref error, line, col } => PErrV::Lexical {
                error: error@,
                line: line as int,
                col: col as int,
            },
            ParserError::LiteralConversion { ref error, line, col } => PErrV::LiteralConversion {
                error: error@,
                line: line as int,
                col: col as int,
            },
            ParserError::UnexpectedToken { ref expected, ref found, line, col } =>
                PErrV::UnexpectedToken {
                expected: expected@,
                found: found@,
                line: line as int,
                col: col as int,
            },
            ParserError::UnexpectedFactor { ref found, line, col } => PErrV::UnexpectedFactor {
                found: found@,
                line: line as int,
                col: col as int,
            },
            ParserError::InvalidIdentifier { ref name, line, col } => PErrV::InvalidIdentifier {
                name: name@,
                line: line as int,
                col: col as int,
            },
            ParserError::AfterIdentifier { ref name, ref found, line, col } =>
                PErrV::AfterIdentifier {
                name: name@,
                found: found@,
                line: line as int,
                col: col as int,
            },
            ParserError::UnimplementedKeyword { ref name, line, col } =>
                PErrV::UnimplementedKeyword {
                name: name@,
                line: line as int,
                col: col as int,
            },
            ParserError::FunctionCallSyntax { ref found, line, col } => PErrV::FunctionCallSyntax {
                found: found@,
                line: line as int,
                col: col as int,
            },
        }
    }
}

/// What consuming the lookahead does: the next scan's token becomes the
/// lookahead, or the scan's lexical error comes back.
pub open spec fn spec_advance(st: PSt) -> Result<PSt, ErrV> {
    let r2 = spec_next(st.lex);
    match r2.1 {
        Ok(t) => Ok(PSt { lex: r2.0, tok: t }),
        Err(e) => Err(e),
    }
}

/// Advancing past a required token: succeeds exactly when the lookahead is
/// that token, variant and payload, and the next scan succeeds. A mismatch is
/// the located expected-versus-found error; a failing scan is the located
/// lexical error.
pub open spec fn spec_eat(st: PSt, expected: TokV) -> Result<PSt, PErrV> {
    if st.tok == expected {
        match spec_advance(st) {
            Ok(st2) => Ok(st2),
            Err(e) => Err(
                PErrV::Lexical {
                    error: e,
                    line: line_of(spec_next(st.lex).0),
                    col: col_of(spec_next(st.lex).0),
                },
            ),
        }
    } else {
        Err(
            PErrV::UnexpectedToken {
                expected,
                found: st.tok,
                line: line_of(st.lex),
                col: col_of(st.lex),
            },
        )
    }
}

/// A parse result capped at its starting state: a successful parse never
/// leaves the parser ill-formed or with more work than it began with. The cap
/// makes that plain to the termination checker; the implementation's proofs
/// show the cap never takes effect.
pub open spec fn capped(st0: PSt, r: Result<(ExprV, PSt), PErrV>) -> Result<(ExprV, PSt), PErrV> {
    match r {
        Ok(p) => if pwf(p.1) && pmeasure(p.1) <= pmeasure(st0) {
            Ok(p)
        } else {
            Ok((p.0, st0))
        },
        Err(e) => Err(e),
    }
}

/// `capped`, for results that carry a state alone.
pub open spec fn capped_st(st0: PSt, r: Result<PSt, PErrV>) -> Result<PSt, PErrV> {
    match r {
        Ok(st2) => if pwf(st2) && pmeasure(st2) <= pmeasure(st0) {
            Ok(st2)
        } else {
            Ok(st0)
        },
        Err(e) => Err(e),
    }
}

/// Advancing preserves well-formedness and consumes input: the measure never
/// grows, and strictly falls when the consumed token is not end-of-input.
pub proof fn lemma_advance_measure(st: PSt)
    requires
        pwf(st),
    ensures
        pmeasure(st) >= 0,
        match spec_advance(st) {
            Ok(st2) => pwf(st2) && 0 <= pmeasure(st2) <= pmeasure(st) && (!(st.tok is EOF)
                ==> pmeasure(st2) < pmeasure(st)),
            Err(_) => true,
        },
{
    lemma_spec_next_advance(st.lex);
    lemma_spec_next_wf(st.lex);
}

/// `lemma_advance_measure`, quantified for the termination proofs.
pub proof fn lemma_advance_all()
    ensures
        forall|s2: PSt| #![trigger spec_advance(s2)]
            pwf(s2) ==> pmeasure(s2) >= 0 && match spec_advance(s2) {
                Ok(s3) => pwf(s3) && 0 <= pmeasure(s3) <= pmeasure(s2) && (!(s2.tok is EOF)
                    ==> pmeasure(s3) < pmeasure(s2)),
                Err(_) => true,
            },
{
    assert forall|s2: PSt| #![trigger spec_advance(s2)] pwf(s2) implies pmeasure(s2) >= 0 && match
        spec_advance(s2) {
        Ok(s3) => pwf(s3) && 0 <= pmeasure(s3) <= pmeasure(s2) && (!(s2.tok is EOF) ==> pmeasure(
            s3,
        ) < pmeasure(s2)),
        Err(_) => true,
    } by {
        lemma_advance_measure(s2);
    }
}

/// expression := term ( ('+' | '-') term )*
pub open spec fn spec_parse_expression(st: PSt) -> Result<(ExprV, PSt), PErrV>
    decreases pmeasure(st), 2int,
    when pwf(st)
    via spec_parse_expression_dec
{
    match capped(st, spec_parse_term(st)) {
        Ok(p) => spec_expr_tail(p.1, p.0),
        Err(e) => Err(e),
    }
}

#[via_fn]
proof fn spec_parse_expression_dec(st: PSt) {
    lemma_advance_all();
}

/// The expression tier's tail: while the lookahead is `+` or `-`, consume it,
/// parse the next term and fold it into `left`, left-associatively.
pub open spec fn spec_expr_tail(st: PSt, left: ExprV) -> Result<(ExprV, PSt), PErrV>
    decreases pmeasure(st), 1int,
    when pwf(st)
    via spec_expr_tail_dec
{
    match st.tok {
        TokV::Op(o) => {
            if o == "+"@ {
                match spec_eat(st, TokV::Op("+"@)) {
                    Ok(st1) => match capped(st1, spec_parse_term(st1)) {
                        Ok(p) => spec_expr_tail(
                            p.1,
                            ExprV::Op { op: OpV::Plus, args: seq![left, p.0] },
                        ),
                        Err(e) => Err(e),
                    },
                    Err(e) => Err(e),
                }
            } else if o == "-"@ {
                match spec_eat(st, TokV::Op("-"@)) {
                    Ok(st1) => match capped(st1, spec_parse_term(st1)) {
                        Ok(p) => spec_expr_tail(
                            p.1,
                            ExprV::Op { op: OpV::Substract, args: seq![left, p.0] },
                        ),
                        Err(e) => Err(e),
                    },
                    Err(e) => Err(e),
                }
            } else {
                Ok((left, st))
            }
        },
        _ => Ok((left, st)),
    }
}

#[via_fn]
proof fn spec_expr_tail_dec(st: PSt, left: ExprV) {
    lemma_advance_all();
}

/// term := factor ( ('*' | '/' | '%' | '==') factor )*
pub open spec fn spec_parse_term(st: PSt) -> Result<(ExprV, PSt), PErrV>
    decreases pmeasure(st), 1int,
    when pwf(st)
    via spec_parse_term_dec
{
    match capped(st, spec_parse_factor(st)) {
        Ok(p) => spec_term_tail(p.1, p.0),
        Err(e) => Err(e),
    }
}

#[via_fn]
proof fn spec_parse_term_dec(st: PSt) {
    lemma_advance_all();
}

/// The term tier's tail: while the lookahead is `/`, `*`, `%` or `==` — all
/// four share this tier — consume it, parse the next factor and fold it into
/// `left`, left-associatively.
pub open spec fn spec_term_tail(st: PSt, left: ExprV) -> Result<(ExprV, PSt), PErrV>
    decreases pmeasure(st), 0int,
    when pwf(st)
    via spec_term_tail_dec
{
    match st.tok {
        TokV::Op(o) => {
            if o == "/"@ {
                match spec_eat(st, TokV::Op("/"@)) {
                    Ok(st1) => match capped(st1, spec_parse_factor(st1)) {
                        Ok(p) => spec_term_tail(
                            p.1,
                            ExprV::Op { op: OpV::Division, args: seq![left, p.0] },
                        ),
                        Err(e) => Err(e),
                    },
                    Err(e) => Err(e),
                }
            } else if o == "*"@ {
                match spec_eat(st, TokV::Op("*"@)) {
                    Ok(st1) => match capped(st1, spec_parse_factor(st1)) {
                        Ok(p) => spec_term_tail(
                            p.1,
                            ExprV::Op { op: OpV::Multiply, args: seq![left, p.0] },
                        ),
                        Err(e) => Err(e),
                    },
                    Err(e) => Err(e),
                }
            } else if o == "%"@ {
                match spec_eat(st, TokV::Op("%"@)) {
                    Ok(st1) => match capped(st1, spec_parse_factor(st1)) {
                        Ok(p) => spec_term_tail(
                            p.1,
                            ExprV::Op { op: OpV::Modulos, args: seq![left, p.0] },
                        ),
                        Err(e) => Err(e),
                    },
                    Err(e) => Err(e),
                }
            } else if o == "=="@ {
                match spec_eat(st, TokV::Op("=="@)) {
                    Ok(st1) => match capped(st1, spec_parse_factor(st1)) {
                        Ok(p) => spec_term_tail(
                            p.1,
                            ExprV::Op { op: OpV::Equal, args: seq![left, p.0] },
                        ),
                        Err(e) => Err(e),
                    },
                    Err(e) => Err(e),
                }
            } else {
                Ok((left, st))
            }
        },
        _ => Ok((left, st)),
    }
}

#[via_fn]
proof fn spec_term_tail_dec(st: PSt, left: ExprV) {
    lemma_advance_all();
}

/// Skipping end-of-line tokens: the first lookahead that is not an
/// end-of-line token is kept, and nothing else is consumed.
pub open spec fn spec_remove_eol(st: PSt) -> Result<PSt, PErrV>
    decreases pmeasure(st), 0int,
    when pwf(st)
    via spec_remove_eol_dec
{
    if st.tok is EOL {
        match spec_eat(st, TokV::EOL) {
            Ok(st1) => spec_remove_eol(st1),
            Err(e) => Err(e),
        }
    } else {
        Ok(st)
    }
}

#[via_fn]
proof fn spec_remove_eol_dec(st: PSt) {
    lemma_advance_all();
}

/// factor := NUMERIC | '(' expression ')' | IDENTIFIER [ '=' expression ]
///         | KEYWORD-CALL | COMMENT | EOL expression
pub open spec fn spec_parse_factor(st: PSt) -> Result<(ExprV, PSt), PErrV>
    decreases pmeasure(st), 0int,
    when pwf(st)
    via spec_parse_factor_dec
{
    let line = line_of(st.lex);
    let col = col_of(st.lex);
    match st.tok {
        TokV::Num { raw, hint } => {
            match spec_new_literal(TokV::Num { raw, hint }) {
                Ok(lit) => match spec_eat(st, TokV::Num { raw, hint }) {
                    Ok(st1) => Ok((lit, st1)),
                    Err(e) => Err(e),
                },
                Err(e2) => Err(PErrV::LiteralConversion { error: e2, line, col }),
            }
        },
        TokV::Punct { raw, kind } => {
            if raw == '(' {
                match kind {
                    PunctV::Open(depth) => {
                        match spec_eat(st, TokV::Punct { raw: '(', kind: PunctV::Open(depth) }) {
                            Ok(st1) => match capped(st1, spec_parse_expression(st1)) {
                                Ok(p) => match capped_st(p.1, spec_remove_eol(p.1)) {
                                    Ok(st3) => match spec_eat(
                                        st3,
                                        TokV::Punct { raw: ')', kind: PunctV::Close(depth) },
                                    ) {
                                        Ok(st4) => Ok((p.0, st4)),
                                        Err(e) => Err(e),
                                    },
                                    Err(e) => Err(e),
                                },
                                Err(e) => Err(e),
                            },
                            Err(e) => Err(e),
                        }
                    },
                    _ => Err(
                        PErrV::UnexpectedFactor { found: TokV::Punct { raw, kind }, line, col },
                    ),
                }
            } else {
                Err(PErrV::UnexpectedFactor { found: TokV::Punct { raw, kind }, line, col })
            }
        },
        TokV::Ident(name) => {
            if is_ascii_chars(name) {
                match spec_eat(st, TokV::Ident(name)) {
                    Ok(st1) => {
                        let sym = ExprV::Lit(LitV::Sym(name));
                        match st1.tok {
                            TokV::Op(o) => {
                                if o == "="@ {
                                    match spec_eat(st1, TokV::Op("="@)) {
                                        Ok(st2) => match capped(st2, spec_parse_expression(st2)) {
                                            Ok(p) => Ok(
                                                (
                                                    ExprV::Op {
                                                        op: OpV::Assignment,
                                                        args: seq![sym, p.0],
                                                    },
                                                    p.1,
                                                ),
                                            ),
                                            Err(e) => Err(e),
                                        },
                                        Err(e) => Err(e),
                                    }
                                } else {
                                    Ok((sym, st1))
                                }
                            },
                            TokV::EOF => Ok((sym, st1)),
                            TokV::EOL => Ok((sym, st1)),
                            _ => Err(
                                PErrV::AfterIdentifier { name, found: st1.tok, line, col },
                            ),
                        }
                    },
                    Err(e) => Err(e),
                }
            } else {
                Err(PErrV::InvalidIdentifier { name, line, col })
            }
        },
        TokV::Sym(sym) => {
            match spec_eat(st, TokV::Sym(sym)) {
                Ok(st1) => {
                    if sym == "print"@ {
                        spec_parse_function(st1, "print"@)
                    } else if sym == "if"@ {
                        spec_parse_function(st1, "if"@)
                    } else {
                        Err(PErrV::UnimplementedKeyword { name: sym, line, col })
                    }
                },
                Err(e) => Err(e),
            }
        },
        TokV::Comment => match spec_eat(st, TokV::Comment) {
            Ok(st1) => Ok((ExprV::Comment, st1)),
            Err(e) => Err(e),
        },
        TokV::EOL => match spec_eat(st, TokV::EOL) {
            Ok(st1) => spec_parse_expression(st1),
            Err(e) => Err(e),
        },
        _ => Err(PErrV::UnexpectedFactor { found: st.tok, line, col }),
    }
}

#[via_fn]
proof fn spec_parse_factor_dec(st: PSt) {
    lemma_advance_all();
}

/// KEYWORD-CALL, the keyword already consumed: `'(' expression ')'` with
/// blank lines tolerated before the `)`. A following end-of-line or
/// end-of-input completes the call node; a following `{ expression }` block
/// makes a definition node over the call's operand; a bare `)` standing where
/// a block could begin ends the call without one, handing back the operand;
/// anything else is a grammar error.
pub open spec fn spec_parse_function(st: PSt, name: Seq<char>) -> Result<(ExprV, PSt), PErrV>
    decreases pmeasure(st), 3int,
    when pwf(st)
    via spec_parse_function_dec
{
    let line = line_of(st.lex);
    let col = col_of(st.lex);
    match st.tok {
        TokV::Punct { raw, kind } => {
            if raw != '(' {
                Err(PErrV::FunctionCallSyntax { found: TokV::Punct { raw, kind }, line, col })
            } else {
                match kind {
                    PunctV::Open(depth) => {
                        match spec_eat(st, TokV::Punct { raw: '(', kind: PunctV::Open(depth) }) {
                            Ok(st1) => match capped(st1, spec_parse_expression(st1)) {
                                Ok(p) => match capped_st(p.1, spec_remove_eol(p.1)) {
                                    Ok(st3) => match spec_eat(
                                        st3,
                                        TokV::Punct { raw: ')', kind: PunctV::Close(depth) },
                                    ) {
                                        Ok(st4) => spec_call_end(st4, name, p.0, line, col),
                                        Err(e) => Err(e),
                                    },
                                    Err(e) => Err(e),
                                },
                                Err(e) => Err(e),
                            },
                            Err(e) => Err(e),
                        }
                    },
                    _ => Err(
                        PErrV::FunctionCallSyntax { found: TokV::Punct { raw, kind }, line, col },
                    ),
                }
            }
        },
        _ => Err(PErrV::FunctionCallSyntax { found: st.tok, line, col }),
    }
}

#[via_fn]
proof fn spec_parse_function_dec(st: PSt, name: Seq<char>) {
    lemma_advance_all();
}

/// What follows a keyword call's closing `)`: end-of-line or end-of-input
/// completes the call node; a `{ expression }` block makes a definition node;
/// a bare `)` hands back the operand; anything else is a grammar error.
pub open spec fn spec_call_end(
    st: PSt,
    name: Seq<char>,
    operand: ExprV,
    line: int,
    col: int,
) -> Result<(ExprV, PSt), PErrV>
    decreases pmeasure(st), 2int,
    when pwf(st)
    via spec_call_end_dec
{
    match st.tok {
        TokV::EOL => match spec_eat(st, TokV::EOL) {
            Ok(st1) => Ok((ExprV::Op { op: OpV::Call(name), args: seq![operand] }, st1)),
            Err(e) => Err(e),
        },
        TokV::EOF => match spec_eat(st, TokV::EOF) {
            Ok(st1) => Ok((ExprV::Op { op: OpV::Call(name), args: seq![operand] }, st1)),
            Err(e) => Err(e),
        },
        TokV::Punct { raw, kind } => {
            if raw == '{' {
                match kind {
                    PunctV::Open(depth2) => {
                        match spec_eat(st, TokV::Punct { raw: '{', kind: PunctV::Open(depth2) }) {
                            Ok(st1) => match capped(st1, spec_parse_expression(st1)) {
                                Ok(p) => match capped_st(p.1, spec_remove_eol(p.1)) {
                                    Ok(st3) => match spec_eat(
                                        st3,
                                        TokV::Punct { raw: '}', kind: PunctV::Close(depth2) },
                                    ) {
                                        Ok(st4) => Ok(
                                            (
                                                ExprV::Op {
                                                    op: OpV::Define(Box::new(operand)),
                                                    args: seq![p.0],
                                                },
                                                st4,
                                            ),
                                        ),
                                        Err(e) => Err(e),
                                    },
                                    Err(e) => Err(e),
                                },
                                Err(e) => Err(e),
                            },
                            Err(e) => Err(e),
                        }
                    },
                    _ => Err(
                        PErrV::FunctionCallSyntax { found: TokV::Punct { raw, kind }, line, col },
                    ),
                }
            } else if raw == ')' {
                Ok((operand, st))
            } else {
                Err(PErrV::FunctionCallSyntax { found: TokV::Punct { raw, kind }, line, col })
            }
        },
        _ => Err(PErrV::FunctionCallSyntax { found: st.tok, line, col }),
    }
}

#[via_fn]
proof fn spec_call_end_dec(st: PSt, name: Seq<char>, operand: ExprV, line: int, col: int) {
    lemma_advance_all();
}

/// The top-level driver's loop: end-of-line tokens terminate statements and
/// are skipped, never stored; end-of-input completes the program with the
/// pending expression; anything else starts the next top-level expression.
/// The guard on the recursion only restates that a parsed expression consumes
/// input, which the implementation proves.
pub open spec fn spec_walk_loop(st: PSt, pending: ExprV, acc: Seq<ExprV>) -> Result<
    (Seq<ExprV>, PSt),
    PErrV,
>
    decreases pmeasure(st), 4int,
    when pwf(st)
    via spec_walk_loop_dec
{
    match st.tok {
        TokV::EOL => match spec_eat(st, TokV::EOL) {
            Ok(st1) => spec_walk_loop(st1, pending, acc),
            Err(e) => Err(e),
        },
        TokV::EOF => Ok((acc.push(pending), st)),
        _ => match capped(st, spec_parse_expression(st)) {
            Ok(p) => {
                if pmeasure(p.1) < pmeasure(st) {
                    spec_walk_loop(p.1, p.0, acc.push(pending))
                } else {
                    Err(
                        PErrV::UnexpectedFactor {
                            found: st.tok,
                            line: line_of(st.lex),
                            col: col_of(st.lex),
                        },
                    )
                }
            },
            Err(e) => Err(e),
        },
    }
}

#[via_fn]
proof fn spec_walk_loop_dec(st: PSt, pending: ExprV, acc: Seq<ExprV>) {
    lemma_advance_all();
}

/// The top-level driver: one expression per logical source line, in source
/// order, until end-of-input.
pub open spec fn spec_walk(st: PSt) -> Result<(Seq<ExprV>, PSt), PErrV> {
    match capped(st, spec_parse_expression(st)) {
        Ok(p) => spec_walk_loop(p.1, p.0, Seq::empty()),
        Err(e) => Err(e),
    }
}

/// Whether an implementation result and final state realize a spec-level
/// parse outcome.
pub open spec fn matches_parse(
    r: Result<Expr, ParserError>,
    stf: PSt,
    sr: Result<(ExprV, PSt), PErrV>,
) -> bool {
    match sr {
        Ok(p) => match r {
            Ok(e) => e@ == p.0 && stf == p.1,
            Err(_) => false,
        },
        Err(ev) => match r {
            Ok(_) => false,
            Err(pe) => pe@ == ev,
        },
    }
}

/// Whether an implementation result and final state realize a spec-level
/// outcome that carries a state alone.
pub open spec fn matches_skip(
    r: Result<(), ParserError>,
    stf: PSt,
    sr: Result<PSt, PErrV>,
) -> bool {
    match sr {
        Ok(st2) => match r {
            Ok(_) => stf == st2,
            Err(_) => false,
        },
        Err(ev) => match r {
            Ok(_) => false,
            Err(pe) => pe@ == ev,
        },
    }
}

/// The parser: the lexer it pulls from, and exactly one token of lookahead,
/// advanced only through `eat`.
pub struct Parser {
    /// The token source.
    pub lexer: Lexer,
    /// The one token of lookahead.
    pub current_token: TokenType,
}

impl View for Parser {
    type V = PSt;

    open spec fn view(&self) -> PSt {
        PSt { lex: self.lexer@, tok: self.current_token@ }
    }
}

impl Parser {
    /// Well-formedness: the lexer is well-formed (with its diagnostic fields
    /// in step), and an end-of-input lookahead stands only at the input's
    /// end.
    pub open spec fn wf(&self) -> bool {
        &&& self.lexer.wf()
        &&& pwf(self@)
    }

    /// Remaining work: unconsumed characters, plus one for a pending token.
    pub open spec fn measure(&self) -> int {
        pmeasure(self@)
    }

    /// Creates a parser by priming one token of lookahead, exactly as
    /// `spec_advance` describes from a lookahead-less start; a failing first
    /// scan is the located lexical error.
    pub fn new(lexer: Lexer) -> (r: Result<Parser, ParserError>)
        requires
            lexer.wf(),
        ensures
            match r {
                Ok(p) => {
                    &&& p.wf()
                    &&& p.lexer@ == spec_next(lexer@).0
                    &&& spec_next(lexer@).1 == Ok::<TokV, ErrV>(p.current_token@)
                },
                Err(pe) => match spec_next(lexer@).1 {
                    Err(e) => pe@ == PErrV::Lexical {
                        error: e,
                        line: line_of(spec_next(lexer@).0),
                        col: col_of(spec_next(lexer@).0),
                    },
                    Ok(_) => false,
                },
            },
    {
        let mut lexer = lexer;
        proof {
            lemma_spec_next_advance(lexer@);
        }
        let start_val = lexer.next_token();
        match start_val {
            Ok(current_token) => Ok(Parser { lexer, current_token }),
            Err(e) => {
                let line = lexer.cur_line;
                let col = lexer.cur_col;
                Err(ParserError::Lexical { error: e, line, col })
            },
        }
    }

    /// Advances past the current token, exactly as `spec_eat` describes: it
    /// succeeds exactly when the lookahead equals `expected`, variant and
    /// payload, and the next scan succeeds; a mismatch is the structured
    /// expected-versus-found error at the lexer's position, with the parser
    /// untouched; a failing scan is the located lexical error.
    fn eat(&mut self, expected: TokenType) -> (r: Result<(), ParserError>)
        requires
            old(self).wf(),
        ensures
            final(self).wf(),
            final(self).measure() <= old(self).measure(),
            final(self).lexer@.input == old(self).lexer@.input,
            matches_skip(r, final(self)@, spec_eat(old(self)@, expected@)),
            r is Ok ==> {
                &&& old(self).current_token@ == expected@
                &&& (!(old(self).current_token is EOF) ==> final(self).measure() < old(
                    self,
                ).measure())
            },
            r is Err ==> final(self).current_token@ == old(self).current_token@,
            r is Err && old(self).current_token@ != expected@ ==> final(self)@ == old(self)@,
            r is Err && old(self).current_token@ == expected@ ==> final(self)@.lex == spec_next(
                old(self)@.lex,
            ).0,
    {
        proof {
            lemma_spec_next_advance(self.lexer@);
        }
        if token_equals(&self.current_token, &expected) {
            let start_val = self.lexer.next_token();
            match start_val {
                Ok(t) => {
                    self.current_token = t;
                    Ok(())
                },
                Err(e) => {
                    let line = self.lexer.cur_line;
                    let col = self.lexer.cur_col;
                    Err(ParserError::Lexical { error: e, line, col })
                },
            }
        } else {
            let line = self.lexer.cur_line;
            let col = self.lexer.cur_col;
            let found = clone_token(&self.current_token);
            Err(ParserError::UnexpectedToken { expected, found, line, col })
        }
    }

    /// Skips end-of-line tokens (blank lines inside bracketed expressions),
    /// exactly as `spec_remove_eol` describes: afterwards the lookahead is
    /// not an end-of-line token, and nothing else was consumed.
    #[verifier::loop_isolation(false)]
    fn remove_eol(&mut self) -> (r: Result<(), ParserError>)
        requires
            old(self).wf(),
        ensures
            final(self).wf(),
            final(self).measure() <= old(self).measure(),
            final(self).lexer@.input == old(self).lexer@.input,
            matches_skip(r, final(self)@, spec_remove_eol(old(self)@)),
    {
        loop
            invariant
                self.wf(),
                self.measure() <= old(self).measure(),
                self.lexer@.input == old(self).lexer@.input,
                spec_remove_eol(self@) == spec_remove_eol(old(self)@),
            decreases self.measure(),
        {
            let is_eol = match &self.current_token {
                TokenType::EOL => true,
                _ => false,
            };
            if is_eol {
                match self.eat(TokenType::EOL) {
                    Ok(_) => {},
                    Err(er) => {
                        return Err(er);
                    },
                }
            } else {
                return Ok(());
            }
        }
    }

    /// expression := term ( ('+' | '-') term )*, exactly as
    /// `spec_parse_expression` describes.
    #[verifier::loop_isolation(false)]
    #[verifier::rlimit(60)]
    fn parse_expression(&mut self) -> (r: Result<Expr, ParserError>)
        requires
            old(self).wf(),
        ensures
            final(self).wf(),
            final(self).measure() <= old(self).measure(),
            final(self).lexer@.input == old(self).lexer@.input,
            matches_parse(r, final(self)@, spec_parse_expression(old(self)@)),
            match r {
                Ok(e) => wf_expr(e@) && final(self).measure() < old(self).measure(),
                Err(_) => true,
            },
        decreases self.measure(), 2int,
    {
        let mut left = match self.parse_term() {
            Ok(e) => e,
            Err(er) => {
                proof {
                    assert(spec_parse_expression(old(self)@) == Err::<(ExprV, PSt), PErrV>(er@));
                }
                return Err(er);
            },
        };
        proof {
            assert(capped(old(self)@, spec_parse_term(old(self)@)) == Ok::<(ExprV, PSt), PErrV>(
                (left@, self@),
            ));
        }
        loop
            invariant
                self.wf(),
                self.measure() < old(self).measure(),
                self.lexer@.input == old(self).lexer@.input,
                wf_expr(left@),
                spec_expr_tail(self@, left@) == spec_parse_expression(old(self)@),
            decreases self.measure(),
        {
            let ghost stc = self@;
            let ghost lv0 = left@;
            let action: u8 = match &self.current_token {
                TokenType::Operators(op) => {
                    if *op == "+".to_owned() {
                        1
                    } else if *op == "-".to_owned() {
                        2
                    } else {
                        0
                    }
                },
                _ => 0,
            };
            if action == 1 {
                match self.eat(TokenType::Operators("+".to_owned())) {
                    Ok(_) => {},
                    Err(er) => {
                        return Err(er);
                    },
                }
                let ghost st1 = self@;
                let right = match self.parse_term() {
                    Ok(e) => e,
                    Err(er) => {
                        return Err(er);
                    },
                };
                proof {
                    assert(capped(st1, spec_parse_term(st1)) == Ok::<(ExprV, PSt), PErrV>(
                        (right@, self@),
                    ));
                }
                left = binary_node(Operator::Plus, left, right);
                proof {
                    assert(spec_expr_tail(stc, lv0) == spec_expr_tail(self@, left@));
                }
            } else if action == 2 {
                match self.eat(TokenType::Operators("-".to_owned())) {
                    Ok(_) => {},
                    Err(er) => {
                        return Err(er);
                    },
                }
                let ghost st1 = self@;
                let right = match self.parse_term() {
                    Ok(e) => e,
                    Err(er) => {
                        return Err(er);
                    },
                };
                proof {
                    assert(capped(st1, spec_parse_term(st1)) == Ok::<(ExprV, PSt), PErrV>(
                        (right@, self@),
                    ));
                }
                left = binary_node(Operator::Substract, left, right);
                proof {
                    assert(spec_expr_tail(stc, lv0) == spec_expr_tail(self@, left@));
                }
            } else {
                proof {
                    assert(spec_expr_tail(stc, lv0) == Ok::<(ExprV, PSt), PErrV>((lv0, stc)));
                }
                return Ok(left);
            }
        }
    }

    /// term := factor ( ('*' | '/' | '%' | '==') factor )*, exactly as
    /// `spec_parse_term` describes.
    ///
    /// `%` and `==` share this tier with `*` and `/`, exactly as the grammar
    /// stands.
    #[verifier::loop_isolation(false)]
    #[verifier::rlimit(60)]
    fn parse_term(&mut self) -> (r: Result<Expr, ParserError>)
        requires
            old(self).wf(),
        ensures
            final(self).wf(),
            final(self).measure() <= old(self).measure(),
            final(self).lexer@.input == old(self).lexer@.input,
            matches_parse(r, final(self)@, spec_parse_term(old(self)@)),
            match r {
                Ok(e) => wf_expr(e@) && final(self).measure() < old(self).measure(),
                Err(_) => true,
            },
        decreases self.measure(), 1int,
    {
        let mut left = match self.parse_factor() {
            Ok(e) => e,
            Err(er) => {
                proof {
                    assert(spec_parse_term(old(self)@) == Err::<(ExprV, PSt), PErrV>(er@));
                }
                return Err(er);
            },
        };
        proof {
            assert(capped(old(self)@, spec_parse_factor(old(self)@)) == Ok::<(ExprV, PSt), PErrV>(
                (left@, self@),
            ));
        }
        loop
            invariant
                self.wf(),
                self.measure() < old(self).measure(),
                self.lexer@.input == old(self).lexer@.input,
                wf_expr(left@),
                spec_term_tail(self@, left@) == spec_parse_term(old(self)@),
            decreases self.measure(),
        {
            let ghost stc = self@;
            let ghost lv0 = left@;
            let action: u8 = match &self.current_token {
                TokenType::Operators(op) => {
                    if *op == "/".to_owned() {
                        1
                    } else if *op == "*".to_owned() {
                        2
                    } else if *op == "%".to_owned() {
                        3
                    } else if *op == "==".to_owned() {
                        4
                    } else {
                        0
                    }
                },
                _ => 0,
            };
            if action == 1 {
                match self.eat(TokenType::Operators("/".to_owned())) {
                    Ok(_) => {},
                    Err(er) => {
                        return Err(er);
                    },
                }
                let ghost st1 = self@;
                let right = match self.parse_factor() {
                    Ok(e) => e,
                    Err(er) => {
                        return Err(er);
                    },
                };
                proof {
                    assert(capped(st1, spec_parse_factor(st1)) == Ok::<(ExprV, PSt), PErrV>(
                        (right@, self@),
                    ));
                }
                left = binary_node(Operator::Division, left, right);
                proof {
                    assert(spec_term_tail(stc, lv0) == spec_term_tail(self@, left@));
                }
            } else if action == 2 {
                match self.eat(TokenType::Operators("*".to_owned())) {
                    Ok(_) => {},
                    Err(er) => {
                        return Err(er);
                    },
                }
                let ghost st1 = self@;
                let right = match self.parse_factor() {
                    Ok(e) => e,
                    Err(er) => {
                        return Err(er);
                    },
                };
                proof {
                    assert(capped(st1, spec_parse_factor(st1)) == Ok::<(ExprV, PSt), PErrV>(
                        (right@, self@),
                    ));
                }
                left = binary_node(Operator::Multiply, left, right);
                proof {
                    assert(spec_term_tail(stc, lv0) == spec_term_tail(self@, left@));
                }
            } else if action == 3 {
                match self.eat(TokenType::Operators("%".to_owned())) {
                    Ok(_) => {},
                    Err(er) => {
                        return Err(er);
                    },
                }
                let ghost st1 = self@;
                let right = match self.parse_factor() {
                    Ok(e) => e,
                    Err(er) => {
                        return Err(er);
                    },
                };
                proof {
                    assert(capped(st1, spec_parse_factor(st1)) == Ok::<(ExprV, PSt), PErrV>(
                        (right@, self@),
                    ));
                }
                left = binary_node(Operator::Modulos, left, right);
                proof {
                    assert(spec_term_tail(stc, lv0) == spec_term_tail(self@, left@));
                }
            } else if action == 4 {
                match self.eat(TokenType::Operators("==".to_owned())) {
                    Ok(_) => {},
                    Err(er) => {
                        return Err(er);
                    },
                }
                let ghost st1 = self@;
                let right = match self.parse_factor() {
                    Ok(e) => e,
                    Err(er) => {
                        return Err(er);
                    },
                };
                proof {
                    assert(capped(st1, spec_parse_factor(st1)) == Ok::<(ExprV, PSt), PErrV>(
                        (right@, self@),
                    ));
                }
                left = binary_node(Operator::Equal, left, right);
                proof {
                    assert(spec_term_tail(stc, lv0) == spec_term_tail(self@, left@));
                }
            } else {
                proof {
                    assert(spec_term_tail(stc, lv0) == Ok::<(ExprV, PSt), PErrV>((lv0, stc)));
                }
                return Ok(left);
            }
        }
    }

    /// factor := NUMERIC | '(' expression ')' | IDENTIFIER [ '=' expression ]
    ///         | KEYWORD-CALL | COMMENT | EOL expression
    #[verifier::rlimit(100)]
    fn parse_factor(&mut self) -> (r: Result<Expr, ParserError>)
        requires
            old(self).wf(),
        ensures
            final(self).wf(),
            final(self).measure() <= old(self).measure(),
            final(self).lexer@.input == old(self).lexer@.input,
            matches_parse(r, final(self)@, spec_parse_factor(old(self)@)),
            match r {
                Ok(e) => wf_expr(e@) && final(self).measure() < old(self).measure(),
                Err(_) => true,
            },
        decreases self.measure(), 0int,
    {
        let line = self.lexer.cur_line;
        let col = self.lexer.cur_col;
        let tok = clone_token(&self.current_token);
        match tok {
            TokenType::Numeric { raw, hint } => {
                let expected = TokenType::Numeric { raw: raw.clone(), hint };
                let literal_with_error = Expr::new_literal(TokenType::Numeric { raw, hint });
                match literal_with_error {
                    Ok(lit) => {
                        match self.eat(expected) {
                            Ok(_) => {},
                            Err(er) => {
                                return Err(er);
                            },
                        }
                        Ok(lit)
                    },
                    Err(e2) => Err(ParserError::LiteralConversion { error: e2, line, col }),
                }
            },
            TokenType::Puncutation { raw, kind } => {
                if raw == '(' {
                    match kind {
                        PunctuationKind::Open(depth) => {
                            match self.eat(
                                TokenType::Puncutation { raw, kind: PunctuationKind::Open(depth) },
                            ) {
                                Ok(_) => {},
                                Err(er) => {
                                    return Err(er);
                                },
                            }
                            let ghost st1 = self@;
                            let expr = match self.parse_expression() {
                                Ok(e) => e,
                                Err(er) => {
                                    return Err(er);
                                },
                            };
                            proof {
                                assert(capped(st1, spec_parse_expression(st1)) == Ok::<
                                    (ExprV, PSt),
                                    PErrV,
                                >((expr@, self@)));
                            }
                            let ghost st2 = self@;
                            match self.remove_eol() {
                                Ok(_) => {},
                                Err(er) => {
                                    return Err(er);
                                },
                            }
                            proof {
                                assert(capped_st(st2, spec_remove_eol(st2)) == Ok::<PSt, PErrV>(
                                    self@,
                                ));
                            }
                            match self.eat(
                                TokenType::Puncutation {
                                    raw: ')',
                                    kind: PunctuationKind::Close(depth),
                                },
                            ) {
                                Ok(_) => {},
                                Err(er) => {
                                    return Err(er);
                                },
                            }
                            Ok(expr)
                        },
                        _ => Err(
                            ParserError::UnexpectedFactor {
                                found: TokenType::Puncutation { raw, kind },
                                line,
                                col,
                            },
                        ),
                    }
                } else {
                    Err(
                        ParserError::UnexpectedFactor {
                            found: TokenType::Puncutation { raw, kind },
                            line,
                            col,
                        },
                    )
                }
            },
            TokenType::Identifier(i) => {
                if i.is_ascii() {
                    match self.eat(TokenType::Identifier(i.clone())) {
                        Ok(_) => {},
                        Err(er) => {
                            return Err(er);
                        },
                    }
                    let op_symbol = Expr::OpLiteral(Box::new(Literal::Symbol(i.clone())));
                    let follows_assign: bool = match &self.current_token {
                        TokenType::Operators(op) => *op == "=".to_owned(),
                        _ => false,
                    };
                    if follows_assign {
                        match self.eat(TokenType::Operators("=".to_owned())) {
                            Ok(_) => {},
                            Err(er) => {
                                return Err(er);
                            },
                        }
                        let ghost st2 = self@;
                        let next_expers = match self.parse_expression() {
                            Ok(e) => e,
                            Err(er) => {
                                return Err(er);
                            },
                        };
                        proof {
                            assert(capped(st2, spec_parse_expression(st2)) == Ok::<
                                (ExprV, PSt),
                                PErrV,
                            >((next_expers@, self@)));
                        }
                        Ok(binary_node(Operator::Assignment, op_symbol, next_expers))
                    } else {
                        let stands_alone: bool = match &self.current_token {
                            TokenType::Operators(_) => true,
                            TokenType::EOF => true,
                            TokenType::EOL => true,
                            _ => false,
                        };
                        if stands_alone {
                            Ok(op_symbol)
                        } else {
                            Err(
                                ParserError::AfterIdentifier {
                                    name: i,
                                    found: clone_token(&self.current_token),
                                    line,
                                    col,
                                },
                            )
                        }
                    }
                } else {
                    Err(ParserError::InvalidIdentifier { name: i, line, col })
                }
            },
            TokenType::Symobl(sym) => {
                match self.eat(TokenType::Symobl(sym.clone())) {
                    Ok(_) => {},
                    Err(er) => {
                        return Err(er);
                    },
                }
                if sym == "print".to_owned() {
                    self.parse_function("print")
                } else if sym == "if".to_owned() {
                    self.parse_function("if")
                } else {
                    Err(ParserError::UnimplementedKeyword { name: sym, line, col })
                }
            },
            TokenType::Comment => {
                match self.eat(TokenType::Comment) {
                    Ok(_) => {},
                    Err(er) => {
                        return Err(er);
                    },
                }
                Ok(Expr::OPComment)
            },
            TokenType::EOL => {
                match self.eat(TokenType::EOL) {
                    Ok(_) => {},
                    Err(er) => {
                        return Err(er);
                    },
                }
                self.parse_expression()
            },
            _ => Err(ParserError::UnexpectedFactor { found: tok, line, col }),
        }
    }

    /// KEYWORD-CALL: the keyword already consumed, parses
    /// `'(' expression ')'`, tolerating blank lines before the `)`. A
    /// following end-of-line or end-of-input completes the call; a following
    /// `{ expression }` block turns it into a definition; a bare `)` standing
    /// where a block could begin ends the call without one, handing back the
    /// call's operand; anything else is a grammar error.
    #[verifier::rlimit(100)]
    fn parse_function(&mut self, function_name: &str) -> (r: Result<Expr, ParserError>)
        requires
            old(self).wf(),
        ensures
            final(self).wf(),
            final(self).measure() <= old(self).measure(),
            final(self).lexer@.input == old(self).lexer@.input,
            matches_parse(r, final(self)@, spec_parse_function(old(self)@, function_name@)),
            match r {
                Ok(e) => wf_expr(e@),
                Err(_) => true,
            },
        decreases self.measure(), 3int,
    {
        let line = self.lexer.cur_line;
        let col = self.lexer.cur_col;
        let (raw, kind) = match &self.current_token {
            TokenType::Puncutation { raw, kind } => (*raw, *kind),
            _ => {
                return Err(
                    ParserError::FunctionCallSyntax {
                        found: clone_token(&self.current_token),
                        line,
                        col,
                    },
                );
            },
        };
        if raw != '(' {
            return Err(
                ParserError::FunctionCallSyntax {
                    found: TokenType::Puncutation { raw, kind },
                    line,
                    col,
                },
            );
        }
        let depth = match kind {
            PunctuationKind::Open(depth) => depth,
            _ => {
                return Err(
                    ParserError::FunctionCallSyntax {
                        found: TokenType::Puncutation { raw, kind },
                        line,
                        col,
                    },
                );
            },
        };
        match self.eat(TokenType::Puncutation { raw, kind: PunctuationKind::Open(depth) }) {
            Ok(_) => {},
            Err(er) => {
                return Err(er);
            },
        }
        let ghost st1 = self@;
        let expr = match self.parse_expression() {
            Ok(e) => e,
            Err(er) => {
                return Err(er);
            },
        };
        proof {
            assert(capped(st1, spec_parse_expression(st1)) == Ok::<(ExprV, PSt), PErrV>(
                (expr@, self@),
            ));
        }
        let ghost st2 = self@;
        match self.remove_eol() {
            Ok(_) => {},
            Err(er) => {
                return Err(er);
            },
        }
        proof {
            assert(capped_st(st2, spec_remove_eol(st2)) == Ok::<PSt, PErrV>(self@));
        }
        match self.eat(TokenType::Puncutation { raw: ')', kind: PunctuationKind::Close(depth) }) {
            Ok(_) => {},
            Err(er) => {
                return Err(er);
            },
        }
        proof {
            assert(spec_parse_function(old(self)@, function_name@) == spec_call_end(
                self@,
                function_name@,
                expr@,
                line as int,
                col as int,
            ));
        }
        let ghost st4 = self@;
        let ghost operand = expr@;
        let after: u8 = match &self.current_token {
            TokenType::EOL => 1,
            TokenType::EOF => 2,
            TokenType::Puncutation { .. } => 3,
            _ => 0,
        };
        if after == 1 {
            match self.eat(TokenType::EOL) {
                Ok(_) => {},
                Err(er) => {
                    return Err(er);
                },
            }
            Ok(unary_node(Operator::Call(function_name.to_owned()), expr))
        } else if after == 2 {
            match self.eat(TokenType::EOF) {
                Ok(_) => {},
                Err(er) => {
                    return Err(er);
                },
            }
            Ok(unary_node(Operator::Call(function_name.to_owned()), expr))
        } else if after == 3 {
            let (raw2, kind2) = match &self.current_token {
                TokenType::Puncutation { raw, kind } => (*raw, *kind),
                _ => {
                    return Err(
                        ParserError::FunctionCallSyntax {
                            found: clone_token(&self.current_token),
                            line,
                            col,
                        },
                    );
                },
            };
            if raw2 == '{' {
                let depth2 = match kind2 {
                    PunctuationKind::Open(depth2) => depth2,
                    _ => {
                        return Err(
                            ParserError::FunctionCallSyntax {
                                found: TokenType::Puncutation { raw: raw2, kind: kind2 },
                                line,
                                col,
                            },
                        );
                    },
                };
                match self.eat(
                    TokenType::Puncutation { raw: raw2, kind: PunctuationKind::Open(depth2) },
                ) {
                    Ok(_) => {},
                    Err(er) => {
                        return Err(er);
                    },
                }
                let ghost st5 = self@;
                let new_expr = match self.parse_expression() {
                    Ok(e) => e,
                    Err(er) => {
                        return Err(er);
                    },
                };
                proof {
                    assert(capped(st5, spec_parse_expression(st5)) == Ok::<(ExprV, PSt), PErrV>(
                        (new_expr@, self@),
                    ));
                }
                let ghost st6 = self@;
                match self.remove_eol() {
                    Ok(_) => {},
                    Err(er) => {
                        return Err(er);
                    },
                }
                proof {
                    assert(capped_st(st6, spec_remove_eol(st6)) == Ok::<PSt, PErrV>(self@));
                }
                match self.eat(
                    TokenType::Puncutation { raw: '}', kind: PunctuationKind::Close(depth2) },
                ) {
                    Ok(_) => {},
                    Err(er) => {
                        return Err(er);
                    },
                }
                Ok(unary_node(Operator::Define(Box::new(expr)), new_expr))
            } else if raw2 == ')' {
                Ok(expr)
            } else {
                Err(
                    ParserError::FunctionCallSyntax {
                        found: TokenType::Puncutation { raw: raw2, kind: kind2 },
                        line,
                        col,
                    },
                )
            }
        } else {
            Err(
                ParserError::FunctionCallSyntax {
                    found: clone_token(&self.current_token),
                    line,
                    col,
                },
            )
        }
    }

    /// The top-level driver: parses one expression per logical line, skipping
    /// end-of-line separators, until end-of-input; yields the accumulated
    /// program, whose expressions are all well-formed, or the first error.
    #[verifier::loop_isolation(false)]
    #[verifier::rlimit(60)]
    pub fn walk(&mut self) -> (r: Result<Program, ParserError>)
        requires
            old(self).wf(),
        ensures
            final(self).wf(),
            match r {
                Ok(p) => {
                    &&& match spec_walk(old(self)@) {
                        Ok(q) => exprs_view(p.exprs@) == q.0 && final(self)@ == q.1,
                        Err(_) => false,
                    }
                    &&& p.exprs@.len() >= 1
                    &&& forall|k: int| 0 <= k < p.exprs@.len() ==> wf_expr(
                        #[trigger] p.exprs@[k]@,
                    )
                    &&& final(self).current_token is EOF
                },
                Err(pe) => match spec_walk(old(self)@) {
                    Ok(_) => false,
                    Err(ev) => pe@ == ev,
                },
            },
    {
        let mut program = Program::new();
        let mut expressions = match self.parse_expression() {
            Ok(e) => e,
            Err(er) => {
                proof {
                    assert(spec_walk(old(self)@) == Err::<(Seq<ExprV>, PSt), PErrV>(er@));
                }
                return Err(er);
            },
        };
        proof {
            assert(capped(old(self)@, spec_parse_expression(old(self)@)) == Ok::<
                (ExprV, PSt),
                PErrV,
            >((expressions@, self@)));
            assert(exprs_view(program.exprs@) =~= Seq::<ExprV>::empty());
        }
        loop
            invariant
                self.wf(),
                wf_expr(expressions@),
                forall|k: int| 0 <= k < program.exprs@.len() ==> wf_expr(
                    #[trigger] program.exprs@[k]@,
                ),
                spec_walk_loop(self@, expressions@, exprs_view(program.exprs@)) == spec_walk(
                    old(self)@,
                ),
            decreases self.measure(),
        {
            let ghost stc = self@;
            let ghost pending = expressions@;
            let ghost accv = exprs_view(program.exprs@);
            let action: u8 = match &self.current_token {
                TokenType::EOL => 1,
                TokenType::EOF => 2,
                _ => 0,
            };
            if action == 1 {
                match self.eat(TokenType::EOL) {
                    Ok(_) => {},
                    Err(er) => {
                        return Err(er);
                    },
                }
            } else if action == 2 {
                proof {
                    lemma_exprs_view_push(program.exprs@, expressions);
                }
                program.exprs.push(expressions);
                proof {
                    assert(spec_walk_loop(stc, pending, accv) == Ok::<(Seq<ExprV>, PSt), PErrV>(
                        (accv.push(pending), stc),
                    ));
                }
                return Ok(program);
            } else {
                proof {
                    lemma_exprs_view_push(program.exprs@, expressions);
                }
                program.exprs.push(expressions);
                expressions = match self.parse_expression() {
                    Ok(e) => e,
                    Err(er) => {
                        return Err(er);
                    },
                };
                proof {
                    assert(capped(stc, spec_parse_expression(stc)) == Ok::<(ExprV, PSt), PErrV>(
                        (expressions@, self@),
                    ));
                    assert(spec_walk_loop(stc, pending, accv) == spec_walk_loop(
                        self@,
                        expressions@,
                        accv.push(pending),
                    ));
                }
            }
        }
    }
}

} // verus!
