//! The expression tree: literal leaves and operator nodes with a fixed arity
//! per operator, plus the conversion of numeric tokens into literal leaves.

use vstd::prelude::*;

use crate::lexer::NumericType;
use crate::lexer::TokenType;
use crate::lexer::TokV;
use crate::lexer::count_char;
use crate::text::all_digits;
use crate::text::digits_val;
use crate::text::is_digit;
use crate::text::parse_decimal_i32;

verus! {

/// Failure to turn a token into a literal expression.
#[derive(Debug)]
pub enum ExprError {
    /// A numeric token's text does not fit the requested representation.
    FailedConversion { expected: String, found: String },
    /// A literal was requested from a token that is not a numeric literal.
    InvalidFirstElement,
}

/// Spec-level mirror of `ExprError`.
pub enum ExprErrV {
    FailedConversion { expected: Seq<char>, found: Seq<char> },
    InvalidFirstElement,
}

impl View for ExprError {
    type V = ExprErrV;

    open spec fn view(&self) -> ExprErrV {
        match *self {
            ExprError::FailedConversion { ref expected, ref found } => ExprErrV::FailedConversion {
                expected: expected@,
                found: found@,
            },
            ExprError::InvalidFirstElement => ExprErrV::InvalidFirstElement,
        }
    }
}

/// A literal value at a leaf of the expression tree.
///
/// A floating-point literal keeps its source text (digits with one decimal
/// point), which is what code generation emits for it.
#[derive(Debug)]
pub enum Literal {
    Integer(i32),
    FloatingPoint(String),
    String(String),
    Boolean(bool),
    Symbol(String),
}

/// An operator tag of an expression node.
#[derive(Debug)]
pub enum Operator {
    UnaryPass,
    UnaryMinus,
    LogicalNegate,
    Multiply,
    Substract,
    Modulos,
    Division,
    Plus,
    Minus,
    LessThan,
    GreaterThan,
    LessThanOrEqual,
    GreaterThantOrEqual,
    Equal,
    NotEqual,
    BooleanAnd,
    BooleanEqual,
    Call(String),
    Index,
    Assignment,
    Define(Box<Expr>),
}

/// An operator node: the operator tag and its ordered child expressions.
#[derive(Debug)]
pub struct OpExpr {
    pub op: Operator,
    pub args: Vec<Expr>,
}

/// An expression: an operator node, a literal leaf, or a comment.
#[derive(Debug)]
pub enum Expr {
    OpExpr(Box<OpExpr>),
    OpLiteral(Box<Literal>),
    OPComment,
}

/// A program: the ordered top-level expressions, one per logical source line.
#[derive(Debug)]
pub struct Program {
    pub exprs: Vec<Expr>,
}

impl Program {
    /// An empty program.
    pub fn new() -> (p: Program)
        ensures
            p.exprs@.len() == 0,
    {
        Program { exprs: vec![] }
    }
}

// ---------------------------------------------------------------------------
// Spec-level mirrors
// ---------------------------------------------------------------------------

/// Spec-level mirror of `Literal`.
pub enum LitV {
    Integer(i32),
    Float(Seq<char>),
    Str(Seq<char>),
    Bool(bool),
    Sym(Seq<char>),
}

/// Spec-level mirror of `Operator`.
pub enum OpV {
    UnaryPass,
    UnaryMinus,
    LogicalNegate,
    Multiply,
    Substract,
    Modulos,
    Division,
    Plus,
    Minus,
    LessThan,
    GreaterThan,
    LessThanOrEqual,
    GreaterThantOrEqual,
    Equal,
    NotEqual,
    BooleanAnd,
    BooleanEqual,
    Call(Seq<char>),
    Index,
    Assignment,
    Define(Box<ExprV>),
}

/// Spec-level mirror of `Expr`.
pub enum ExprV {
    Op { op: OpV, args: Seq<ExprV> },
    Lit(LitV),
    Comment,
}

impl View for Literal {
    type V = LitV;

    open spec fn view(&self) -> LitV {
        match *self {
            Literal::Integer(n) => LitV::Integer(n),
            Literal::FloatingPoint(ref s) => LitV::Float(s@),
            Literal::String(ref s) => LitV::Str(s@),
            Literal::Boolean(b) => LitV::Bool(b),
            Literal::Symbol(ref s) => LitV::Sym(s@),
        }
    }
}

/// View of an expression as its spec-level mirror.
pub open spec fn expr_view(e: Expr) -> ExprV
    decreases e,
{
    match e {
        Expr::OpExpr(b) => ExprV::Op { op: op_view(b.op), args: exprs_view(b.args@) },
        Expr::OpLiteral(l) => ExprV::Lit(l@),
        Expr::OPComment => ExprV::Comment,
    }
}

/// View of a sequence of expressions, elementwise.
pub open spec fn exprs_view(args: Seq<Expr>) -> Seq<ExprV>
    decreases args,
{
    if args.len() == 0 {
        Seq::empty()
    } else {
        exprs_view(args.drop_last()).push(expr_view(args.last()))
    }
}

/// View of an operator tag as its spec-level mirror.
pub open spec fn op_view(op: Operator) -> OpV
    decreases op,
{
    match op {
        Operator::UnaryPass => OpV::UnaryPass,
        Operator::UnaryMinus => OpV::UnaryMinus,
        Operator::LogicalNegate => OpV::LogicalNegate,
        Operator::Multiply => OpV::Multiply,
        Operator::Substract => OpV::Substract,
        Operator::Modulos => OpV::Modulos,
        Operator::Division => OpV::Division,
        Operator::Plus => OpV::Plus,
        Operator::Minus => OpV::Minus,
        Operator::LessThan => OpV::LessThan,
        Operator::GreaterThan => OpV::GreaterThan,
        Operator::LessThanOrEqual => OpV::LessThanOrEqual,
        Operator::GreaterThantOrEqual => OpV::GreaterThantOrEqual,
        Operator::Equal => OpV::Equal,
        Operator::NotEqual => OpV::NotEqual,
        Operator::BooleanAnd => OpV::BooleanAnd,
        Operator::BooleanEqual => OpV::BooleanEqual,
        Operator::Call(s) => OpV::Call(s@),
        Operator::Index => OpV::Index,
        Operator::Assignment => OpV::Assignment,
        Operator::Define(b) => OpV::Define(Box::new(expr_view(*b))),
    }
}

impl View for Expr {
    type V = ExprV;

    open spec fn view(&self) -> ExprV {
        expr_view(*self)
    }
}

// ---------------------------------------------------------------------------
// Arity and well-formedness
// ---------------------------------------------------------------------------

/// The fixed number of child expressions of each operator: one for unary
/// operators, calls and definitions, two for everything else.
pub open spec fn arity(op: OpV) -> int {
    match op {
        OpV::UnaryPass => 1,
        OpV::UnaryMinus => 1,
        OpV::LogicalNegate => 1,
        OpV::Call(_) => 1,
        OpV::Define(_) => 1,
        _ => 2,
    }
}

/// Well-formedness of an expression tree: every operator node has exactly as
/// many children as its operator's arity, recursively.
pub open spec fn wf_expr(e: ExprV) -> bool
    decreases e,
{
    match e {
        ExprV::Op { op, args } => {
            &&& args.len() == arity(op)
            &&& forall|k: int| 0 <= k < args.len() ==> wf_expr(#[trigger] args[k])
            &&& match op {
                OpV::Define(b) => wf_expr(*b),
                _ => true,
            }
        },
        ExprV::Lit(_) => true,
        ExprV::Comment => true,
    }
}

/// The view of a sequence of expressions is the sequence of their views.
pub proof fn lemma_exprs_view(args: Seq<Expr>)
    ensures
        exprs_view(args).len() == args.len(),
        forall|k: int| 0 <= k < args.len() ==> exprs_view(args)[k] == expr_view(
            #[trigger] args[k],
        ),
    decreases args,
{
    if args.len() > 0 {
        lemma_exprs_view(args.drop_last());
        assert forall|k: int| 0 <= k < args.len() implies exprs_view(args)[k] == expr_view(
            #[trigger] args[k],
        ) by {
            if k < args.len() - 1 {
                assert(args.drop_last()[k] == args[k]);
            } else {
                assert(args[k] == args.last());
            }
        }
    }
}

/// Appending one expression appends its view.
pub proof fn lemma_exprs_view_push(s: Seq<Expr>, x: Expr)
    ensures
        exprs_view(s.push(x)) == exprs_view(s).push(expr_view(x)),
{
    assert(s.push(x).drop_last() =~= s);
    assert(s.push(x).last() == x);
}

impl OpExpr {
    /// A binary operator node over `left` and `right`, in that order.
    pub fn operator(op: Operator, left: Expr, right: Expr) -> (r: OpExpr)
        ensures
            r.op == op,
            r.args@ =~= seq![left, right],
    {
        OpExpr { op, args: vec![left, right] }
    }

    /// A unary node: a function call's or definition's single operand.
    pub fn function_op(op: Operator, args: Expr) -> (r: OpExpr)
        ensures
            r.op == op,
            r.args@ =~= seq![args],
    {
        OpExpr { op, args: vec![args] }
    }
}

// ---------------------------------------------------------------------------
// Literal conversion
// ---------------------------------------------------------------------------

/// Floating-point literal text: digits and at most one decimal point, with at
/// least one digit somewhere.
pub open spec fn valid_float_raw(s: Seq<char>) -> bool {
    &&& forall|k: int| 0 <= k < s.len() ==> is_digit(#[trigger] s[k]) || s[k] == '.'
    &&& exists|k: int| 0 <= k < s.len() && is_digit(#[trigger] s[k])
    &&& count_char(s, '.', s.len() as int) <= 1
}

fn check_float_raw(s: &str) -> (r: bool)
    ensures
        r == valid_float_raw(s@),
{
    let len = s.unicode_len();
    let mut dots: usize = 0;
    let mut saw_digit = false;
    let mut i: usize = 0;
    while i < len
        invariant
            len == s@.len(),
            0 <= i <= len,
            forall|k: int| 0 <= k < i ==> is_digit(#[trigger] s@[k]) || s@[k] == '.',
            saw_digit == exists|k: int| 0 <= k < i && is_digit(#[trigger] s@[k]),
            dots == count_char(s@, '.', i as int),
            dots <= i,
        decreases len - i,
    {
        let c = s.get_char(i);
        let cu = c as u32;
        if 0x30 <= cu && cu <= 0x39 {
            saw_digit = true;
        } else if c == '.' {
            dots = dots + 1;
        } else {
            assert(!(is_digit(s@[i as int]) || s@[i as int] == '.'));
            return false;
        }
        i = i + 1;
    }
    saw_digit && dots <= 1
}

/// View of a literal-conversion result at the specification level.
pub open spec fn lit_res_view(r: Result<Expr, ExprError>) -> Result<ExprV, ExprErrV> {
    match r {
        Ok(e) => Ok(e@),
        Err(x) => Err(x@),
    }
}

/// What converting a token to a literal yields: an integer-hinted numeric
/// token converts exactly when its text is all digits with a value fitting an
/// `i32`; a floating-point hinted one exactly when its text is digits with at
/// most one decimal point and at least one digit; a failure reports the text
/// that would not convert, and any other token is no literal at all.
pub open spec fn spec_new_literal(t: TokV) -> Result<ExprV, ExprErrV> {
    match t {
        TokV::Num { raw, hint } => {
            if hint == NumericType::Integer {
                if raw.len() > 0 && all_digits(raw) && digits_val(raw) <= i32::MAX {
                    Ok(ExprV::Lit(LitV::Integer(digits_val(raw) as i32)))
                } else {
                    Err(ExprErrV::FailedConversion { expected: "int"@, found: raw })
                }
            } else {
                if valid_float_raw(raw) {
                    Ok(ExprV::Lit(LitV::Float(raw)))
                } else {
                    Err(ExprErrV::FailedConversion { expected: "_._"@, found: raw })
                }
            }
        },
        _ => Err(ExprErrV::InvalidFirstElement),
    }
}

impl Expr {
    /// Wraps a literal in an expression leaf.
    pub open spec fn spec_literal(l: LitV) -> ExprV {
        ExprV::Lit(l)
    }

    /// Turns a numeric token into a literal expression leaf, exactly as
    /// `spec_new_literal` describes.
    pub fn new_literal(token: TokenType) -> (r: Result<Expr, ExprError>)
        ensures
            lit_res_view(r) == spec_new_literal(token@),
    {
        match token {
            TokenType::Numeric { raw, hint } => {
                match hint {
                    NumericType::Integer => {
                        match parse_decimal_i32(raw.as_str()) {
                            Some(number) => {
                                proof {
                                    crate::text::lemma_digits_val_nonneg(raw@);
                                }
                                Ok(Expr::OpLiteral(Box::new(Literal::Integer(number))))
                            },
                            None => Err(
                                ExprError::FailedConversion {
                                    expected: "int".to_owned(),
                                    found: raw,
                                },
                            ),
                        }
                    },
                    NumericType::FloatingPoint => {
                        if check_float_raw(raw.as_str()) {
                            Ok(Expr::OpLiteral(Box::new(Literal::FloatingPoint(raw))))
                        } else {
                            Err(
                                ExprError::FailedConversion {
                                    expected: "_._".to_owned(),
                                    found: raw,
                                },
                            )
                        }
                    },
                }
            },
            _ => Err(ExprError::InvalidFirstElement),
        }
    }
}

} // verus!
