//! Tokenizer for the language: turns a stream of characters into tokens,
//! tracking line/column positions and per-character bracket balancing depths.

use vstd::prelude::*;

use crate::text::chars_to_string;
use crate::text::is_digit;

verus! {

/// Kind hint carried by a numeric token: whether a decimal point was seen.
#[derive(Debug, PartialEq, Eq, Structural, Clone, Copy)]
pub enum NumericType {
    Integer,
    FloatingPoint,
}

/// Balancing depth recorded on open/close punctuation tokens.
pub type BalancingDepthType = i32;

/// Balancing role of a punctuation character: an open bracket (with the depth
/// before opening), a close bracket (with the depth after closing), or a
/// plain separator such as `,` or `;`.
#[derive(Debug, PartialEq, Eq, Structural, Clone, Copy)]
pub enum PunctuationKind {
    Open(BalancingDepthType),
    Close(BalancingDepthType),
    Seperator,
}

/// A lexical token.
#[derive(Debug, Clone)]
pub enum TokenType {
    /// End of input.
    EOF,
    /// End of line: the statement separator.
    EOL,
    /// Bracket or separator punctuation.
    Puncutation { raw: char, kind: PunctuationKind },
    /// A string literal's contents (delimiters removed, `\"` unescaped).
    String(String),
    /// An operator, one or two characters.
    Operators(String),
    /// A plain identifier.
    Identifier(String),
    /// A numeric literal's text (grouping `_` removed) and kind hint.
    Numeric { raw: String, hint: NumericType },
    /// A reserved keyword symbol.
    Symobl(String),
    /// A line comment (contents discarded).
    Comment,
}

pub type Token = TokenType;

/// Spec-level mirror of a token, with `Seq<char>` for text payloads.
pub enum TokV {
    EOF,
    EOL,
    Punct { raw: char, kind: PunctV },
    Str(Seq<char>),
    Op(Seq<char>),
    Ident(Seq<char>),
    Num { raw: Seq<char>, hint: NumericType },
    Sym(Seq<char>),
    Comment,
}

/// Spec-level mirror of `PunctuationKind` over mathematical integers.
pub enum PunctV {
    Open(int),
    Close(int),
    Sep,
}

impl View for PunctuationKind {
    type V = PunctV;

    open spec fn view(&self) -> PunctV {
        match *self {
            PunctuationKind::Open(d) => PunctV::Open(d as int),
            PunctuationKind::Close(d) => PunctV::Close(d as int),
            PunctuationKind::Seperator => PunctV::Sep,
        }
    }
}

impl View for TokenType {
    type V = TokV;

    open spec fn view(&self) -> TokV {
        match *self {
            TokenType::EOF => TokV::EOF,
            TokenType::EOL => TokV::EOL,
            TokenType::Puncutation { raw, kind } => TokV::Punct { raw, kind: kind@ },
            TokenType::String(ref s) => TokV::Str(s@),
            TokenType::Operators(ref s) => TokV::Op(s@),
            TokenType::Identifier(ref s) => TokV::Ident(s@),
            TokenType::Numeric { ref raw, hint } => TokV::Num { raw: raw@, hint },
            TokenType::Symobl(ref s) => TokV::Sym(s@),
            TokenType::Comment => TokV::Comment,
        }
    }
}

/// A lexical error.
#[derive(Debug)]
pub enum LexerError {
    /// A token other than the expected one was found.
    MissingExpectedSymbol { expected: TokenType, found: TokenType },
    /// A numeric literal ran into a character that no number may contain.
    NumericInvalid { raw: String },
    /// A close bracket whose matching open bracket is not currently open.
    MisbalancedBraces { symbol: char, open: char },
    /// A character that starts no token.
    UnknownSymbol { symbol: String },
    /// The input ended inside a token that needs more characters.
    UnexpectedEOF,
}

/// Spec-level mirror of `LexerError`.
pub enum ErrV {
    MissingExpected { expected: TokV, found: TokV },
    NumericInvalid { raw: Seq<char> },
    Misbalanced { symbol: char, open: char },
    Unknown { symbol: Seq<char> },
    UnexpectedEof,
}

impl View for LexerError {
    type V = ErrV;

    open spec fn view(&self) -> ErrV {
        match *self {
            LexerError::MissingExpectedSymbol { ref expected, ref found } =>
                ErrV::MissingExpected { expected: expected@, found: found@ },
            LexerError::NumericInvalid { ref raw } => ErrV::NumericInvalid { raw: raw@ },
            LexerError::MisbalancedBraces { symbol, open } =>
                ErrV::Misbalanced { symbol, open },
            LexerError::UnknownSymbol { ref symbol } => ErrV::Unknown { symbol: symbol@ },
            LexerError::UnexpectedEOF => ErrV::UnexpectedEof,
        }
    }
}

// ---------------------------------------------------------------------------
// Character classes
// ---------------------------------------------------------------------------

/// An ASCII letter.
pub open spec fn is_alpha(c: char) -> bool {
    0x41 <= c as u32 <= 0x5a || 0x61 <= c as u32 <= 0x7a
}

/// A character that may continue an identifier.
pub open spec fn is_ident_cont(c: char) -> bool {
    is_alpha(c) || is_digit(c) || c == '_'
}

/// Whitespace that the lexer skips: any whitespace character except newline,
/// which is a significant token of its own. The set is Unicode's
/// `White_Space` property, as `char::is_whitespace` has it.
pub open spec fn is_skippable_space(c: char) -> bool {
    ||| c == ' '
    ||| c == '\t'
    ||| c == '\r'
    ||| c == '\x0b'
    ||| c == '\x0c'
    ||| c == '\u{85}'
    ||| c == '\u{a0}'
    ||| c == '\u{1680}'
    ||| 0x2000 <= c as u32 <= 0x200a
    ||| c == '\u{2028}'
    ||| c == '\u{2029}'
    ||| c == '\u{202f}'
    ||| c == '\u{205f}'
    ||| c == '\u{3000}'
}

/// A character that starts an operator token.
pub open spec fn is_op_char(c: char) -> bool {
    c == '+' || c == '-' || c == '*' || c == '/' || c == '\\' || c == '%'
        || c == '=' || c == '|' || c == '&' || c == '<' || c == '>'
}

/// Whether `second` extends `first` into a two-character operator.
pub open spec fn op_combines(first: char, second: char) -> bool {
    ||| (second == '=' && (first == '+' || first == '-' || first == '=' || first == '>'
        || first == '<' || first == '%'))
    ||| (second == '|' && first == '|')
    ||| (second == '&' && first == '&')
    ||| (second == '+' && first == '+')
    ||| (second == '-' && first == '-')
}

/// An open bracket.
pub open spec fn is_open_char(c: char) -> bool {
    c == '(' || c == '[' || c == '{'
}

/// A close bracket.
pub open spec fn is_close_char(c: char) -> bool {
    c == ')' || c == ']' || c == '}'
}

/// The bracket character complementary to `c`.
pub open spec fn spec_map_balance(c: char) -> char {
    match c {
        '{' => '}',
        ')' => '(',
        '(' => ')',
        '}' => '{',
        '[' => ']',
        _ => '[',
    }
}

/// The reserved keyword symbols.
pub open spec fn is_keyword(s: Seq<char>) -> bool {
    ||| s == "false"@
    ||| s == "true"@
    ||| s == "proc"@
    ||| s == "if"@
    ||| s == "else"@
    ||| s == "loop"@
    ||| s == "break"@
    ||| s == "print"@
    ||| s == "input"@
}

// ---------------------------------------------------------------------------
// The scanner, at the specification level
// ---------------------------------------------------------------------------

/// Abstract lexer state: the input, the scanning position, and the current
/// open-bracket count for each bracket character.
pub struct LexSt {
    pub input: Seq<char>,
    pub pos: int,
    pub paren: int,
    pub square: int,
    pub curly: int,
}

/// The open count held for bracket character `c` (an open bracket).
pub open spec fn open_count(st: LexSt, c: char) -> int {
    if c == '(' {
        st.paren
    } else if c == '[' {
        st.square
    } else {
        st.curly
    }
}

/// `st` with the open count of bracket `c` replaced by `n`.
pub open spec fn with_count(st: LexSt, c: char, n: int) -> LexSt {
    if c == '(' {
        LexSt { paren: n, ..st }
    } else if c == '[' {
        LexSt { square: n, ..st }
    } else {
        LexSt { curly: n, ..st }
    }
}

/// First position at or after `i` whose character is not skippable
/// whitespace.
pub open spec fn ws_end(s: Seq<char>, i: int) -> int
    decreases s.len() - i,
{
    if 0 <= i < s.len() && is_skippable_space(s[i]) {
        ws_end(s, i + 1)
    } else {
        i
    }
}

/// Result of scanning a numeric literal's tail.
pub enum NumScan {
    Done { end: int, raw: Seq<char>, hint: NumericType },
    Fail { end: int, raw: Seq<char> },
}

/// Scans the tail of a numeric literal from position `i`, with `raw` the text
/// accumulated so far and `seen_dot` whether a decimal point was seen.
/// Digits accumulate; a grouping `_` is dropped; a second decimal point or a
/// letter adjacent to the number is consumed and fails the literal.
pub open spec fn scan_number(s: Seq<char>, i: int, raw: Seq<char>, seen_dot: bool) -> NumScan
    decreases s.len() - i,
{
    if !(0 <= i < s.len()) {
        NumScan::Done {
            end: i,
            raw,
            hint: if seen_dot { NumericType::FloatingPoint } else { NumericType::Integer },
        }
    } else {
        let c = s[i];
        if c == '.' && !seen_dot {
            scan_number(s, i + 1, raw.push(c), true)
        } else if c == '.' {
            NumScan::Fail { end: i + 1, raw: raw.push(c) }
        } else if is_digit(c) {
            scan_number(s, i + 1, raw.push(c), seen_dot)
        } else if c == '_' {
            scan_number(s, i + 1, raw, seen_dot)
        } else if is_alpha(c) {
            NumScan::Fail { end: i + 1, raw: raw.push(c) }
        } else {
            NumScan::Done {
                end: i,
                raw,
                hint: if seen_dot { NumericType::FloatingPoint } else { NumericType::Integer },
            }
        }
    }
}

/// Result of scanning a string literal's tail.
pub enum StrScan {
    Done { end: int, content: Seq<char> },
    Unterminated,
}

/// Scans the tail of a string literal delimited by `q` from position `i`:
/// characters accumulate until `q` recurs; a backslash immediately followed
/// by `"` contributes a literal quote; a backslash followed by anything else
/// is dropped; running out of input fails.
pub open spec fn scan_string(s: Seq<char>, i: int, q: char, acc: Seq<char>) -> StrScan
    decreases s.len() - i,
{
    if !(0 <= i < s.len()) {
        StrScan::Unterminated
    } else {
        let c = s[i];
        if c == q {
            StrScan::Done { end: i + 1, content: acc }
        } else if c == '\\' && i + 1 < s.len() && s[i + 1] == '"' {
            scan_string(s, i + 2, q, acc.push('"'))
        } else if c == '\\' {
            scan_string(s, i + 1, q, acc)
        } else {
            scan_string(s, i + 1, q, acc.push(c))
        }
    }
}

/// First position at or after `i` whose character is not an identifier
/// continuation.
pub open spec fn ident_end(s: Seq<char>, i: int) -> int
    decreases s.len() - i,
{
    if 0 <= i < s.len() && is_ident_cont(s[i]) {
        ident_end(s, i + 1)
    } else {
        i
    }
}

/// Position of the first newline at or after `i`, or the input's length:
/// a comment runs through, not including, that newline.
pub open spec fn comment_end(s: Seq<char>, i: int) -> int
    decreases s.len() - i,
{
    if 0 <= i < s.len() && s[i] != '\n' {
        comment_end(s, i + 1)
    } else {
        i
    }
}

/// Scans one token whose first character stands at `st.pos` (already past any
/// skippable whitespace). Yields the state after the token and the token or
/// lexical error.
pub open spec fn spec_scan_at(st: LexSt) -> (LexSt, Result<TokV, ErrV>) {
    let s = st.input;
    let j = st.pos;
    let c = s[j];
    let st1 = LexSt { pos: j + 1, ..st };
    if is_open_char(c) {
        let d = open_count(st, c);
        (with_count(st1, c, d + 1), Ok(TokV::Punct { raw: c, kind: PunctV::Open(d) }))
    } else if is_close_char(c) {
        let o = spec_map_balance(c);
        let d = open_count(st, o);
        if d >= 1 {
            (with_count(st1, o, d - 1), Ok(TokV::Punct { raw: c, kind: PunctV::Close(d - 1) }))
        } else {
            (st1, Err(ErrV::Misbalanced { symbol: c, open: o }))
        }
    } else if is_digit(c) || c == '.' {
        match scan_number(s, j + 1, seq![c], c == '.') {
            NumScan::Done { end, raw, hint } => (
                LexSt { pos: end, ..st },
                Ok(TokV::Num { raw, hint }),
            ),
            NumScan::Fail { end, raw } => (
                LexSt { pos: end, ..st },
                Err(ErrV::NumericInvalid { raw }),
            ),
        }
    } else if c == '"' || c == '\'' {
        match scan_string(s, j + 1, c, Seq::empty()) {
            StrScan::Done { end, content } => (
                LexSt { pos: end, ..st },
                Ok(TokV::Str(content)),
            ),
            StrScan::Unterminated => (
                LexSt { pos: s.len() as int, ..st },
                Err(ErrV::UnexpectedEof),
            ),
        }
    } else if is_op_char(c) {
        if j + 1 < s.len() && op_combines(c, s[j + 1]) {
            (LexSt { pos: j + 2, ..st }, Ok(TokV::Op(seq![c, s[j + 1]])))
        } else {
            (st1, Ok(TokV::Op(seq![c])))
        }
    } else if c == ',' || c == ';' {
        (st1, Ok(TokV::Punct { raw: c, kind: PunctV::Sep }))
    } else if c == '#' {
        (LexSt { pos: comment_end(s, j + 1), ..st }, Ok(TokV::Comment))
    } else if c == '\n' {
        (st1, Ok(TokV::EOL))
    } else if is_alpha(c) {
        let e = ident_end(s, j + 1);
        let raw = s.subrange(j, e);
        (
            LexSt { pos: e, ..st },
            Ok(if is_keyword(raw) { TokV::Sym(raw) } else { TokV::Ident(raw) }),
        )
    } else {
        (st1, Err(ErrV::Unknown { symbol: seq![c] }))
    }
}

/// Scans the next token from `st`: skips whitespace, yields end-of-input when
/// nothing is left, and otherwise scans one token.
pub open spec fn spec_next(st: LexSt) -> (LexSt, Result<TokV, ErrV>) {
    let j = ws_end(st.input, st.pos);
    if j >= st.input.len() {
        (LexSt { pos: st.input.len() as int, ..st }, Ok(TokV::EOF))
    } else {
        spec_scan_at(LexSt { pos: j, ..st })
    }
}

/// View of a token-or-error result at the specification level.
pub open spec fn res_view(r: Result<TokenType, LexerError>) -> Result<TokV, ErrV> {
    match r {
        Ok(t) => Ok(t@),
        Err(e) => Err(e@),
    }
}

// ---------------------------------------------------------------------------
// Line and column tracking
// ---------------------------------------------------------------------------

/// Number of newline characters among the first `p` characters.
pub open spec fn count_newlines(s: Seq<char>, p: int) -> int
    decreases p,
{
    if p <= 0 {
        0
    } else {
        count_newlines(s, p - 1) + if s[p - 1] == '\n' { 1int } else { 0int }
    }
}

/// Position just after the last newline among the first `p` characters, or 0.
pub open spec fn line_start(s: Seq<char>, p: int) -> int
    decreases p,
{
    if p <= 0 {
        0
    } else if s[p - 1] == '\n' {
        p
    } else {
        line_start(s, p - 1)
    }
}

pub proof fn lemma_count_newlines_bounds(s: Seq<char>, p: int)
    requires
        p >= 0,
    ensures
        0 <= count_newlines(s, p) <= p,
    decreases p,
{
    if p > 0 {
        lemma_count_newlines_bounds(s, p - 1);
    }
}

pub proof fn lemma_line_start_bounds(s: Seq<char>, p: int)
    requires
        p >= 0,
    ensures
        0 <= line_start(s, p) <= p,
    decreases p,
{
    if p > 0 {
        lemma_line_start_bounds(s, p - 1);
    }
}

// ---------------------------------------------------------------------------
// Bound lemmas on the scan functions
// ---------------------------------------------------------------------------

pub proof fn lemma_ws_end_bounds(s: Seq<char>, i: int)
    requires
        0 <= i <= s.len(),
    ensures
        i <= ws_end(s, i) <= s.len(),
    decreases s.len() - i,
{
    if i < s.len() && is_skippable_space(s[i]) {
        lemma_ws_end_bounds(s, i + 1);
    }
}

/// The position where whitespace skipping stops carries no further skippable
/// character.
pub proof fn lemma_ws_end_fix(s: Seq<char>, i: int)
    requires
        0 <= i <= s.len(),
    ensures
        !(ws_end(s, i) < s.len() && is_skippable_space(s[ws_end(s, i)])),
    decreases s.len() - i,
{
    if i < s.len() && is_skippable_space(s[i]) {
        lemma_ws_end_fix(s, i + 1);
    }
}

pub proof fn lemma_ident_end_bounds(s: Seq<char>, i: int)
    requires
        0 <= i <= s.len(),
    ensures
        i <= ident_end(s, i) <= s.len(),
    decreases s.len() - i,
{
    if i < s.len() && is_ident_cont(s[i]) {
        lemma_ident_end_bounds(s, i + 1);
    }
}

pub proof fn lemma_comment_end_bounds(s: Seq<char>, i: int)
    requires
        0 <= i <= s.len(),
    ensures
        i <= comment_end(s, i) <= s.len(),
    decreases s.len() - i,
{
    if i < s.len() && s[i] != '\n' {
        lemma_comment_end_bounds(s, i + 1);
    }
}

pub proof fn lemma_scan_number_bounds(s: Seq<char>, i: int, raw: Seq<char>, seen_dot: bool)
    requires
        0 <= i <= s.len(),
    ensures
        match scan_number(s, i, raw, seen_dot) {
            NumScan::Done { end, .. } => i <= end <= s.len(),
            NumScan::Fail { end, .. } => i < end <= s.len(),
        },
    decreases s.len() - i,
{
    if i < s.len() {
        let c = s[i];
        if c == '.' && !seen_dot {
            lemma_scan_number_bounds(s, i + 1, raw.push(c), true);
        } else if c == '.' {
        } else if is_digit(c) {
            lemma_scan_number_bounds(s, i + 1, raw.push(c), seen_dot);
        } else if c == '_' {
            lemma_scan_number_bounds(s, i + 1, raw, seen_dot);
        }
    }
}

pub proof fn lemma_scan_string_bounds(s: Seq<char>, i: int, q: char, acc: Seq<char>)
    requires
        0 <= i <= s.len(),
    ensures
        match scan_string(s, i, q, acc) {
            StrScan::Done { end, .. } => i < end <= s.len(),
            StrScan::Unterminated => true,
        },
    decreases s.len() - i,
{
    if i < s.len() {
        let c = s[i];
        if c == q {
        } else if c == '\\' && i + 1 < s.len() && s[i + 1] == '"' {
            lemma_scan_string_bounds(s, i + 2, q, acc.push('"'));
        } else if c == '\\' {
            lemma_scan_string_bounds(s, i + 1, q, acc);
        } else {
            lemma_scan_string_bounds(s, i + 1, q, acc.push(c));
        }
    }
}

// ---------------------------------------------------------------------------
// Executable character class tests
// ---------------------------------------------------------------------------

fn is_space_char(c: char) -> (r: bool)
    ensures
        r == is_skippable_space(c),
{
    let u = c as u32;
    c == ' ' || c == '\t' || c == '\r' || c == '\x0b' || c == '\x0c' || c == '\u{85}'
        || c == '\u{a0}' || c == '\u{1680}' || (0x2000 <= u && u <= 0x200a) || c == '\u{2028}'
        || c == '\u{2029}' || c == '\u{202f}' || c == '\u{205f}' || c == '\u{3000}'
}

fn is_digit_char(c: char) -> (r: bool)
    ensures
        r == is_digit(c),
{
    let u = c as u32;
    0x30 <= u && u <= 0x39
}

fn is_alpha_char(c: char) -> (r: bool)
    ensures
        r == is_alpha(c),
{
    let u = c as u32;
    (0x41 <= u && u <= 0x5a) || (0x61 <= u && u <= 0x7a)
}

fn is_ident_cont_char(c: char) -> (r: bool)
    ensures
        r == is_ident_cont(c),
{
    is_alpha_char(c) || is_digit_char(c) || c == '_'
}

fn is_op_start_char(c: char) -> (r: bool)
    ensures
        r == is_op_char(c),
{
    c == '+' || c == '-' || c == '*' || c == '/' || c == '\\' || c == '%' || c == '=' || c == '|'
        || c == '&' || c == '<' || c == '>'
}

fn op_combines_char(first: char, second: char) -> (r: bool)
    ensures
        r == op_combines(first, second),
{
    (second == '=' && (first == '+' || first == '-' || first == '=' || first == '>' || first == '<'
        || first == '%')) || (second == '|' && first == '|') || (second == '&' && first == '&')
        || (second == '+' && first == '+') || (second == '-' && first == '-')
}

fn is_open_bracket(c: char) -> (r: bool)
    ensures
        r == is_open_char(c),
{
    c == '(' || c == '[' || c == '{'
}

fn is_close_bracket(c: char) -> (r: bool)
    ensures
        r == is_close_char(c),
{
    c == ')' || c == ']' || c == '}'
}

// ---------------------------------------------------------------------------
// The lexer
// ---------------------------------------------------------------------------

/// The lexer: the input characters, the scanning position, per-bracket
/// balancing counters, and human-readable position information.
pub struct Lexer {
    /// Current line, for diagnostics (1-based).
    pub cur_line: usize,
    /// Current column, for diagnostics (1-based).
    pub cur_col: usize,
    /// Number of code points consumed so far.
    pub codepoint_offset: usize,
    /// The source text, one element per code point.
    pub input: Vec<char>,
    /// Index of the next character to consume.
    pub pos: usize,
    /// How many `(` are currently open.
    pub paren_depth: i32,
    /// How many `[` are currently open.
    pub square_depth: i32,
    /// How many `{` are currently open.
    pub curly_depth: i32,
}

impl View for Lexer {
    type V = LexSt;

    open spec fn view(&self) -> LexSt {
        LexSt {
            input: self.input@,
            pos: self.pos as int,
            paren: self.paren_depth as int,
            square: self.square_depth as int,
            curly: self.curly_depth as int,
        }
    }
}

/// Abstract-state well-formedness: the position is inside the input and each
/// balancing counter is a count of a subset of the consumed characters.
pub open spec fn wf_st(st: LexSt) -> bool {
    &&& st.input.len() <= 0x7fff_0000
    &&& 0 <= st.pos <= st.input.len()
    &&& 0 <= st.paren <= st.pos
    &&& 0 <= st.square <= st.pos
    &&& 0 <= st.curly <= st.pos
}

impl Lexer {
    /// Well-formedness: the abstract state is consistent and the diagnostic
    /// fields agree with the position.
    pub open spec fn wf(&self) -> bool {
        &&& wf_st(self@)
        &&& self.codepoint_offset == self@.pos
        &&& self.cur_line == count_newlines(self@.input, self@.pos) + 1
        &&& self.cur_col == self@.pos - line_start(self@.input, self@.pos) + 1
    }

    /// Creates a lexer over the given source text, at its beginning.
    ///
    /// The length bound leaves room for the bracket depth counters, which are
    /// 32-bit values recorded on punctuation tokens.
    #[verifier::loop_isolation(false)]
    pub fn new(chars: &str) -> (lx: Lexer)
        requires
            chars@.len() <= 0x7fff_0000,
        ensures
            lx.wf(),
            lx@.input == chars@,
            lx@.pos == 0,
            lx@.paren == 0,
            lx@.square == 0,
            lx@.curly == 0,
            lx.cur_line == 1,
            lx.cur_col == 1,
            lx.codepoint_offset == 0,
    {
        let len = chars.unicode_len();
        let mut input: Vec<char> = Vec::new();
        let mut i: usize = 0;
        while i < len
            invariant
                len == chars@.len(),
                0 <= i <= len,
                input@ =~= chars@.take(i as int),
            decreases len - i,
        {
            input.push(chars.get_char(i));
            i = i + 1;
        }
        proof {
            assert(input@ =~= chars@);
        }
        Lexer {
            cur_line: 1,
            cur_col: 1,
            codepoint_offset: 0,
            input,
            pos: 0,
            paren_depth: 0,
            square_depth: 0,
            curly_depth: 0,
        }
    }

    /// The next character, if any, without consuming it.
    fn peek_char(&self) -> (r: Option<char>)
        ensures
            match r {
                Some(c) => self@.pos < self@.input.len() && c == self@.input[self@.pos],
                None => self@.pos >= self@.input.len(),
            },
    {
        if self.pos < self.input.len() {
            Some(self.input[self.pos])
        } else {
            None
        }
    }

    /// Consumes one character, keeping the line, column and offset fields in
    /// step with the new position.
    pub fn consume_char(&mut self) -> (r: Option<char>)
        requires
            old(self).wf(),
        ensures
            final(self).wf(),
            final(self)@.input == old(self)@.input,
            final(self)@.paren == old(self)@.paren,
            final(self)@.square == old(self)@.square,
            final(self)@.curly == old(self)@.curly,
            old(self)@.pos < old(self)@.input.len() ==> {
                &&& r == Some(old(self)@.input[old(self)@.pos])
                &&& final(self)@.pos == old(self)@.pos + 1
            },
            old(self)@.pos >= old(self)@.input.len() ==> r is None && final(self)@.pos == old(
                self,
            )@.pos,
    {
        if self.pos < self.input.len() {
            let c = self.input[self.pos];
            proof {
                lemma_count_newlines_bounds(self@.input, self@.pos);
                lemma_line_start_bounds(self@.input, self@.pos);
            }
            self.pos = self.pos + 1;
            self.codepoint_offset = self.codepoint_offset + 1;
            if c == '\n' {
                self.cur_line = self.cur_line + 1;
                self.cur_col = 1;
            } else {
                self.cur_col = self.cur_col + 1;
            }
            Some(c)
        } else {
            None
        }
    }

    /// Skips whitespace other than newline.
    #[verifier::loop_isolation(false)]
    fn skip_whitespace(&mut self)
        requires
            old(self).wf(),
        ensures
            final(self).wf(),
            final(self)@.input == old(self)@.input,
            final(self)@.paren == old(self)@.paren,
            final(self)@.square == old(self)@.square,
            final(self)@.curly == old(self)@.curly,
            final(self)@.pos == ws_end(old(self)@.input, old(self)@.pos),
    {
        loop
            invariant
                self.wf(),
                self@.input == old(self)@.input,
                self@.paren == old(self)@.paren,
                self@.square == old(self)@.square,
                self@.curly == old(self)@.curly,
                ws_end(self@.input, self@.pos) == ws_end(old(self)@.input, old(self)@.pos),
            decreases self@.input.len() - self@.pos,
        {
            let pk = self.peek_char();
            match pk {
                Some(c) => {
                    if is_space_char(c) {
                        self.consume_char();
                    } else {
                        return ;
                    }
                },
                None => {
                    return ;
                },
            }
        }
    }

    /// Scans the tail of a numeric literal whose first character was `start`.
    #[verifier::loop_isolation(false)]
    fn match_number(&mut self, start: char) -> (r: Result<TokenType, LexerError>)
        requires
            old(self).wf(),
            is_digit(start) || start == '.',
        ensures
            final(self).wf(),
            final(self)@.input == old(self)@.input,
            final(self)@.paren == old(self)@.paren,
            final(self)@.square == old(self)@.square,
            final(self)@.curly == old(self)@.curly,
            ({
                let sc = scan_number(old(self)@.input, old(self)@.pos, seq![start], start == '.');
                match sc {
                    NumScan::Done { end, raw, hint } => final(self)@.pos == end && res_view(r)
                        == Ok::<TokV, ErrV>(TokV::Num { raw, hint }),
                    NumScan::Fail { end, raw } => final(self)@.pos == end && res_view(r)
                        == Err::<TokV, ErrV>(ErrV::NumericInvalid { raw }),
                }
            }),
    {
        let ghost s = old(self)@.input;
        let ghost p0 = old(self)@.pos;
        let ghost par0 = old(self)@.paren;
        let ghost sq0 = old(self)@.square;
        let ghost cu0 = old(self)@.curly;
        let mut nraw: Vec<char> = Vec::new();
        nraw.push(start);
        let mut seen_dot = start == '.';
        proof {
            assert(nraw@ =~= seq![start]);
        }
        loop
            invariant
                self.wf(),
                self@.input == s,
                self@.paren == par0,
                self@.square == sq0,
                self@.curly == cu0,
                p0 <= self@.pos <= s.len(),
                scan_number(s, self@.pos, nraw@, seen_dot) == scan_number(
                    s,
                    p0,
                    seq![start],
                    start == '.',
                ),
            decreases s.len() - self@.pos,
        {
            let pk = self.peek_char();
            match pk {
                Some(c) => {
                    if c == '.' && !seen_dot {
                        nraw.push(c);
                        self.consume_char();
                        seen_dot = true;
                    } else if c == '.' {
                        nraw.push(c);
                        self.consume_char();
                        return Err(LexerError::NumericInvalid { raw: chars_to_string(&nraw) });
                    } else if is_digit_char(c) {
                        nraw.push(c);
                        self.consume_char();
                    } else if c == '_' {
                        self.consume_char();
                    } else if is_alpha_char(c) {
                        nraw.push(c);
                        self.consume_char();
                        return Err(LexerError::NumericInvalid { raw: chars_to_string(&nraw) });
                    } else {
                        let hint = if seen_dot {
                            NumericType::FloatingPoint
                        } else {
                            NumericType::Integer
                        };
                        return Ok(TokenType::Numeric { raw: chars_to_string(&nraw), hint });
                    }
                },
                None => {
                    let hint = if seen_dot {
                        NumericType::FloatingPoint
                    } else {
                        NumericType::Integer
                    };
                    return Ok(TokenType::Numeric { raw: chars_to_string(&nraw), hint });
                },
            }
        }
    }

    /// Scans the tail of a string literal delimited by `start`.
    #[verifier::loop_isolation(false)]
    fn match_string(&mut self, start: char) -> (r: Result<TokenType, LexerError>)
        requires
            old(self).wf(),
            start == '"' || start == '\'',
        ensures
            final(self).wf(),
            final(self)@.input == old(self)@.input,
            final(self)@.paren == old(self)@.paren,
            final(self)@.square == old(self)@.square,
            final(self)@.curly == old(self)@.curly,
            ({
                let sc = scan_string(old(self)@.input, old(self)@.pos, start, Seq::empty());
                match sc {
                    StrScan::Done { end, content } => final(self)@.pos == end && res_view(r)
                        == Ok::<TokV, ErrV>(TokV::Str(content)),
                    StrScan::Unterminated => final(self)@.pos == old(self)@.input.len()
                        && res_view(r) == Err::<TokV, ErrV>(ErrV::UnexpectedEof),
                }
            }),
    {
        let ghost s = old(self)@.input;
        let ghost p0 = old(self)@.pos;
        let ghost par0 = old(self)@.paren;
        let ghost sq0 = old(self)@.square;
        let ghost cu0 = old(self)@.curly;
        let mut acc: Vec<char> = Vec::new();
        proof {
            assert(acc@ =~= Seq::<char>::empty());
        }
        loop
            invariant
                self.wf(),
                self@.input == s,
                self@.paren == par0,
                self@.square == sq0,
                self@.curly == cu0,
                p0 <= self@.pos <= s.len(),
                scan_string(s, self@.pos, start, acc@) == scan_string(s, p0, start, Seq::empty()),
            decreases s.len() - self@.pos,
        {
            let ck = self.consume_char();
            match ck {
                Some(c) => {
                    if c == start {
                        return Ok(TokenType::String(chars_to_string(&acc)));
                    } else if c == '\\' {
                        let pk = self.peek_char();
                        match pk {
                            Some(n) => {
                                if n == '"' {
                                    acc.push(n);
                                    self.consume_char();
                                }
                            },
                            None => {},
                        }
                    } else {
                        acc.push(c);
                    }
                },
                None => {
                    return Err(LexerError::UnexpectedEOF);
                },
            }
        }
    }

    /// Scans the tail of an identifier whose first character was `start`,
    /// then classifies it as a keyword symbol or a plain identifier.
    #[verifier::loop_isolation(false)]
    fn match_identifier(&mut self, start: char) -> (r: Result<TokenType, LexerError>)
        requires
            old(self).wf(),
            is_alpha(start),
        ensures
            final(self).wf(),
            final(self)@.input == old(self)@.input,
            final(self)@.paren == old(self)@.paren,
            final(self)@.square == old(self)@.square,
            final(self)@.curly == old(self)@.curly,
            final(self)@.pos == ident_end(old(self)@.input, old(self)@.pos),
            ({
                let raw = seq![start] + old(self)@.input.subrange(
                    old(self)@.pos,
                    ident_end(old(self)@.input, old(self)@.pos),
                );
                res_view(r) == Ok::<TokV, ErrV>(
                    if is_keyword(raw) {
                        TokV::Sym(raw)
                    } else {
                        TokV::Ident(raw)
                    },
                )
            }),
    {
        let ghost s = old(self)@.input;
        let ghost p0 = old(self)@.pos;
        let ghost par0 = old(self)@.paren;
        let ghost sq0 = old(self)@.square;
        let ghost cu0 = old(self)@.curly;
        let mut acc: Vec<char> = Vec::new();
        acc.push(start);
        proof {
            assert(acc@ =~= seq![start] + s.subrange(p0, p0));
        }
        loop
            invariant
                self.wf(),
                self@.input == s,
                self@.paren == par0,
                self@.square == sq0,
                self@.curly == cu0,
                p0 <= self@.pos <= s.len(),
                acc@ == seq![start] + s.subrange(p0, self@.pos),
                ident_end(s, self@.pos) == ident_end(s, p0),
            decreases s.len() - self@.pos,
        {
            let pk = self.peek_char();
            match pk {
                Some(c) => {
                    if is_ident_cont_char(c) {
                        acc.push(c);
                        self.consume_char();
                        proof {
                            assert(seq![start] + s.subrange(p0, self@.pos) =~= (seq![start]
                                + s.subrange(p0, self@.pos - 1)).push(c));
                        }
                    } else {
                        break ;
                    }
                },
                None => {
                    break ;
                },
            }
        }
        let word = chars_to_string(&acc);
        Ok(self.match_symbol(word))
    }

    /// Classifies accumulated identifier text: a reserved keyword becomes a
    /// keyword-symbol token, anything else a plain identifier token.
    fn match_symbol(&mut self, identifier: String) -> (t: TokenType)
        ensures
            t@ == if is_keyword(identifier@) {
                TokV::Sym(identifier@)
            } else {
                TokV::Ident(identifier@)
            },
            *final(self) == *old(self),
    {
        let is_kw = identifier == "false".to_owned() || identifier == "true".to_owned()
            || identifier == "proc".to_owned() || identifier == "if".to_owned() || identifier
            == "else".to_owned() || identifier == "loop".to_owned() || identifier
            == "break".to_owned() || identifier == "print".to_owned() || identifier
            == "input".to_owned();
        if is_kw {
            TokenType::Symobl(identifier)
        } else {
            TokenType::Identifier(identifier)
        }
    }

    /// Scans an operator starting with `start`, greedily extending it to a
    /// two-character compound when the next character combines with it.
    fn match_operator(&mut self, start: char) -> (r: Result<TokenType, LexerError>)
        requires
            old(self).wf(),
            is_op_char(start),
        ensures
            final(self).wf(),
            final(self)@.input == old(self)@.input,
            final(self)@.paren == old(self)@.paren,
            final(self)@.square == old(self)@.square,
            final(self)@.curly == old(self)@.curly,
            ({
                let s = old(self)@.input;
                let i = old(self)@.pos;
                if i < s.len() && op_combines(start, s[i]) {
                    final(self)@.pos == i + 1 && res_view(r) == Ok::<TokV, ErrV>(
                        TokV::Op(seq![start, s[i]]),
                    )
                } else {
                    final(self)@.pos == i && res_view(r) == Ok::<TokV, ErrV>(
                        TokV::Op(seq![start]),
                    )
                }
            }),
    {
        let mut ops: Vec<char> = Vec::new();
        ops.push(start);
        proof {
            assert(ops@ =~= seq![start]);
        }
        let pk = self.peek_char();
        match pk {
            Some(c) => {
                if op_combines_char(start, c) {
                    ops.push(c);
                    self.consume_char();
                    proof {
                        assert(ops@ =~= seq![start, c]);
                    }
                }
            },
            None => {},
        }
        Ok(TokenType::Operators(chars_to_string(&ops)))
    }

    /// The bracket character complementary to `c`.
    fn map_balance(c: &char) -> (r: char)
        requires
            is_open_char(*c) || is_close_char(*c),
        ensures
            r == spec_map_balance(*c),
    {
        if *c == '{' {
            '}'
        } else if *c == ')' {
            '('
        } else if *c == '(' {
            ')'
        } else if *c == '}' {
            '{'
        } else if *c == '[' {
            ']'
        } else {
            '['
        }
    }

    /// Records the opening of bracket `c` and yields the depth before it.
    fn push_symbol(&mut self, c: &char) -> (d: BalancingDepthType)
        requires
            old(self).wf(),
            is_open_char(*c),
            open_count(old(self)@, *c) < old(self)@.pos,
        ensures
            final(self).wf(),
            final(self)@ == with_count(old(self)@, *c, open_count(old(self)@, *c) + 1),
            d as int == open_count(old(self)@, *c),
            final(self).cur_line == old(self).cur_line,
            final(self).cur_col == old(self).cur_col,
            final(self).codepoint_offset == old(self).codepoint_offset,
    {
        if *c == '(' {
            let d = self.paren_depth;
            self.paren_depth = d + 1;
            d
        } else if *c == '[' {
            let d = self.square_depth;
            self.square_depth = d + 1;
            d
        } else {
            let d = self.curly_depth;
            self.curly_depth = d + 1;
            d
        }
    }

    /// Records the closing bracket `c`: when its complementary open bracket
    /// is open, the count falls by one and the depth after closing comes
    /// back; otherwise the brackets are misbalanced.
    fn pop_symbol(&mut self, c: &char) -> (r: Result<BalancingDepthType, LexerError>)
        requires
            old(self).wf(),
            is_close_char(*c),
        ensures
            final(self).wf(),
            final(self).cur_line == old(self).cur_line,
            final(self).cur_col == old(self).cur_col,
            final(self).codepoint_offset == old(self).codepoint_offset,
            ({
                let o = spec_map_balance(*c);
                let d = open_count(old(self)@, o);
                if d >= 1 {
                    &&& final(self)@ == with_count(old(self)@, o, d - 1)
                    &&& match r {
                        Ok(v) => v as int == d - 1,
                        Err(_) => false,
                    }
                } else {
                    &&& final(self)@ == old(self)@
                    &&& match r {
                        Ok(_) => false,
                        Err(e) => e@ == ErrV::Misbalanced { symbol: *c, open: o },
                    }
                }
            }),
    {
        let o = Lexer::map_balance(c);
        if o == '(' {
            if self.paren_depth >= 1 {
                self.paren_depth = self.paren_depth - 1;
                Ok(self.paren_depth)
            } else {
                Err(LexerError::MisbalancedBraces { symbol: *c, open: o })
            }
        } else if o == '[' {
            if self.square_depth >= 1 {
                self.square_depth = self.square_depth - 1;
                Ok(self.square_depth)
            } else {
                Err(LexerError::MisbalancedBraces { symbol: *c, open: o })
            }
        } else {
            if self.curly_depth >= 1 {
                self.curly_depth = self.curly_depth - 1;
                Ok(self.curly_depth)
            } else {
                Err(LexerError::MisbalancedBraces { symbol: *c, open: o })
            }
        }
    }

    /// Turns the just-consumed character `c` into the token it begins.
    #[verifier::loop_isolation(false)]
    fn transform_to_type(&mut self, c: char) -> (r: Result<TokenType, LexerError>)
        requires
            old(self).wf(),
            1 <= old(self)@.pos,
            old(self)@.input[old(self)@.pos - 1] == c,
            !is_skippable_space(c),
            open_count(old(self)@, '(') <= old(self)@.pos - 1,
            open_count(old(self)@, '[') <= old(self)@.pos - 1,
            open_count(old(self)@, '{') <= old(self)@.pos - 1,
        ensures
            final(self).wf(),
            ({
                let r2 = spec_scan_at(LexSt { pos: old(self)@.pos - 1, ..old(self)@ });
                final(self)@ == r2.0 && res_view(r) == r2.1
            }),
    {
        let ghost st0 = LexSt { pos: old(self)@.pos - 1, ..old(self)@ };
        if is_open_bracket(c) {
            let d = self.push_symbol(&c);
            Ok(TokenType::Puncutation { raw: c, kind: PunctuationKind::Open(d) })
        } else if is_close_bracket(c) {
            match self.pop_symbol(&c) {
                Ok(d) => Ok(TokenType::Puncutation { raw: c, kind: PunctuationKind::Close(d) }),
                Err(e) => Err(e),
            }
        } else if is_digit_char(c) || c == '.' {
            self.match_number(c)
        } else if c == '"' || c == '\'' {
            self.match_string(c)
        } else if is_op_start_char(c) {
            self.match_operator(c)
        } else if c == ',' || c == ';' {
            Ok(TokenType::Puncutation { raw: c, kind: PunctuationKind::Seperator })
        } else if c == '#' {
            let ghost s = old(self)@.input;
            let ghost p0 = old(self)@.pos;
            loop
                invariant
                    self.wf(),
                    self@.input == s,
                    self@.paren == old(self)@.paren,
                    self@.square == old(self)@.square,
                    self@.curly == old(self)@.curly,
                    p0 <= self@.pos <= s.len(),
                    comment_end(s, self@.pos) == comment_end(s, p0),
                decreases s.len() - self@.pos,
            {
                let pk = self.peek_char();
                match pk {
                    Some(n) => {
                        if n == '\n' {
                            break ;
                        } else {
                            self.consume_char();
                        }
                    },
                    None => {
                        break ;
                    },
                }
            }
            Ok(TokenType::Comment)
        } else if c == '\n' {
            Ok(TokenType::EOL)
        } else if is_alpha_char(c) {
            proof {
                let s = old(self)@.input;
                let j = old(self)@.pos - 1;
                lemma_ident_end_bounds(s, j + 1);
                assert(s.subrange(j, ident_end(s, j + 1)) =~= seq![c] + s.subrange(
                    j + 1,
                    ident_end(s, j + 1),
                ));
            }
            self.match_identifier(c)
        } else {
            let mut sv: Vec<char> = Vec::new();
            sv.push(c);
            proof {
                assert(sv@ =~= seq![c]);
            }
            Err(LexerError::UnknownSymbol { symbol: chars_to_string(&sv) })
        }
    }

    /// Scans and consumes the next token: skips whitespace, yields
    /// end-of-input when nothing is left, and otherwise scans one token,
    /// exactly as `spec_next` describes.
    pub fn next_token(&mut self) -> (r: Result<TokenType, LexerError>)
        requires
            old(self).wf(),
        ensures
            final(self).wf(),
            final(self)@ == spec_next(old(self)@).0,
            res_view(r) == spec_next(old(self)@).1,
            final(self)@.input == old(self)@.input,
    {
        proof {
            lemma_ws_end_bounds(old(self)@.input, old(self)@.pos);
            lemma_ws_end_fix(old(self)@.input, old(self)@.pos);
        }
        self.skip_whitespace();
        let ck = self.consume_char();
        match ck {
            Some(c) => self.transform_to_type(c),
            None => Ok(TokenType::EOF),
        }
    }

    /// Scans the next token without committing anything: the position, the
    /// diagnostic fields and the balancing counters all stay as they were.
    pub fn peek_next_token(&mut self) -> (r: Result<TokenType, LexerError>)
        requires
            old(self).wf(),
        ensures
            final(self).wf(),
            final(self)@ == old(self)@,
            final(self).cur_line == old(self).cur_line,
            final(self).cur_col == old(self).cur_col,
            final(self).codepoint_offset == old(self).codepoint_offset,
            res_view(r) == spec_next(old(self)@).1,
    {
        let cur_col = self.cur_col;
        let cur_line = self.cur_line;
        let codepoint_offset = self.codepoint_offset;
        let pos = self.pos;
        let paren_depth = self.paren_depth;
        let square_depth = self.square_depth;
        let curly_depth = self.curly_depth;
        let r = self.next_token();
        self.cur_col = cur_col;
        self.cur_line = cur_line;
        self.codepoint_offset = codepoint_offset;
        self.pos = pos;
        self.paren_depth = paren_depth;
        self.square_depth = square_depth;
        self.curly_depth = curly_depth;
        r
    }
}

// ---------------------------------------------------------------------------
// Whole-input scanning and the bracket balancing law
// ---------------------------------------------------------------------------

/// How often character `c` occurs among the first `p` characters of `s`.
pub open spec fn count_char(s: Seq<char>, c: char, p: int) -> int
    decreases p,
{
    if p <= 0 {
        0
    } else {
        count_char(s, c, p - 1) + if s[p - 1] == c { 1int } else { 0int }
    }
}

/// Every character of `s` is a bracket.
pub open spec fn all_brackets(s: Seq<char>) -> bool {
    forall|k: int| 0 <= k < s.len() ==> is_open_char(#[trigger] s[k]) || is_close_char(s[k])
}

/// Among the first `p` characters, no bracket kind has more closers than
/// openers.
pub open spec fn closes_ok_at(s: Seq<char>, p: int) -> bool {
    &&& count_char(s, ')', p) <= count_char(s, '(', p)
    &&& count_char(s, ']', p) <= count_char(s, '[', p)
    &&& count_char(s, '}', p) <= count_char(s, '{', p)
}

/// `closes_ok_at` holds of every prefix of length at most `n`.
pub open spec fn closes_ok_upto(s: Seq<char>, n: int) -> bool {
    forall|p: int| 0 <= p <= n ==> #[trigger] closes_ok_at(s, p)
}

/// Every prefix of `s` has, for each bracket kind, no more closers than
/// openers: the property under which per-kind balancing succeeds.
pub open spec fn brackets_balanced_prefixes(s: Seq<char>) -> bool {
    closes_ok_upto(s, s.len() as int)
}

/// Position of the first character whose consumption breaks `closes_ok_at`,
/// starting the search at `p`; the length when none does.
pub open spec fn first_bad_from(s: Seq<char>, p: int) -> int
    decreases s.len() - p,
{
    if !(0 <= p < s.len()) {
        s.len() as int
    } else if !closes_ok_at(s, p + 1) {
        p
    } else {
        first_bad_from(s, p + 1)
    }
}

/// Position of the unmatched closer that balancing first stumbles over.
pub open spec fn first_bad(s: Seq<char>) -> int {
    first_bad_from(s, 0)
}

/// Properly nested and closed: empty, or an open bracket, a properly nested
/// body, the matching close bracket, and a properly nested rest.
pub open spec fn well_nested(s: Seq<char>) -> bool
    decreases s.len(),
{
    if s.len() == 0 {
        true
    } else {
        exists|k: int|
            {
                &&& 1 <= k < s.len()
                &&& is_open_char(s[0])
                &&& #[trigger] s[k] == spec_map_balance(s[0])
                &&& well_nested(s.subrange(1, k))
                &&& well_nested(s.subrange(k + 1, s.len() as int))
            }
    }
}

/// Per bracket kind, `s` holds as many openers as closers in all.
pub open spec fn counts_balanced(s: Seq<char>) -> bool {
    &&& count_char(s, '(', s.len() as int) == count_char(s, ')', s.len() as int)
    &&& count_char(s, '[', s.len() as int) == count_char(s, ']', s.len() as int)
    &&& count_char(s, '{', s.len() as int) == count_char(s, '}', s.len() as int)
}

/// Counting within a subrange is counting within the enclosing sequence.
pub proof fn lemma_count_subrange(s: Seq<char>, c: char, a: int, b: int, p: int)
    requires
        0 <= a <= b <= s.len(),
        0 <= p <= b - a,
    ensures
        count_char(s.subrange(a, b), c, p) == count_char(s, c, a + p) - count_char(s, c, a),
    decreases p,
{
    if p > 0 {
        lemma_count_subrange(s, c, a, b, p - 1);
        assert(s.subrange(a, b)[p - 1] == s[a + p - 1]);
    }
}

/// The law of bracket balancing: every properly nested and closed bracket
/// sequence satisfies, in each of its prefixes and for each bracket kind, the
/// condition under which whole-input scanning succeeds (no prefix closes a
/// kind more often than it opens it), and closes in all exactly what it
/// opens.
pub proof fn lemma_well_nested_balanced(s: Seq<char>)
    requires
        well_nested(s),
    ensures
        brackets_balanced_prefixes(s),
        counts_balanced(s),
    decreases s.len(),
{
    if s.len() == 0 {
        assert forall|p: int| 0 <= p <= s.len() implies #[trigger] closes_ok_at(s, p) by {}
    } else {
        let n = s.len() as int;
        let k = choose|k: int|
            {
                &&& 1 <= k < s.len()
                &&& is_open_char(s[0])
                &&& #[trigger] s[k] == spec_map_balance(s[0])
                &&& well_nested(s.subrange(1, k))
                &&& well_nested(s.subrange(k + 1, s.len() as int))
            };
        let a = s.subrange(1, k);
        let b = s.subrange(k + 1, n);
        lemma_well_nested_balanced(a);
        lemma_well_nested_balanced(b);
        assert forall|p: int, c: char| 1 <= p <= k implies #[trigger] count_char(s, c, p)
            == count_char(a, c, p - 1) + (if s[0] == c {
            1int
        } else {
            0int
        }) by {
            lemma_count_subrange(s, c, 1, k, p - 1);
            assert(count_char(s, c, 1) == count_char(s, c, 0) + (if s[0] == c {
                1int
            } else {
                0int
            }));
        }
        assert forall|c: char| true implies #[trigger] count_char(s, c, k + 1) == count_char(
            a,
            c,
            k - 1,
        ) + (if s[0] == c {
            1int
        } else {
            0int
        }) + (if s[k] == c {
            1int
        } else {
            0int
        }) by {
            assert(count_char(s, c, k) == count_char(a, c, k - 1) + (if s[0] == c {
                1int
            } else {
                0int
            }));
        }
        assert forall|p: int, c: char| k + 1 <= p <= n implies #[trigger] count_char(s, c, p)
            == count_char(s, c, k + 1) + count_char(b, c, p - (k + 1)) by {
            lemma_count_subrange(s, c, k + 1, n, p - (k + 1));
        }
        assert(count_char(s, '(', k + 1) == count_char(s, ')', k + 1));
        assert(count_char(s, '[', k + 1) == count_char(s, ']', k + 1));
        assert(count_char(s, '{', k + 1) == count_char(s, '}', k + 1));
        assert forall|p: int| 0 <= p <= n implies #[trigger] closes_ok_at(s, p) by {
            if p == 0 {
            } else if p <= k {
                assert(closes_ok_at(a, p - 1));
            } else {
                assert(closes_ok_at(b, p - (k + 1)));
            }
        }
    }
}

pub proof fn lemma_first_bad_is(s: Seq<char>, n: int, p: int)
    requires
        0 <= p <= n < s.len(),
        closes_ok_upto(s, n),
        !closes_ok_at(s, n + 1),
    ensures
        first_bad_from(s, p) == n,
    decreases n - p,
{
    if p < n {
        assert(closes_ok_at(s, p + 1));
        lemma_first_bad_is(s, n, p + 1);
    }
}

/// `spec_next` never moves backwards; a token other than end-of-input
/// strictly advances the position, and end-of-input stands exactly at the
/// input's end.
pub proof fn lemma_spec_next_advance(st: LexSt)
    requires
        wf_st(st),
    ensures
        ({
            let r2 = spec_next(st);
            &&& st.pos <= r2.0.pos <= st.input.len()
            &&& r2.0.input == st.input
            &&& (r2.1 == Ok::<TokV, ErrV>(TokV::EOF) ==> r2.0.pos == st.input.len())
            &&& (r2.1 != Ok::<TokV, ErrV>(TokV::EOF) ==> r2.0.pos > st.pos)
        }),
{
    let s = st.input;
    let j = ws_end(s, st.pos);
    lemma_ws_end_bounds(s, st.pos);
    if j < s.len() {
        let c = s[j];
        if is_open_char(c) || is_close_char(c) {
        } else if is_digit(c) || c == '.' {
            lemma_scan_number_bounds(s, j + 1, seq![c], c == '.');
        } else if c == '"' || c == '\'' {
            lemma_scan_string_bounds(s, j + 1, c, Seq::empty());
        } else if is_op_char(c) {
        } else if c == ',' || c == ';' {
        } else if c == '#' {
            lemma_comment_end_bounds(s, j + 1);
        } else if c == '\n' {
        } else if is_alpha(c) {
            lemma_ident_end_bounds(s, j + 1);
        }
    }
}

/// `spec_next` preserves abstract-state well-formedness.
pub proof fn lemma_spec_next_wf(st: LexSt)
    requires
        wf_st(st),
    ensures
        wf_st(spec_next(st).0),
{
    let s = st.input;
    let j = ws_end(s, st.pos);
    lemma_ws_end_bounds(s, st.pos);
    if j < s.len() {
        let c = s[j];
        if is_open_char(c) || is_close_char(c) {
        } else if is_digit(c) || c == '.' {
            lemma_scan_number_bounds(s, j + 1, seq![c], c == '.');
        } else if c == '"' || c == '\'' {
            lemma_scan_string_bounds(s, j + 1, c, Seq::empty());
        } else if is_op_char(c) {
        } else if c == ',' || c == ';' {
        } else if c == '#' {
            lemma_comment_end_bounds(s, j + 1);
        } else if c == '\n' {
        } else if is_alpha(c) {
            lemma_ident_end_bounds(s, j + 1);
        }
    }
}

impl Lexer {
    /// Scans the whole remaining input, collecting every token before
    /// end-of-input.
    ///
    /// Over an input consisting of brackets alone, started fresh, this
    /// settles bracket balancing: scanning succeeds exactly when no prefix
    /// closes a bracket kind more often than it opens it (so every properly
    /// nested and closed sequence succeeds), and otherwise the error names
    /// the first unmatched closer together with its required opener.
    #[verifier::loop_isolation(false)]
    pub fn tokenize(&mut self) -> (r: Result<Vec<TokenType>, LexerError>)
        requires
            old(self).wf(),
        ensures
            final(self).wf(),
            r is Ok ==> final(self)@.pos == old(self)@.input.len(),
            ({
                let s = old(self)@.input;
                (old(self)@.pos == 0 && old(self)@.paren == 0 && old(self)@.square == 0 && old(
                    self,
                )@.curly == 0 && all_brackets(s)) ==> {
                    &&& (r is Ok <==> brackets_balanced_prefixes(s))
                    &&& match r {
                        Ok(_) => true,
                        Err(e) => {
                            let b = first_bad(s);
                            &&& 0 <= b < s.len()
                            &&& e@ == ErrV::Misbalanced {
                                symbol: s[b],
                                open: spec_map_balance(s[b]),
                            }
                        },
                    }
                }
            }),
    {
        let ghost s = old(self)@.input;
        let ghost cond = old(self)@.pos == 0 && old(self)@.paren == 0 && old(self)@.square == 0
            && old(self)@.curly == 0 && all_brackets(s);
        let mut toks: Vec<TokenType> = Vec::new();
        loop
            invariant
                self.wf(),
                self@.input == s,
                cond ==> {
                    &&& self@.paren == count_char(s, '(', self@.pos) - count_char(s, ')', self@.pos)
                    &&& self@.square == count_char(s, '[', self@.pos) - count_char(
                        s,
                        ']',
                        self@.pos,
                    )
                    &&& self@.curly == count_char(s, '{', self@.pos) - count_char(s, '}', self@.pos)
                    &&& closes_ok_upto(s, self@.pos)
                },
            decreases s.len() - self@.pos,
        {
            let ghost stb = self@;
            proof {
                lemma_spec_next_advance(stb);
            }
            let tk = self.next_token();
            match tk {
                Ok(t) => {
                    match t {
                        TokenType::EOF => {
                            return Ok(toks);
                        },
                        _ => {
                            proof {
                                if cond {
                                    assert forall|p: int| 0 <= p <= self@.pos implies
                                        #[trigger] closes_ok_at(s, p) by {
                                        if p <= stb.pos {
                                            assert(closes_ok_at(s, p));
                                        } else {
                                            assert(p == stb.pos + 1);
                                        }
                                    }
                                }
                            }
                            toks.push(t);
                        },
                    }
                },
                Err(e) => {
                    proof {
                        if cond {
                            let b = stb.pos;
                            assert(!closes_ok_at(s, b + 1));
                            lemma_first_bad_is(s, b, 0);
                            assert(!brackets_balanced_prefixes(s)) by {
                                assert(!closes_ok_at(s, b + 1));
                            }
                        }
                    }
                    return Err(e);
                },
            }
        }
    }
}

// ---------------------------------------------------------------------------
// Laws of the scanner
// ---------------------------------------------------------------------------

/// Characters between an identifier's start and its end all continue an
/// identifier.
pub proof fn lemma_ident_end_chars(s: Seq<char>, i: int)
    requires
        0 <= i <= s.len(),
    ensures
        forall|k: int| i <= k < ident_end(s, i) ==> is_ident_cont(#[trigger] s[k]),
    decreases s.len() - i,
{
    if i < s.len() && is_ident_cont(s[i]) {
        lemma_ident_end_chars(s, i + 1);
    }
}

/// Classification of words: a scanned word is a keyword-symbol token exactly
/// when its text is one of the reserved words; any other word of shape
/// letter-then-letters/digits/underscores is a plain identifier token.
pub proof fn lemma_identifier_classification(st: LexSt)
    requires
        wf_st(st),
    ensures
        match spec_next(st).1 {
            Ok(TokV::Sym(t)) => is_keyword(t),
            Ok(TokV::Ident(t)) => {
                &&& !is_keyword(t)
                &&& t.len() >= 1
                &&& is_alpha(t[0])
                &&& forall|k: int| 0 <= k < t.len() ==> is_ident_cont(#[trigger] t[k])
            },
            _ => true,
        },
{
    let s = st.input;
    let j = ws_end(s, st.pos);
    lemma_ws_end_bounds(s, st.pos);
    if j < s.len() {
        let c = s[j];
        if !(is_open_char(c) || is_close_char(c) || is_digit(c) || c == '.' || c == '"' || c
            == '\'' || is_op_char(c) || c == ',' || c == ';' || c == '#' || c == '\n') && is_alpha(
            c,
        ) {
            let e = ident_end(s, j + 1);
            lemma_ident_end_bounds(s, j + 1);
            lemma_ident_end_chars(s, j + 1);
            let t = s.subrange(j, e);
            assert(t[0] == s[j]);
            assert(forall|k: int| 0 <= k < t.len() ==> is_ident_cont(#[trigger] t[k])) by {
                assert(forall|k: int| 1 <= k < t.len() ==> t[k] == s[j + k]
                    && is_ident_cont(#[trigger] t[k]));
            }
        }
    }
}

/// Operators use maximal munch: a scanned operator is one or two characters;
/// a two-character operator is a combining pair, and after a one-character
/// operator the next character never combines with it, so a compound such as
/// `==`, `>=`, `||` or `&&` is never split into two single-character tokens.
pub proof fn lemma_operator_maximal_munch(st: LexSt)
    requires
        wf_st(st),
    ensures
        ({
            let r2 = spec_next(st);
            match r2.1 {
                Ok(TokV::Op(t)) => {
                    &&& 1 <= t.len() <= 2
                    &&& is_op_char(t[0])
                    &&& (t.len() == 2 ==> op_combines(t[0], t[1]))
                    &&& (t.len() == 1 ==> r2.0.pos >= st.input.len() || !op_combines(
                        t[0],
                        st.input[r2.0.pos],
                    ))
                },
                _ => true,
            }
        }),
{
    lemma_ws_end_bounds(st.input, st.pos);
}

/// A numeric token's text: nonempty, digits and at most one decimal point,
/// whose presence is exactly what the floating-point hint records.
pub open spec fn num_raw_wf(raw: Seq<char>, hint: NumericType) -> bool {
    &&& raw.len() >= 1
    &&& forall|k: int| 0 <= k < raw.len() ==> is_digit(#[trigger] raw[k]) || raw[k] == '.'
    &&& ((hint == NumericType::FloatingPoint) <==> exists|k: int|
        0 <= k < raw.len() && #[trigger] raw[k] == '.')
    &&& forall|k1: int, k2: int|
        0 <= k1 < raw.len() && 0 <= k2 < raw.len() && #[trigger] raw[k1] == '.'
            && #[trigger] raw[k2] == '.' ==> k1 == k2
}

pub proof fn lemma_scan_number_shape(s: Seq<char>, i: int, raw: Seq<char>, seen_dot: bool)
    requires
        0 <= i <= s.len(),
        raw.len() >= 1,
        forall|k: int| 0 <= k < raw.len() ==> is_digit(#[trigger] raw[k]) || raw[k] == '.',
        seen_dot <==> exists|k: int| 0 <= k < raw.len() && #[trigger] raw[k] == '.',
        forall|k1: int, k2: int|
            0 <= k1 < raw.len() && 0 <= k2 < raw.len() && #[trigger] raw[k1] == '.'
                && #[trigger] raw[k2] == '.' ==> k1 == k2,
    ensures
        match scan_number(s, i, raw, seen_dot) {
            NumScan::Done { raw: raw2, hint, .. } => num_raw_wf(raw2, hint),
            NumScan::Fail { .. } => true,
        },
    decreases s.len() - i,
{
    if i < s.len() {
        let c = s[i];
        if c == '.' && !seen_dot {
            let r2 = raw.push(c);
            assert(r2[raw.len() as int] == '.');
            lemma_scan_number_shape(s, i + 1, r2, true);
        } else if c == '.' {
        } else if is_digit(c) {
            let r2 = raw.push(c);
            assert(seen_dot <==> exists|k: int| 0 <= k < r2.len() && #[trigger] r2[k] == '.') by {
                if seen_dot {
                    let k = choose|k: int| 0 <= k < raw.len() && #[trigger] raw[k] == '.';
                    assert(r2[k] == '.');
                }
                if exists|k: int| 0 <= k < r2.len() && #[trigger] r2[k] == '.' {
                    let k = choose|k: int| 0 <= k < r2.len() && #[trigger] r2[k] == '.';
                    assert(!is_digit('.')) by {
                        assert('.' as u32 == 0x2e);
                    }
                    assert(k < raw.len());
                    assert(raw[k] == '.');
                }
            }
            lemma_scan_number_shape(s, i + 1, r2, seen_dot);
        } else if c == '_' {
            lemma_scan_number_shape(s, i + 1, raw, seen_dot);
        }
    }
}

/// A numeric token produced by the scanner is well-shaped: its text is
/// nonempty, holds digits and at most one decimal point, and its kind hint is
/// floating-point exactly when a decimal point occurs in it.
pub proof fn lemma_numeric_token_shape(st: LexSt)
    requires
        wf_st(st),
    ensures
        match spec_next(st).1 {
            Ok(TokV::Num { raw, hint }) => num_raw_wf(raw, hint),
            _ => true,
        },
{
    let s = st.input;
    let j = ws_end(s, st.pos);
    lemma_ws_end_bounds(s, st.pos);
    if j < s.len() {
        let c = s[j];
        if !(is_open_char(c) || is_close_char(c)) && (is_digit(c) || c == '.') {
            let raw0 = seq![c];
            assert(raw0[0] == c);
            assert((c == '.') <==> exists|k: int| 0 <= k < raw0.len() && #[trigger] raw0[k]
                == '.') by {
                if c == '.' {
                    assert(raw0[0] == '.');
                } else {
                    assert(!is_digit('.')) by {
                        assert('.' as u32 == 0x2e);
                    }
                }
            }
            lemma_scan_number_shape(s, j + 1, raw0, c == '.');
        }
    }
}

/// Characters of a comment, from the `#` up to its end, are never newlines,
/// and the comment stops exactly before a newline (or at the input's end):
/// the tokens after it are scanned from that point, untouched by the
/// comment's contents.
pub proof fn lemma_comment_end_chars(s: Seq<char>, i: int)
    requires
        0 <= i <= s.len(),
    ensures
        forall|k: int| i <= k < comment_end(s, i) ==> #[trigger] s[k] != '\n',
        comment_end(s, i) < s.len() ==> s[comment_end(s, i)] == '\n',
    decreases s.len() - i,
{
    if i < s.len() && s[i] != '\n' {
        lemma_comment_end_chars(s, i + 1);
    }
}

/// A `#` opens a comment token that ends before the following newline: the
/// next scan resumes exactly at that newline (or at the end of the input),
/// so the tokens after the comment do not depend on the comment's contents.
pub proof fn lemma_comment_token(st: LexSt)
    requires
        wf_st(st),
        ({
            let j = ws_end(st.input, st.pos);
            j < st.input.len() && st.input[j] == '#'
        }),
    ensures
        ({
            let r2 = spec_next(st);
            let j = ws_end(st.input, st.pos);
            &&& r2.1 == Ok::<TokV, ErrV>(TokV::Comment)
            &&& j < r2.0.pos <= st.input.len()
            &&& (r2.0.pos < st.input.len() ==> st.input[r2.0.pos] == '\n')
            &&& forall|k: int| j + 1 <= k < r2.0.pos ==> #[trigger] st.input[k] != '\n'
        }),
{
    let s = st.input;
    let j = ws_end(s, st.pos);
    lemma_ws_end_bounds(s, st.pos);
    assert(!is_open_char('#') && !is_close_char('#') && !is_digit('#') && !is_op_char('#')) by {
        assert('#' as u32 == 0x23);
    }
    lemma_comment_end_bounds(s, j + 1);
    lemma_comment_end_chars(s, j + 1);
}

} // verus!
