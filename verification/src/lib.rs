//! A small ahead-of-time compiler for a minimal expression-oriented language:
//! a lexer turns source text into tokens, a recursive-descent parser builds an
//! expression tree, and a code generator emits a stack-machine translation in
//! textual assembly form.

pub mod ast;
pub mod compiler;
pub mod lexer;
pub mod machine;
pub mod parser;
pub mod text;
