//! Expression pipeline of a small interpreted language: a scanner from source
//! text to tokens, a recursive-descent parser from tokens to an expression
//! tree under an operator-precedence grammar, an evaluator from trees to
//! runtime values, and a printer that renders trees in canonical
//! parenthesized form.
//!
//! Each stage is specified against a mathematical model of its input and
//! output: `scan_toks` for the scanner, `p_expression` for the parser,
//! `eval_m` for the evaluator and `render_m` for the printer. Runtime numbers
//! are IEEE-754 binary64 values carried as their bit patterns; the arithmetic
//! on them is done by a software implementation of the same format.

pub mod strutil;
pub mod token;
pub mod num;
pub mod expressions;
pub mod scanner;
pub mod parser;
pub mod interpreter;
pub mod printer;
pub mod lox;
