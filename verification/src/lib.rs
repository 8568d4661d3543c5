//! A small expression language: source text is lexed into tokens, parsed
//! into a syntax tree by precedence climbing, bound to a typed tree and
//! evaluated to a number or a boolean.
//!
//! Numbers are IEEE-754 binary64 values. The library holds them as bit
//! patterns: it reads them from decimal digits, changes their signs and
//! orders them itself, and takes the four operations of arithmetic from
//! its caller.
//!
//! - `lexer`: text to tokens, with their places in the text
//! - `parser`: tokens to a syntax tree, with diagnostics
//! - `precedence`: what the trees of the parser are like
//! - `binder`: a syntax tree to a typed tree
//! - `evaluator`: a typed tree to a value
//! - `pipeline`: all four, from a text to a value

pub mod ast;
pub mod binary64;
pub mod binder;
pub mod bound_tree;
pub mod evaluator;
pub mod lexer;
pub mod object;
pub mod parser;
pub mod pipeline;
pub mod precedence;
pub mod rounding;
pub mod span;
pub mod syntax;
pub mod text;
pub mod token;
