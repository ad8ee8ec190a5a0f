//! A scanner for a small C-like scripting language, together with the token
//! model it produces and a minimal parser for `let` statements.
//!
//! Apart from one trusted wrapper around `String::push`, every function here
//! is verified: the scanner's behaviour is stated over a mathematical model
//! of the source text (`grammar`), and the laws that relate several calls
//! are proved in `laws`.

pub mod ast;
pub mod error;
pub mod grammar;
pub mod laws;
pub mod lexer;
pub mod parser;
pub mod repl;
pub mod text;
pub mod token;
