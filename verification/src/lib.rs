//! A small interpreter for a parenthesised, Lisp-like expression language:
//! integers, booleans, symbols, lists, built-in operators, and user-defined
//! functions with lexical scoping.

pub mod ast;
pub mod env;
pub mod eval;
pub mod numeral;
pub mod parser;
pub mod token;
pub mod error;
