//! An interactive evaluator for a small arithmetic language: a lexer driven by
//! an ordered table of regular expressions, and a recursive-descent evaluator
//! with one global variable environment.

pub mod pattern;
pub mod token;
pub mod rules;
pub mod scanner;
pub mod value;
pub mod env;
pub mod eval;
pub mod parser;
pub mod laws;
