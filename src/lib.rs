//! An integer expression calculator: a tokenizer, a precedence-aware parser
//! producing spanned syntax trees, a renderer back to surface syntax, and a
//! tree-walking evaluator over 128-bit signed integers with a persistent
//! variable environment.
pub mod lexer;
pub mod nodes;
pub mod parser;
pub mod calculator;
