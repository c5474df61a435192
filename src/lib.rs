//! A small regular-expression engine: a parser from pattern text to a syntax
//! tree, a code generator from the tree to a program for a matching machine,
//! and two evaluators (depth-first and breadth-first) that decide whether the
//! program accepts a text from its start. Beside it stand a few counting and
//! arithmetic helpers.

pub mod ast;
pub mod codegen;
pub mod engine;
pub mod evaluator;
pub mod helper;
pub mod instruction;
pub mod numbers;
pub mod parser;
pub mod text;
pub mod wc;
