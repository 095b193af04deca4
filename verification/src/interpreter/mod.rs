//! A calculator language: lexer, parser, tree-walking evaluator and a
//! bytecode compiler with a stack machine.
pub mod v1;
pub mod v2;
pub mod v3;
pub mod v4;
