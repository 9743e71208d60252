//! A tree-walk interpreter for the Lox language: scanning, parsing,
//! printing of syntax trees, scoped environments, name resolution, and a
//! machine that runs programs step by step.

pub mod token;
pub mod text;
pub mod scanner;
pub mod ast;
pub mod parser_errors;
pub mod grammar;
pub mod parser;
pub mod env;
pub mod resolver;
pub mod interpret;
pub mod stack_discipline;
pub mod program_order;
pub mod evaluation;
pub mod cli;
