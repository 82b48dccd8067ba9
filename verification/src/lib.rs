//! A whole-program compiler for a small statically typed language organised
//! in nodes: lexing, predictive parsing, lowering to a syntax tree, semantic
//! analysis, and emission of stack bytecode, one image per node.

pub mod arrays;
pub mod ast;
pub mod bytecode;
pub mod codegen;
pub mod derivation;
pub mod emit;
pub mod grammar;
pub mod grammar_sets;
pub mod graph_json;
pub mod lexer;
pub mod lower;
pub mod parse_tree;
pub mod parser;
pub mod rebalance;
pub mod recognition;
pub mod return_paths;
pub mod scope;
pub mod seed;
pub mod shape;
pub mod source;
pub mod spelling;
pub mod symbols;
pub mod text;
pub mod token;
pub mod types;
pub mod typing;
