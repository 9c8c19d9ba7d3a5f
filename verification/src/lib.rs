//! A small statically checked expression language, from text to result:
//! a lexer over a cursor that can backtrack, a recursive-descent parser,
//! a semantic checker over scoped tables of names and types, a compiler
//! to the instructions of a stack machine, and the machine itself.
//!
//! Each stage takes what the stage before it gives and stops at the first
//! fault. The contract of each stage is stated over a mathematical model
//! of its input and output.

pub mod ast;
pub mod bytecode;
pub mod compiler;
pub mod diagnostic;
pub mod evaluation;
pub mod lexer;
pub mod parser;
pub mod source;
pub mod symtab;
pub mod token;
pub mod tokenizer;
pub mod types;
pub mod typetab;
pub mod visitor;
pub mod vm;
