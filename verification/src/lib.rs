//! A verified pipeline that turns a textual `CREATE TABLE` statement into an
//! in-memory schema description: a tokenizer, a recursive-descent parser, and
//! a tree-walking schema builder, each specified against a mathematical model
//! of its input and output.

pub mod interpreter;
pub mod lexer;
pub mod parser;
