//! A small interpreted language: a lexer, a recursive-descent parser and a
//! tree-walking interpreter, with their behaviour stated and proved.
pub mod token;
pub mod ast;
pub mod format;
pub mod text;
pub mod lexer;
pub mod grammar;
pub mod parser;
pub mod value;
pub mod environ;
pub mod number;
pub mod semantics;
pub mod interpreter;
pub mod report;
