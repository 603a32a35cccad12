pub mod ast;
pub mod errors;
pub mod generator;
pub mod parser;
pub mod lexer;
