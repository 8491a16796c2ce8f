pub mod lexer;
pub mod grammar;
pub mod parser;
pub mod plain;
