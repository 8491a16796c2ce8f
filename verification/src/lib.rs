pub mod types;
pub mod text;
pub mod codegen;
pub mod typechecker;
pub mod parser;
