pub mod ast;
pub mod interpreter;
pub mod laws;
pub mod lexer;
pub mod parser;
pub mod session;
pub mod tokens;
