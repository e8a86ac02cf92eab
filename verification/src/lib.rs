pub mod ast;
pub mod code;
pub mod lexer;
pub mod parser;
pub mod text;
pub mod token;
