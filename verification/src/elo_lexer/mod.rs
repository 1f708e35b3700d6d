pub mod keyword;
pub mod token;
pub mod span;
pub mod lexer;
