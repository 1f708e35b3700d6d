use vstd::prelude::*;

pub mod span;
pub mod text;
pub mod keyword;
pub mod token;
pub mod lexer;
pub mod c_backend;
pub mod ast;
pub mod oxido;
pub mod errors;
pub mod parser;
pub mod cir;
pub mod semcheck;
pub mod typecheck;
pub mod lowering;
pub mod report;
pub mod oxido_lexer;
pub mod syntax;
pub mod framed;
pub mod evaluated;
pub mod elo_lexer;
pub mod ir;
pub mod oxido_error;
