//! Front end of a small scripting language: lexing, parsing with error
//! recovery, and static scope resolution.

pub mod ast;
pub mod coverage;
pub mod error;
pub mod grammar;
pub mod lexer;
pub mod parser;
pub mod progress;
pub mod resolver;
pub mod scope;
pub mod span;
pub mod token;

pub use crate::lexer::Lexer;
pub use crate::parser::Parser;
pub use crate::resolver::Resolver;
pub use crate::scope::Symbol;
pub use crate::token::{Token, TokenKind};
