//! Tokens, lexical errors, the lexical grammar as spec functions, and the
//! scanner that produces tokens on demand.
pub mod error;
pub mod grammar;
pub mod laws;
pub mod scanner;
pub mod token;
mod text;

pub use scanner::Scanner;
pub use token::{LiteralValue, Token, TokenType};
