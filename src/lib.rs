//! A scanner for a small C-like language: it turns source text into typed
//! tokens that carry their position and literal value.
pub mod lexer;
