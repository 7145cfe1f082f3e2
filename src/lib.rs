//! Lexical front end of a small scripting language: a scanner that turns
//! source text into classified tokens with source positions, and a renderer
//! that turns a scanning error into an annotated report.
pub mod span;
pub mod text;
pub mod token;
pub mod error;
pub mod model;
pub mod lexer;
pub mod laws;
pub mod diagnostic;
pub mod values;
pub mod ast;
