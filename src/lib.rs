//! A source-mapped JSON parser and a renderer of compiler-style diagnostics.
//!
//! The parser records the line, column and length of every token it reads, a
//! pointer resolver maps a path of property names and array indices back onto
//! the parsed tree, and the renderer turns problems located by such spans into
//! human-readable text with source context, line-number gutters and carets.

pub mod action;
pub mod context;
pub mod cursor;
pub mod diagnostic;
pub mod display;
pub mod grammar;
pub mod graphemes;
pub mod json;
pub mod message;
pub mod parse;
pub mod path;
pub mod resolve;
pub mod source;
pub mod span;
pub mod style;
pub mod text;
pub mod validation;

pub use span::Span;
