//! Lexical-analysis front end for a small C-like language.
//!
//! The library turns raw source text into a stream of classified tokens:
//! keywords, identifiers, literals, operators and separators. A [`lexer::Lexer`]
//! is built from a complete source string and driven by repeated
//! `next_token` calls until it reports end of input.

pub mod laws;
pub mod lexer;
pub mod scan;
pub mod tokens;
