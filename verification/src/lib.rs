//! A verified lexical scanner for JSON source text.
//!
//! The scanner walks the input left to right, one character at a time, and
//! turns it into a flat sequence of tokens: structural punctuation, string
//! literals (kept verbatim, escapes undecoded), numeric literals (integers
//! parsed to `i64`, floating-point literals kept as validated text), the
//! keywords `true`, `false` and `null`. Scanning fails on the first
//! unterminated string or malformed numeric literal; every other character,
//! whitespace included, is consumed silently.

pub mod laws;
pub mod lexer;
pub mod numbers;
pub mod text;
pub mod token;
