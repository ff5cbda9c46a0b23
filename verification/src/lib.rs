//! A lexical scanner for a small, dynamically typed scripting language.
//!
//! The scanner turns raw source text into an ordered sequence of tokens,
//! always terminated by a single end-of-file token, together with a list
//! of non-fatal diagnostics (unterminated strings, unexpected characters).
//! The whole tokenization is specified by a recursive model over the
//! source's character sequence, and the executable scanner is proved to
//! return exactly what the model says.

pub mod model;
pub mod scanner;
pub mod token;
