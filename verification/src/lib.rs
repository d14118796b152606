//! A lexical analyzer for a small source grammar of commas, one reserved
//! keyword, identifiers and integer literals.
//!
//! [`lexer::Lexer`] turns source text into [`token::Token`]s, each carrying its
//! kind, the verbatim text it was read from, and the positions of its first and
//! last character. What the lexer returns is stated by the functions of
//! [`grammar`], which describe a token as a mathematical function of the source
//! text and an offset into it.

pub mod chars;
pub mod position;
pub mod token;
pub mod grammar;
pub mod text;
pub mod lexer;
pub mod laws;
