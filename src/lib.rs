//! A lexical scanner for a small C-like scripting language: it turns ASCII
//! source text into keywords, identifiers, integer literals, operators and
//! punctuation, ending with an end-of-input token.
pub mod token;
pub mod model;
pub mod lexer;
pub mod laws;

pub use lexer::{lex, Lexer};
pub use token::{Lexeme, Token};
