//! A lexical scanner for a small dynamically typed scripting language.
//!
//! The scanner converts an in-memory source buffer into an ordered sequence of
//! classified tokens while collecting positioned diagnostics for malformed
//! input; it never aborts. The caller supplies the buffer already terminated
//! by a `'\0'` sentinel character, which satisfies the scanner's one-character
//! lookahead margin and marks logical end-of-input.

pub mod laws;
pub mod lexer;
pub mod model;
pub mod text;
pub mod token;

pub use lexer::Lexer;
pub use token::LexerError;
pub use token::Token;
pub use token::TokenView;
