//! A tokenizer for line-numbered BASIC-style source programs.
//!
//! Each source line begins with an integer line number, followed by a body of
//! keywords, variables, integer literals, quoted string literals and
//! operators. The tokenizer turns an ordered sequence of such lines into an
//! ordered sequence of per-line token sequences, or reports a line-scoped
//! error.

pub mod error;
pub mod laws;
pub mod lexer;
pub mod model;
pub mod token;

pub use lexer::Lexer;

pub use error::ErrorKind;
pub use error::LexError;

pub use token::Command;
pub use token::Operator;
pub use token::Token;
