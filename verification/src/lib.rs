//! Removal of comments from Elm source text.
//!
//! The text is read once, left to right, as a sequence of elements: comments
//! (line comments and nested block comments), text literals (character,
//! string and multiline string literals) and code. The output is the input
//! without its comments; everything else is kept character for character.
//! A block comment, a string or a multiline string that nothing closes
//! makes the scan fail, and then there is no output.
//!
//! [`parser::remove_comments`] does the work. Its contract is stated over
//! the mathematical model of the scan in [`element`], which rests on the
//! recognizers of [`comment`] and [`literal`]. The modules [`laws`],
//! [`nesting`] and [`locality`] prove what follows from that model for
//! every text. [`cli`] holds what the command line tool decides.

pub mod cli;
pub mod comment;
pub mod element;
pub mod error;
pub mod laws;
pub mod literal;
pub mod locality;
pub mod nesting;
pub mod parser;
pub mod text;

pub use cli::Args;
pub use error::ScanError;
pub use parser::remove_comments;
