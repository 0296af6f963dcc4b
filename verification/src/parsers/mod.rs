//! The line parser and the mathematical model it is verified against.

/// The errors of the parser.
pub mod error;

/// The grammar of a line, as functions on sequences of characters.
pub mod grammar;

/// Decoding of one line into a message.
pub mod message;

/// Zero-copy cuts of string slices at byte positions.
mod span;

/// What holds of every line, proved of the grammar.
pub mod laws;
