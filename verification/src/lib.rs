//! Decoding of single IRC protocol lines, message tags included.
//!
//! Everything here works on borrowed string slices: a decoded message points
//! into the line it was read from and nothing is copied.

/// Parsers for the IRC wire format.
pub mod parsers;
