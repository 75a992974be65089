//! A lexical scanner for a small C-like language.
//!
//! The scanner turns source text into a stream of token strings: identifiers,
//! numeric literals, character and string literals, one- and two-character
//! operators, and fixed punctuation. Whitespace separates tokens and is
//! discarded; unrecognized characters are silently skipped. Malformed or
//! unterminated literals are reported as typed errors.
//!
//! The module [`model`] gives the mathematical description of scanning as
//! functions over `Seq<char>`; [`scanner`] holds the executable scanner,
//! verified against that description; [`laws`] proves the global properties
//! of the token stream (tokens are non-empty and trimmed, maximal munch,
//! totality on plain input, and stability under re-joining with spaces).

pub mod laws;
pub mod model;
pub mod scanner;
