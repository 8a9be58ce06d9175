//! A find-and-replace engine for text files: literal and regular-expression
//! matching, optional case-insensitive matching with case-preserving
//! substitution, and a binary-skip policy for content that is not valid text.

pub mod case_pattern;
pub mod engine;
pub mod literal;
pub mod pattern;
pub mod text;
