//! The structural adaptors, which build parsers from parsers.
pub mod separated_by;
pub mod sequence;
