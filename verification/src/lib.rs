//! Parser combinators over byte cursors, with backtracking and automatic
//! skipping of insignificant input between matches.
//!
//! A parser is a value implementing [`Parser`]. Parsers are composed by value
//! into larger parsers ([`adaptors`]) and anchored at the leaves by the
//! character primitives ([`chars`]). Every attempt either succeeds, yielding
//! one value and leaving the cursor behind what it consumed, or fails and
//! leaves the cursor exactly where it was.
pub mod adaptors;
pub mod input;
pub mod laws;
pub mod parsers;
pub mod traits;

pub use input::SliceInput;
pub use parsers::chars;
pub use traits::EmptyParser;
pub use traits::NoSkip;
pub use traits::IntoParser;
pub use traits::Parser;
pub use traits::ParserExt;
pub use traits::ParserInput;
pub use traits::Skipper;
