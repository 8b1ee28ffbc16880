//! The primitive parsers and the decoder under them.
pub mod chars;
pub mod decode;
