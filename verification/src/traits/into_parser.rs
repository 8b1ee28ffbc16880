//! Explicit conversion of literals into parsers.
use vstd::prelude::*;
use crate::parsers::chars::Char;
use crate::traits::Parser;

verus! {

/// Conversion into a parser, so that a bare character can stand where a
/// parser is expected.
pub trait IntoParser: Sized {
    /// The parser that the conversion gives.
    type ParserType: Parser;

    /// The parser that `self` converts into.
    spec fn parser(self) -> Self::ParserType;

    /// Converts `self` into its parser.
    fn into_parser(self) -> (parser: Self::ParserType)
        ensures
            parser == self.parser(),
    ;
}

/// A character converts into the parser that matches exactly it.
impl IntoParser for char {
    type ParserType = Char;

    open spec fn parser(self) -> Char {
        Char(self)
    }

    fn into_parser(self) -> (parser: Char) {
        Char(self)
    }
}

/// A parser converts into itself.
impl<P: Parser> IntoParser for P {
    type ParserType = Self;

    open spec fn parser(self) -> Self {
        self
    }

    fn into_parser(self) -> (parser: Self) {
        self
    }
}

} // verus!
