//! Whole-phrase matching and matching over a byte buffer.
use vstd::prelude::*;
use crate::input::SliceInput;
use crate::parsers::chars::AsciiWhitespace;
use crate::traits::{skip_fn, Parser, ParserInput, SkipFn, Skipper};

verus! {

/// `output` can be called with every value that an attempt of `parser` on
/// `input` can yield.
pub open spec fn takes_match<P: Parser, O: FnOnce(P::Output)>(
    parser: P,
    skip: SkipFn,
    input: Seq<u8>,
    output: O,
) -> bool {
    forall|v: P::Output|
        parser.parse_spec(skip, input) matches Some((value, _)) && v.deep_view() == value
            ==> call_requires(output, (v,))
}

/// `output` has been called with the value that an attempt of `parser` on
/// `input` yields.
pub open spec fn took_match<P: Parser, O: FnOnce(P::Output)>(
    parser: P,
    skip: SkipFn,
    input: Seq<u8>,
    output: O,
) -> bool {
    parser.parse_spec(skip, input) matches Some((value, _)) ==> exists|v: P::Output|
        v.deep_view() == value && #[trigger] call_ensures(output, (v,), ())
}

/// How one attempt of `parser` relates the cursor before it to whether it
/// matched and to the cursor after it.
pub open spec fn attempt_outcome<P: Parser, I: ParserInput>(
    parser: P,
    skip: SkipFn,
    before: I,
    matched: bool,
    after: I,
) -> bool {
    match parser.parse_spec(skip, before.remaining()) {
        Some((_, n)) => {
            &&& matched
            &&& n <= before.remaining().len()
            &&& after.remaining() == before.remaining().skip(n as int)
        },
        None => !matched && after == before,
    }
}

/// The operations derived from [`Parser::parse_impl`], for every parser.
pub trait ParserExt: Parser {
    /// Attempts one match with ASCII whitespace skipped before every
    /// primitive.
    fn phrase_parse<I, O>(&mut self, iter: &mut I, output: O) -> (matched: bool) where
        I: ParserInput,
        O: FnOnce(Self::Output),

        requires
            takes_match(*old(self), skip_fn(AsciiWhitespace), old(iter).remaining(), output),
        ensures
            *final(self) == *old(self),
            took_match(*old(self), skip_fn(AsciiWhitespace), old(iter).remaining(), output),
            attempt_outcome(
                *old(self),
                skip_fn(AsciiWhitespace),
                *old(iter),
                matched,
                *final(iter),
            ),
    {
        let mut whitespace = AsciiWhitespace;
        self.parse_impl(iter, &mut whitespace, output)
    }

    /// Attempts one match at the front of `data`.
    fn parse_slice<S, O>(&mut self, data: &[u8], skipper: &mut S, output: O) -> (matched:
        bool) where S: Skipper, O: FnOnce(Self::Output)
        requires
            takes_match(*old(self), skip_fn(*old(skipper)), data@, output),
        ensures
            *final(self) == *old(self),
            *final(skipper) == *old(skipper),
            took_match(*old(self), skip_fn(*old(skipper)), data@, output),
            matched == old(self).parse_spec(skip_fn(*old(skipper)), data@).is_some(),
    {
        let mut input = SliceInput::new(data);
        self.parse_impl(&mut input, skipper, output)
    }
}

impl<P: Parser> ParserExt for P {

}

} // verus!
