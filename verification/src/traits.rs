//! The contracts: what a cursor, a skipper and a parser are.
use vstd::prelude::*;

pub mod into_parser;
pub mod parser_ext;
mod sealed;

pub use into_parser::IntoParser;
pub use parser_ext::ParserExt;

verus! {

/// The input cursor contract: forward, byte-at-a-time consumption and a cheap
/// snapshot of the position.
///
/// `clone` is the snapshot. A clone is an independent cursor at the same
/// position; assigning it back restores that position.
pub trait ParserInput: sealed::Sealed + Clone {
    /// The bytes that have not been consumed yet.
    spec fn remaining(&self) -> Seq<u8>;

    /// A clone is equal to the cursor it was taken from.
    proof fn lemma_clone_is_snapshot(cursor: &Self, copy: &Self)
        requires
            cloned(*cursor, *copy),
        ensures
            *cursor == *copy,
    ;

    /// Consumes and returns the next byte; at the end of the input returns
    /// `None` and leaves the cursor as it was.
    fn next(&mut self) -> (byte: Option<u8>)
        ensures
            old(self).remaining().len() == 0 ==> byte is None && *final(self) == *old(self),
            old(self).remaining().len() > 0 ==> byte == Some(old(self).remaining()[0])
                && final(self).remaining() == old(self).remaining().skip(1),
    ;

    /// The number of bytes that have not been consumed yet.
    fn remaining_len(&self) -> (n: usize)
        ensures
            n == self.remaining().len(),
    ;
}

/// How many bytes at the front of an input are insignificant.
pub type SkipFn = spec_fn(Seq<u8>) -> nat;

/// The skip function that never skips anything.
pub open spec fn no_skip() -> SkipFn {
    |input: Seq<u8>| 0nat
}

/// Something that can advance a cursor past insignificant input.
///
/// Every [`Parser`] is a skipper: it skips whatever it matches, repeatedly,
/// until it matches no more.
pub trait Skipper: Sized {
    /// The number of bytes skipped at the front of `input`.
    spec fn skip_len(&self, input: Seq<u8>) -> nat;

    /// Advances `iter` past the insignificant input in front of it.
    fn skip<I: ParserInput>(&mut self, iter: &mut I)
        ensures
            *final(self) == *old(self),
            old(self).skip_len(old(iter).remaining()) <= old(iter).remaining().len(),
            final(iter).remaining() == old(iter).remaining().skip(
                old(self).skip_len(old(iter).remaining()) as int,
            ),
    ;
}

/// The skip function of a skipper.
pub open spec fn skip_fn<S: Skipper>(skipper: S) -> SkipFn {
    |input: Seq<u8>| skipper.skip_len(input)
}

/// The uniform matching contract.
///
/// A parser's meaning is [`Parser::parse_spec`]: for every input and every
/// skip function, either no match, or the value matched together with the
/// number of bytes consumed (skipped input included). [`Parser::attempt`]
/// computes exactly that on a cursor.
pub trait Parser: Sized {
    /// What a successful match yields.
    type Output: DeepView;

    /// The outcome of one attempt on `input`, where `skip` tells how much
    /// insignificant input a skipper passes over.
    spec fn parse_spec(&self, skip: SkipFn, input: Seq<u8>) -> Option<
        (<Self::Output as DeepView>::V, nat),
    >;

    /// Attempts one match at the cursor.
    ///
    /// On success returns the value and leaves the cursor behind everything
    /// consumed. On failure returns `None` and leaves the cursor exactly as
    /// it was on entry, skipped input included.
    fn attempt<I, S>(&mut self, iter: &mut I, skipper: &mut S) -> (out: Option<Self::Output>) where
        I: ParserInput,
        S: Skipper,

        ensures
            *final(self) == *old(self),
            *final(skipper) == *old(skipper),
            match old(self).parse_spec(skip_fn(*old(skipper)), old(iter).remaining()) {
                Some((value, n)) => {
                    &&& out matches Some(v) && v.deep_view() == value
                    &&& n <= old(iter).remaining().len()
                    &&& final(iter).remaining() == old(iter).remaining().skip(n as int)
                },
                None => out is None && *final(iter) == *old(iter),
            },
    ;

    /// Attempts one match at the cursor and hands the value to `output`.
    ///
    /// `output` is called exactly once when the attempt succeeds, with the
    /// complete value, and not at all when it fails.
    fn parse_impl<I, S, O>(&mut self, iter: &mut I, skipper: &mut S, output: O) -> (matched:
        bool) where I: ParserInput, S: Skipper, O: FnOnce(Self::Output)
        requires
            forall|v: Self::Output|
                old(self).parse_spec(skip_fn(*old(skipper)), old(iter).remaining()) matches Some(
                    (value, _),
                ) && v.deep_view() == value ==> call_requires(output, (v,)),
        ensures
            *final(self) == *old(self),
            *final(skipper) == *old(skipper),
            match old(self).parse_spec(skip_fn(*old(skipper)), old(iter).remaining()) {
                Some((value, n)) => {
                    &&& matched
                    &&& exists|v: Self::Output|
                        v.deep_view() == value && #[trigger] call_ensures(output, (v,), ())
                    &&& n <= old(iter).remaining().len()
                    &&& final(iter).remaining() == old(iter).remaining().skip(n as int)
                },
                None => !matched && *final(iter) == *old(iter),
            },
    {
        match self.attempt(iter, skipper) {
            Some(v) => {
                output(v);
                true
            },
            None => false,
        }
    }
}

/// Skipping `a` bytes and then `b` more is skipping `a + b` bytes.
pub proof fn lemma_skip_add(s: Seq<u8>, a: nat, b: nat)
    requires
        a + b <= s.len(),
    ensures
        s.skip(a as int).skip(b as int) == s.skip((a + b) as int),
{
    assert(s.skip(a as int).skip(b as int) =~= s.skip((a + b) as int));
}

/// The skipper that skips nothing.
pub struct NoSkip;

impl Skipper for NoSkip {
    open spec fn skip_len(&self, input: Seq<u8>) -> nat {
        0
    }

    fn skip<I: ParserInput>(&mut self, iter: &mut I) {
        assert(iter.remaining().skip(0) =~= iter.remaining());
    }
}

/// [`NoSkip`] has the skip function [`no_skip`].
pub proof fn lemma_no_skip()
    ensures
        skip_fn(NoSkip) == no_skip(),
{
    assert(skip_fn(NoSkip) =~= no_skip());
}

impl<P: Parser> Skipper for P {
    /// A parser skips what it matches without skipping, again and again,
    /// until it fails or matches without consuming anything. (A match said to
    /// reach past the end of `input`, which no attempt on a cursor can be,
    /// ends the skipping too.)
    open spec fn skip_len(&self, input: Seq<u8>) -> nat
        decreases input.len(),
    {
        match self.parse_spec(no_skip(), input) {
            Some((_, n)) if 0 < n <= input.len() => n + self.skip_len(input.skip(n as int)),
            _ => 0,
        }
    }

    fn skip<I: ParserInput>(&mut self, iter: &mut I) {
        let mut none = NoSkip;
        let ghost start = iter.remaining();
        let ghost mut done: nat = 0;
        proof {
            lemma_no_skip();
            assert(start.skip(0) =~= start);
        }
        loop
            invariant
                *self == *old(self),
                skip_fn(none) == no_skip(),
                done <= start.len(),
                iter.remaining() == start.skip(done as int),
                done + self.skip_len(iter.remaining()) == self.skip_len(start),
            ensures
                self.skip_len(iter.remaining()) == 0,
            decreases iter.remaining().len(),
        {
            let before = iter.remaining_len();
            let ghost here = iter.remaining();
            match self.attempt(iter, &mut none) {
                Some(_) => {
                    if iter.remaining_len() >= before {
                        proof {
                            assert(here.skip(0) =~= here);
                        }
                        break ;
                    }
                    proof {
                        let n = self.parse_spec(no_skip(), here).unwrap().1;
                        lemma_skip_add(start, done, n);
                        done = done + n;
                    }
                },
                None => {
                    break ;
                },
            }
        }
    }
}

/// The parser that never matches and never consumes anything.
///
/// As a skipper it skips nothing, which makes it the way to switch skipping
/// off.
pub struct EmptyParser;

impl Parser for EmptyParser {
    type Output = ();

    open spec fn parse_spec(&self, skip: SkipFn, input: Seq<u8>) -> Option<((), nat)> {
        None
    }

    fn attempt<I, S>(&mut self, iter: &mut I, skipper: &mut S) -> (out: Option<()>) where
        I: ParserInput,
        S: Skipper,
     {
        None
    }
}

/// Used as a skipper, [`EmptyParser`] skips nothing.
pub proof fn lemma_empty_parser_skips_nothing()
    ensures
        skip_fn(EmptyParser) == no_skip(),
{
    assert(skip_fn(EmptyParser) =~= no_skip());
}

} // verus!
