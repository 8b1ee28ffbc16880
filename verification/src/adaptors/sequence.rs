//! Sequential composition.
use vstd::prelude::*;
use crate::traits::{lemma_skip_add, skip_fn, Parser, ParserInput, SkipFn, Skipper};

verus! {

/// Sequential composition: `first` followed by `second`, yielding the pair of
/// their values.
pub struct Sequence<First, Second> {
    first: First,
    second: Second,
}

impl<First, Second> View for Sequence<First, Second> {
    type V = (First, Second);

    /// The two parsers, in the order in which they run.
    closed spec fn view(&self) -> (First, Second) {
        (self.first, self.second)
    }
}

impl<F, S> Sequence<F, S> {
    /// The parser that runs `first` and then `second`.
    pub fn new(first: F, second: S) -> (sequence: Self)
        ensures
            sequence@ == (first, second),
    {
        Self { first, second }
    }
}

impl<First, Second> Parser for Sequence<First, Second> where First: Parser, Second: Parser {
    type Output = (First::Output, Second::Output);

    /// Skip; then `first` at the position reached; then `second` directly
    /// behind what `first` consumed. Each of the two skips for itself.
    open spec fn parse_spec(&self, skip: SkipFn, input: Seq<u8>) -> Option<
        ((<First::Output as DeepView>::V, <Second::Output as DeepView>::V), nat),
    > {
        let k = skip(input);
        match self@.0.parse_spec(skip, input.skip(k as int)) {
            Some((a, n1)) => match self@.1.parse_spec(skip, input.skip((k + n1) as int)) {
                Some((b, n2)) => Some(((a, b), k + n1 + n2)),
                None => None,
            },
            None => None,
        }
    }

    fn attempt<I, S>(&mut self, iter: &mut I, skipper: &mut S) -> (out: Option<
        (First::Output, Second::Output),
    >) where I: ParserInput, S: Skipper {
        let entry = iter.clone();
        proof {
            I::lemma_clone_is_snapshot(&*iter, &entry);
        }
        skipper.skip(iter);
        let ghost input = entry.remaining();
        let ghost skip = skip_fn(*skipper);
        let ghost k = skipper.skip_len(input);
        proof {
            assert(skip(input) == k);
            assert(self.parse_spec(skip, input) == match self@.0.parse_spec(
                skip,
                input.skip(k as int),
            ) {
                Some((a, n1)) => match self@.1.parse_spec(skip, input.skip((k + n1) as int)) {
                    Some((b, n2)) => Some(((a, b), k + n1 + n2)),
                    None => None,
                },
                None => None,
            });
        }
        if let Some(a) = self.first.attempt(iter, skipper) {
            let ghost n1 = self@.0.parse_spec(skip, input.skip(k as int)).unwrap().1;
            proof {
                lemma_skip_add(input, k, n1);
            }
            if let Some(b) = self.second.attempt(iter, skipper) {
                proof {
                    let n2 = self@.1.parse_spec(skip, input.skip((k + n1) as int)).unwrap().1;
                    lemma_skip_add(input, k + n1, n2);
                    assert((a, b).deep_view() == (a.deep_view(), b.deep_view()));
                }
                return Some((a, b));
            }
        }
        *iter = entry;
        None
    }
}

} // verus!
