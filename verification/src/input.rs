//! The cursor over a byte slice.
use vstd::prelude::*;
use vstd::slice::slice_subrange;
use crate::traits::ParserInput;

verus! {

/// A forward cursor over a byte slice.
///
/// The cursor holds the part of the slice that has not been consumed yet, so
/// a snapshot is a copy of one slice reference.
pub struct SliceInput<'a> {
    rest: &'a [u8],
}

impl<'a> SliceInput<'a> {
    /// A cursor positioned before the first byte of `bytes`.
    pub fn new(bytes: &'a [u8]) -> (input: Self)
        ensures
            input.remaining() == bytes@,
    {
        SliceInput { rest: bytes }
    }
}

impl<'a> Clone for SliceInput<'a> {
    fn clone(&self) -> (copy: Self)
        ensures
            copy == *self,
    {
        SliceInput { rest: self.rest }
    }
}

impl<'a> ParserInput for SliceInput<'a> {
    closed spec fn remaining(&self) -> Seq<u8> {
        self.rest@
    }

    proof fn lemma_clone_is_snapshot(cursor: &Self, copy: &Self) {
    }

    fn next(&mut self) -> (byte: Option<u8>) {
        let len = self.rest.len();
        if len > 0 {
            let first = self.rest[0];
            self.rest = slice_subrange(self.rest, 1, len);
            Some(first)
        } else {
            None
        }
    }

    fn remaining_len(&self) -> (n: usize) {
        self.rest.len()
    }
}

} // verus!
