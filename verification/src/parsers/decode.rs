//! The decoding collaborator: one scalar at a time, decoded by the
//! `utf8_decode` crate.
use vstd::prelude::*;
use crate::traits::ParserInput;

verus! {

/// What decoding one scalar at the front of an input gives.
#[derive(Clone, Copy, Debug)]
pub enum Decoded {
    /// One Unicode scalar was decoded.
    Scalar(char),
    /// The bytes at the front are no encoding of a scalar.
    Malformed,
    /// There was no byte left.
    End,
}

impl Decoded {
    /// The scalar, if one was decoded.
    pub open spec fn scalar(self) -> Option<char> {
        match self {
            Decoded::Scalar(c) => Some(c),
            _ => None,
        }
    }

    /// The scalar, if one was decoded.
    pub fn into_scalar(self) -> (c: Option<char>)
        ensures
            c == self.scalar(),
    {
        match self {
            Decoded::Scalar(c) => Some(c),
            _ => None,
        }
    }
}

/// What `utf8_decode::decode` makes of an input that yields `bytes`: the
/// outcome, and the number of bytes it takes from the front while deciding.
///
/// Nothing is said here of which bytes decode to which scalar: that is the
/// decoder's business. Contracts speak of the decoder through this name.
pub uninterp spec fn utf8_decoding(bytes: Seq<u8>) -> (Decoded, nat);

/// Decodes one scalar at the cursor with `utf8_decode::decode`.
///
/// Trusted. The decoder reads the cursor through `next` alone, front to back,
/// and what it returns depends on nothing but the bytes it has read; so the
/// outcome and the number of bytes taken are those that [`utf8_decoding`]
/// names. It reports the end of the input exactly when the first read finds
/// no byte, and otherwise has taken at least that first byte. Whatever the
/// outcome, the bytes it has read stay consumed.
#[verifier::external_body]
pub(crate) fn next_scalar<I: ParserInput>(iter: &mut I) -> (decoded: Decoded)
    ensures
        decoded == utf8_decoding(old(iter).remaining()).0,
        decoded is End <==> old(iter).remaining().len() == 0,
        decoded !is End ==> utf8_decoding(old(iter).remaining()).1 >= 1,
        utf8_decoding(old(iter).remaining()).1 <= old(iter).remaining().len()
            && final(iter).remaining() == old(iter).remaining().skip(
            utf8_decoding(old(iter).remaining()).1 as int,
        ),
{
    match utf8_decode::decode(&mut std::iter::from_fn(|| iter.next())) {
        Some(Ok(c)) => Decoded::Scalar(c),
        Some(Err(_)) => Decoded::Malformed,
        None => Decoded::End,
    }
}

} // verus!
