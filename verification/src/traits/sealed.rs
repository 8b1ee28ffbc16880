//! The seal on the cursor contract.
use vstd::prelude::*;
use crate::input::SliceInput;

verus! {

/// Closes [`crate::traits::ParserInput`]: only cursors of this crate, whose
/// operations are verified against the cursor contract, can be parser inputs.
pub trait Sealed {

}

impl<'a> Sealed for SliceInput<'a> {

}

} // verus!
