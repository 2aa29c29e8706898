//! What the machine needs to point at a value.

use vstd::layout::size_of;
use vstd::prelude::*;

verus! {

/// Tells whether a reference to a `T` is fat: whether it takes more than
/// one machine word, as a reference to a slice does, which carries the
/// slice's length.
pub fn is_fat<T: ?Sized>() -> (fat: bool)
    ensures
        fat == (size_of::<&T>() != size_of::<usize>()),
{
    core::mem::size_of::<&T>() != core::mem::size_of::<usize>()
}

} // verus!
