//! Lossless integer narrowing for fields that cross a C interface.
use vstd::prelude::*;

verus! {

/// Narrows an element count to the `u32` of an interface field.
///
/// The count has to fit: a larger one has no `u32` to stand for it.
#[must_use]
pub fn len_u32(n: usize) -> (r: u32)
    requires
        n <= u32::MAX,
    ensures
        r == n,
{
    n as u32
}

/// The size of `T` in bytes, as the `u32` of an interface struct's size field.
#[must_use]
pub fn size_of_u32<T>() -> (r: u32)
    requires
        vstd::layout::size_of::<T>() <= u32::MAX,
    ensures
        r == vstd::layout::size_of::<T>(),
{
    let n: usize = core::mem::size_of::<T>();
    n as u32
}

} // verus!
