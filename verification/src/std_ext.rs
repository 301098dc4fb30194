//! The functions of the standard library that the crate calls and whose behaviour is taken from
//! their documentation.
use vstd::prelude::*;

verus! {

/// `std::str::from_utf8`. It returns the string that the bytes encode if and only if they are
/// valid UTF-8; the string's encoding is the bytes themselves.
#[verifier::external_body]
pub(crate) fn str_from_utf8(bytes: &[u8]) -> (s: Option<&str>)
    ensures
        s is Some <==> vstd::utf8::valid_utf8(bytes@),
        s matches Some(text) ==> vstd::utf8::encode_utf8(text@) == bytes@,
{
    std::str::from_utf8(bytes).ok()
}

/// `Vec::capacity`. The capacity is at least the length. How much larger it is depends on the
/// allocations made so far, and nothing is said of that.
#[verifier::external_body]
pub(crate) fn vec_capacity<E>(vec: &Vec<E>) -> (capacity: usize)
    ensures
        capacity >= vec@.len(),
{
    vec.capacity()
}

/// `Vec::shrink_to_fit`. The elements stay as they are; the room that is left depends on the
/// allocator, and nothing is said of it.
#[verifier::external_body]
pub(crate) fn vec_shrink_to_fit<E>(vec: &mut Vec<E>)
    ensures
        final(vec)@ == old(vec)@,
{
    vec.shrink_to_fit()
}

/// The lower bound of `Iterator::size_hint`. It is a hint, and nothing is said of it.
#[verifier::external_body]
pub(crate) fn size_hint_lower<I: Iterator>(iterator: &I) -> (hint: usize) {
    iterator.size_hint().0
}

} // verus!
