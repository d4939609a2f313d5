use vstd::prelude::*;

verus! {

#[verifier::external_type_specification]
#[verifier::external_body]
#[verifier::reject_recursive_types(T)]
pub struct ExHeaplessVec<T, const N: usize>(heapless::Vec<T, N>);

/// The bytes a frame buffer holds, in order.
pub uninterp spec fn frame_contents(v: heapless::Vec<u8, 64>) -> Seq<u8>;

/// Relies on heapless::Vec::new: the vector starts empty.
#[verifier::external_body]
pub(crate) fn frame_new() -> (r: heapless::Vec<u8, 64>)
    ensures
        frame_contents(r) == Seq::<u8>::empty(),
{
    heapless::Vec::new()
}

/// Relies on heapless::Vec::extend_from_slice: appends all of `s` when it
/// fits the capacity of 64, and otherwise leaves the vector as it was.
#[verifier::external_body]
pub(crate) fn frame_extend(v: &mut heapless::Vec<u8, 64>, s: &[u8]) -> (r: bool)
    ensures
        r == (frame_contents(*old(v)).len() + s@.len() <= 64),
        r ==> frame_contents(*final(v)) == frame_contents(*old(v)) + s@,
        !r ==> frame_contents(*final(v)) == frame_contents(*old(v)),
{
    v.extend_from_slice(s).is_ok()
}

/// Relies on heapless::Vec::clear: the vector becomes empty.
#[verifier::external_body]
pub(crate) fn frame_clear(v: &mut heapless::Vec<u8, 64>)
    ensures
        frame_contents(*final(v)) == Seq::<u8>::empty(),
{
    v.clear()
}

/// Relies on heapless::Vec::as_slice: the slice holds the vector's bytes.
#[verifier::external_body]
pub(crate) fn frame_slice(v: &heapless::Vec<u8, 64>) -> (r: &[u8])
    ensures
        r@ == frame_contents(*v),
{
    v.as_slice()
}

} // verus!
