//! The chunk-sized queue of decrypted bytes awaiting delivery, kept in a
//! `tinyvec::ArrayVec`, behind contracts over what it holds.
use vstd::prelude::*;

verus! {

#[verifier::external_type_specification]
#[verifier::external_body]
#[verifier::reject_recursive_types(A)]
pub struct ExArrayVec<A>(tinyvec::ArrayVec<A>);

/// The bytes a chunk-sized `ArrayVec` holds, front first.
pub uninterp spec fn chunk_buffer_contents(v: tinyvec::ArrayVec<[u8; 2048]>) -> Seq<u8>;

/// Relies on tinyvec::ArrayVec::new: the vector starts empty.
#[verifier::external_body]
pub(crate) fn chunk_buffer_new() -> (r: tinyvec::ArrayVec<[u8; 2048]>)
    ensures
        chunk_buffer_contents(r) == Seq::<u8>::empty(),
{
    tinyvec::ArrayVec::new()
}

/// Relies on tinyvec::ArrayVec::len: the number of bytes held.
#[verifier::external_body]
pub(crate) fn chunk_buffer_len(v: &tinyvec::ArrayVec<[u8; 2048]>) -> (r: usize)
    ensures
        r == chunk_buffer_contents(*v).len(),
{
    v.len()
}

/// Relies on tinyvec::ArrayVec::drain over `..n`: it removes the first `n`
/// bytes and yields them in order (it panics if `n` exceeds the length).
#[verifier::external_body]
pub(crate) fn chunk_buffer_take_front(v: &mut tinyvec::ArrayVec<[u8; 2048]>, n: usize) -> (r: Vec<u8>)
    requires
        n <= chunk_buffer_contents(*old(v)).len(),
    ensures
        r@ == chunk_buffer_contents(*old(v)).take(n as int),
        chunk_buffer_contents(*final(v)) == chunk_buffer_contents(*old(v)).skip(n as int),
{
    v.drain(..n).collect()
}

/// Relies on tinyvec::ArrayVec::extend_from_slice: it appends the bytes (it
/// panics past the capacity of 2048).
#[verifier::external_body]
pub(crate) fn chunk_buffer_extend(v: &mut tinyvec::ArrayVec<[u8; 2048]>, data: &[u8])
    requires
        chunk_buffer_contents(*old(v)).len() + data@.len() <= 2048,
    ensures
        chunk_buffer_contents(*final(v)) == chunk_buffer_contents(*old(v)) + data@,
{
    v.extend_from_slice(data)
}

} // verus!
