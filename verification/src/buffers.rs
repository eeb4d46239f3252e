//! Byte buffers: the `bytes` crate's `Bytes` and `BytesMut`, seen through
//! the sequence of bytes that each holds.

use vstd::prelude::*;
use bytes::{BufMut, Bytes, BytesMut};

verus! {

#[verifier::external_type_specification]
#[verifier::external_body]
pub struct ExBytes(Bytes);

#[verifier::external_type_specification]
#[verifier::external_body]
pub struct ExBytesMut(BytesMut);

/// The bytes that a `Bytes` handle holds.
pub uninterp spec fn bytes_seq(b: Bytes) -> Seq<u8>;

/// The bytes that a `BytesMut` buffer holds (its length, not its capacity).
pub uninterp spec fn bytes_mut_seq(b: BytesMut) -> Seq<u8>;

/// `Bytes::new`: an empty handle.
#[verifier::external_body]
pub(crate) fn bytes_empty() -> (b: Bytes)
    ensures
        bytes_seq(b) == Seq::<u8>::empty(),
{
    Bytes::new()
}

/// `Bytes::from_static`: a handle over the given static slice, holding
/// exactly its bytes.
#[verifier::external_body]
pub(crate) fn bytes_static(s: &'static [u8]) -> (b: Bytes)
    ensures
        bytes_seq(b) == s@,
{
    Bytes::from_static(s)
}

/// `Bytes::copy_from_slice`: a new handle holding a copy of the slice.
#[verifier::external_body]
pub(crate) fn bytes_copy(s: &[u8]) -> (b: Bytes)
    ensures
        bytes_seq(b) == s@,
{
    Bytes::copy_from_slice(s)
}

/// `<Bytes as AsRef<[u8]>>::as_ref`: the slice of the bytes the handle holds.
#[verifier::external_body]
pub(crate) fn bytes_slice(b: &Bytes) -> (s: &[u8])
    ensures
        s@ == bytes_seq(*b),
{
    b.as_ref()
}

/// `<Bytes as Clone>::clone`: another handle over the same bytes.
#[verifier::external_body]
pub(crate) fn bytes_clone(b: &Bytes) -> (c: Bytes)
    ensures
        bytes_seq(c) == bytes_seq(*b),
{
    b.clone()
}

/// `BytesMut::with_capacity`: an empty buffer. Vec's allocation panics
/// above `isize::MAX` bytes, so the capacity is bounded.
#[verifier::external_body]
pub(crate) fn bytes_mut_with_capacity(capacity: usize) -> (b: BytesMut)
    requires
        capacity <= isize::MAX,
    ensures
        bytes_mut_seq(b) == Seq::<u8>::empty(),
{
    BytesMut::with_capacity(capacity)
}

/// `<BytesMut as BufMut>::put_slice`: appends the slice (it extends the
/// underlying vector, which panics past `isize::MAX` bytes).
#[verifier::external_body]
pub(crate) fn bytes_mut_put(b: &mut BytesMut, s: &[u8])
    requires
        bytes_mut_seq(*old(b)).len() + s@.len() <= isize::MAX,
    ensures
        bytes_mut_seq(*final(b)) == bytes_mut_seq(*old(b)) + s@,
{
    b.put_slice(s)
}

/// `BytesMut::freeze`: an immutable handle over the same bytes.
#[verifier::external_body]
pub(crate) fn bytes_mut_freeze(b: BytesMut) -> (f: Bytes)
    ensures
        bytes_seq(f) == bytes_mut_seq(b),
{
    b.freeze()
}

/// Whether two byte slices hold the same bytes.
pub fn slices_equal(a: &[u8], b: &[u8]) -> (r: bool)
    ensures
        r == (a@ == b@),
{
    if a.len() != b.len() {
        return false;
    }
    let mut i: usize = 0;
    while i < a.len()
        invariant
            a@.len() == b@.len(),
            i <= a@.len(),
            forall|j: int| 0 <= j < i ==> a@[j] == b@[j],
        decreases a@.len() - i,
    {
        if a[i] != b[i] {
            return false;
        }
        i = i + 1;
    }
    assert(a@ =~= b@);
    true
}

/// Whether two handles hold the same bytes.
pub fn bytes_equal(a: &Bytes, b: &Bytes) -> (r: bool)
    ensures
        r == (bytes_seq(*a) == bytes_seq(*b)),
{
    slices_equal(bytes_slice(a), bytes_slice(b))
}

} // verus!
