//! Growable byte buffers of the `bytes` crate, as the packet writer uses them.

use vstd::prelude::*;

use bytes::BytesMut;

verus! {

#[verifier::external_type_specification]
#[verifier::external_body]
pub struct ExBytesMut(bytes::BytesMut);

/// The bytes that a `BytesMut` holds, in order.
pub uninterp spec fn bytes_mut_contents(buf: BytesMut) -> Seq<u8>;

/// `BytesMut::new`: an empty buffer.
#[verifier::external_body]
pub fn bytes_mut_new() -> (buf: BytesMut)
    ensures
        bytes_mut_contents(buf) == Seq::<u8>::empty(),
{
    BytesMut::new()
}

/// `BytesMut::extend_from_slice`: appends the bytes of `extend` at the end.
/// It panics when the new length overflows; `requires` keeps the length
/// within `isize::MAX`, the most that an allocation may hold.
#[verifier::external_body]
pub fn bytes_mut_extend(buf: &mut BytesMut, extend: &[u8])
    requires
        bytes_mut_contents(*old(buf)).len() + extend@.len() <= isize::MAX,
    ensures
        bytes_mut_contents(*final(buf)) == bytes_mut_contents(*old(buf)) + extend@,
{
    buf.extend_from_slice(extend)
}

} // verus!
