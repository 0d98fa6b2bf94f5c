//! The byte buffers of the transducer: `bytes::BytesMut`, seen through the
//! byte sequence that a buffer holds.

use vstd::prelude::*;
use bytes::BytesMut;

verus! {

/// `bytes::BytesMut`, a growable byte buffer; nothing inside it is read here.
#[verifier::external_type_specification]
#[verifier::external_body]
pub struct ExBytesMut(bytes::BytesMut);

/// The bytes that a buffer holds, front first.
pub uninterp spec fn held(buffer: BytesMut) -> Seq<u8>;

/// Trusted: `BytesMut::new`. The new buffer holds nothing.
#[verifier::external_body]
pub(crate) fn empty_buffer() -> (r: BytesMut)
    ensures
        held(r) == Seq::<u8>::empty(),
{
    BytesMut::new()
}

/// Trusted: `BytesMut::extend_from_slice`. The bytes join the end of the
/// buffer. The call panics where the new length overflows, which is left
/// out.
#[verifier::external_body]
pub(crate) fn append(buffer: &mut BytesMut, bytes: &[u8])
    requires
        held(*old(buffer)).len() + bytes@.len() <= usize::MAX,
    ensures
        held(*final(buffer)) == held(*old(buffer)) + bytes@,
{
    buffer.extend_from_slice(bytes)
}

/// Trusted: `BytesMut::split_to`. The first `at` bytes leave the buffer and
/// are returned; the rest stays. The call panics where `at` is over the
/// length, which is left out.
#[verifier::external_body]
pub(crate) fn split_front(buffer: &mut BytesMut, at: usize) -> (r: BytesMut)
    requires
        at <= held(*old(buffer)).len(),
    ensures
        held(r) == held(*old(buffer)).take(at as int),
        held(*final(buffer)) == held(*old(buffer)).skip(at as int),
{
    buffer.split_to(at)
}

/// Trusted: `BytesMut::as_ref`. The slice is what the buffer holds.
#[verifier::external_body]
pub(crate) fn contents(buffer: &BytesMut) -> (r: &[u8])
    ensures
        r@ == held(*buffer),
{
    buffer.as_ref()
}

} // verus!
