//! The receive buffer: `bytes::BytesMut`, seen by the verifier through the
//! sequence of bytes it holds.

use vstd::prelude::*;
use bytes::BytesMut;

verus! {

/// `bytes::BytesMut`, opaque to the verifier.
#[verifier::external_type_specification]
#[verifier::external_body]
pub struct ExBytesMut(bytes::BytesMut);

/// The bytes that a buffer holds, first to last.
pub uninterp spec fn buffer_bytes(buf: BytesMut) -> Seq<u8>;

/// `BytesMut`'s `Deref` to `[u8]`: the slice holds exactly the buffer's
/// bytes, in order.
#[verifier::external_body]
pub(crate) fn buffer_as_slice(buf: &BytesMut) -> (s: &[u8])
    ensures
        s@ == buffer_bytes(*buf),
{
    &buf[..]
}

/// `BytesMut::split_to`: the result holds the first `at` bytes and the
/// buffer keeps the rest. The call panics when `at` exceeds the length,
/// which the precondition excludes.
#[verifier::external_body]
pub(crate) fn buffer_split_to(buf: &mut BytesMut, at: usize) -> (head: BytesMut)
    requires
        at <= buffer_bytes(*old(buf)).len(),
    ensures
        buffer_bytes(head) == buffer_bytes(*old(buf)).subrange(0, at as int),
        buffer_bytes(*final(buf)) == buffer_bytes(*old(buf)).subrange(
            at as int,
            buffer_bytes(*old(buf)).len() as int,
        ),
{
    buf.split_to(at)
}

} // verus!
