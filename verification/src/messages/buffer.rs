//! The byte buffer between a connection and the codec: `bytes::BytesMut`.

use bytes::BufMut;
use vstd::prelude::*;

verus! {

/// The growable buffer of the `bytes` crate.
#[verifier::external_type_specification]
#[verifier::external_body]
pub struct ExBytesMut(bytes::BytesMut);

/// The bytes that a buffer holds, the oldest first.
pub uninterp spec fn buffered(buf: bytes::BytesMut) -> Seq<u8>;

/// The bytes of a buffer as a slice.
///
/// Calls the `Deref` of `bytes::BytesMut`, which hands out its contents.
#[verifier::external_body]
pub(crate) fn buffer_slice(buf: &bytes::BytesMut) -> (s: &[u8])
    ensures
        s@ == buffered(*buf),
{
    &buf[..]
}

/// Takes the first `at` bytes out of a buffer.
///
/// Calls `bytes::BytesMut::split_to`: the buffer keeps what follows, the result holds
/// what was taken. It panics where fewer bytes are there.
#[verifier::external_body]
pub(crate) fn buffer_split_to(buf: &mut bytes::BytesMut, at: usize) -> (taken: bytes::BytesMut)
    requires
        at <= buffered(*old(buf)).len(),
    ensures
        buffered(taken) == buffered(*old(buf)).take(at as int),
        buffered(*final(buf)) == buffered(*old(buf)).skip(at as int),
{
    buf.split_to(at)
}

/// Makes room for more bytes.
///
/// Calls `bytes::BytesMut::reserve`, which leaves the contents as they are. It panics
/// where the allocation would go beyond `isize::MAX` bytes. Of the allocation only the
/// contents and the room asked for are counted here; what a buffer has allocated besides
/// them is not stated.
#[verifier::external_body]
pub(crate) fn buffer_reserve(buf: &mut bytes::BytesMut, additional: usize)
    requires
        buffered(*old(buf)).len() + additional <= isize::MAX,
    ensures
        buffered(*final(buf)) == buffered(*old(buf)),
{
    buf.reserve(additional);
}

/// Appends bytes.
///
/// Calls the `put` of `bytes::BytesMut` with the bytes as a `bytes::Bytes`; they end up
/// behind those that were there. It panics where the allocation would go beyond
/// `isize::MAX` bytes, of which only the contents are counted here, as in
/// `buffer_reserve`.
#[verifier::external_body]
pub(crate) fn buffer_put(buf: &mut bytes::BytesMut, src: Vec<u8>)
    requires
        buffered(*old(buf)).len() + src@.len() <= isize::MAX,
    ensures
        buffered(*final(buf)) == buffered(*old(buf)) + src@,
{
    buf.put(bytes::Bytes::from(src));
}

} // verus!
