//! The parser's byte buffer, held in `bytes::BytesMut`, and frozen bodies in
//! `bytes::Bytes`. What each holds is named by a spec function; the wrappers
//! below state over those names what each call of the `bytes` crate does.

use vstd::prelude::*;

verus! {

#[verifier::external_type_specification]
#[verifier::external_body]
pub struct ExBytesMut(bytes::BytesMut);

#[verifier::external_type_specification]
#[verifier::external_body]
pub struct ExBytes(bytes::Bytes);

/// The bytes held by a growable buffer.
pub uninterp spec fn buffered(b: bytes::BytesMut) -> Seq<u8>;

/// The bytes held by a frozen, shareable byte string.
pub uninterp spec fn frozen(b: bytes::Bytes) -> Seq<u8>;

/// Relies on `BytesMut::new`: an empty buffer.
#[verifier::external_body]
pub(crate) fn new_buffer() -> (r: bytes::BytesMut)
    ensures
        buffered(r) == Seq::<u8>::empty(),
{
    bytes::BytesMut::new()
}

/// Relies on `BytesMut`'s `Deref` to `[u8]`: the buffered bytes, in order.
#[verifier::external_body]
pub(crate) fn contents(b: &bytes::BytesMut) -> (r: &[u8])
    ensures
        r@ == buffered(*b),
{
    &b[..]
}

/// Relies on `BytesMut::extend_from_slice`: appends the bytes of `extend`
/// (it panics when the capacity would pass `isize::MAX`).
#[verifier::external_body]
pub(crate) fn append(b: &mut bytes::BytesMut, extend: &[u8])
    requires
        buffered(*old(b)).len() + extend@.len() <= isize::MAX,
    ensures
        buffered(*final(b)) == buffered(*old(b)) + extend@,
{
    b.extend_from_slice(extend)
}

/// Relies on `Buf::advance` for `BytesMut`: drops the first `cnt` bytes (it panics
/// when `cnt` passes the length).
#[verifier::external_body]
pub(crate) fn discard(b: &mut bytes::BytesMut, cnt: usize)
    requires
        cnt <= buffered(*old(b)).len(),
    ensures
        buffered(*final(b)) == buffered(*old(b)).subrange(cnt as int, buffered(*old(b)).len() as int),
{
    bytes::Buf::advance(b, cnt)
}

/// Relies on `BytesMut::split_to` and `BytesMut::freeze`: takes the first `at` bytes
/// off the buffer as an immutable `Bytes` (`split_to` panics when `at` passes the
/// length).
#[verifier::external_body]
pub(crate) fn take_front(b: &mut bytes::BytesMut, at: usize) -> (r: bytes::Bytes)
    requires
        at <= buffered(*old(b)).len(),
    ensures
        frozen(r) == buffered(*old(b)).subrange(0, at as int),
        buffered(*final(b)) == buffered(*old(b)).subrange(at as int, buffered(*old(b)).len() as int),
{
    b.split_to(at).freeze()
}

} // verus!
