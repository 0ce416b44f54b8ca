//! Trusted interface to the wire buffer type `bytes::BytesMut`.
//!
//! The decoder consumes bytes from the front of a `BytesMut` and the
//! encoder appends to its back.  The contents of a buffer are modeled by
//! the uninterpreted function `bytes_view`, and each operation the codec
//! relies on is wrapped in a function whose contract states, over that
//! model, what the `bytes` crate documents the operation to do.

use vstd::prelude::*;

verus! {

#[verifier::external_type_specification]
#[verifier::external_body]
pub struct ExBytesMut(bytes::BytesMut);

/// The sequence of readable bytes held by a `BytesMut`.
pub uninterp spec fn bytes_view(b: bytes::BytesMut) -> Seq<u8>;

/// Relies on `BytesMut`'s deref to `[u8]`: the readable bytes as a slice.
#[verifier::external_body]
pub(crate) fn buf_bytes(b: &bytes::BytesMut) -> (r: &[u8])
    ensures
        r@ == bytes_view(*b),
{
    &b[..]
}

/// Relies on `bytes::Buf::advance` for `BytesMut`: drops the first `n`
/// readable bytes.  It panics when `n` exceeds the readable length, so
/// that case is excluded here.
#[verifier::external_body]
pub(crate) fn buf_advance(b: &mut bytes::BytesMut, n: usize)
    requires
        n <= bytes_view(*old(b)).len(),
    ensures
        bytes_view(*final(b)) == bytes_view(*old(b)).skip(n as int),
{
    bytes::Buf::advance(b, n);
}

/// Relies on `BytesMut::extend_from_slice`: appends a copy of `s`.
#[verifier::external_body]
pub(crate) fn buf_extend(b: &mut bytes::BytesMut, s: &[u8])
    ensures
        bytes_view(*final(b)) == bytes_view(*old(b)) + s@,
{
    b.extend_from_slice(s);
}

} // verus!
