//! The trusted boundary to the `bytes` crate.
//!
//! The decoder reads from a `bytes::BytesMut` and materialized frames own
//! `bytes::Bytes` handles.  Both types are opaque to the verifier; their
//! contents are named by the two uninterpreted view functions below, and a
//! small set of wrappers states what the crate's accessors return in terms
//! of those views.  Everything else in this crate is verified against them.
use vstd::prelude::*;

verus! {

#[verifier::external_type_specification]
#[verifier::external_body]
pub struct ExBytes(bytes::Bytes);

#[verifier::external_type_specification]
#[verifier::external_body]
pub struct ExBytesMut(bytes::BytesMut);

/// The byte contents of a `bytes::Bytes` handle.
pub uninterp spec fn bytes_view(b: bytes::Bytes) -> Seq<u8>;

/// The byte contents of a `bytes::BytesMut` buffer.
pub uninterp spec fn buf_view(b: bytes::BytesMut) -> Seq<u8>;

/// Relies on `BytesMut`'s `AsRef<[u8]>`: the full contents as a slice.
#[verifier::external_body]
pub fn buf_as_slice(buf: &bytes::BytesMut) -> (r: &[u8])
    ensures
        r@ == buf_view(*buf),
{
    buf.as_ref()
}

/// Relies on `Bytes`'s `AsRef<[u8]>`: the full contents as a slice.
#[verifier::external_body]
pub fn bytes_as_slice(b: &bytes::Bytes) -> (r: &[u8])
    ensures
        r@ == bytes_view(*b),
{
    b.as_ref()
}

/// Relies on `Bytes::from(Vec<u8>)`: the handle owns exactly the vector's bytes.
#[verifier::external_body]
pub fn bytes_from_vec(v: Vec<u8>) -> (r: bytes::Bytes)
    ensures
        bytes_view(r) == v@,
{
    bytes::Bytes::from(v)
}

/// Relies on `Bytes::clone`: a second handle to the same contents.
#[verifier::external_body]
pub fn bytes_clone(b: &bytes::Bytes) -> (r: bytes::Bytes)
    ensures
        bytes_view(r) == bytes_view(*b),
{
    b.clone()
}

} // verus!
