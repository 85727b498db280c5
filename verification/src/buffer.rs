//! Raw payload buffers.
//!
//! Pre-serialized payloads travel as `bytes::Bytes`, a reference-counted
//! byte buffer that the verifier cannot look into. This module declares
//! the type and states, without proof, what the few calls made on it do.

use vstd::prelude::*;
use bytes::Bytes;

verus! {

/// Declares `bytes::Bytes` to the verifier as an opaque type.
#[verifier::external_type_specification]
#[verifier::external_body]
pub struct ExBytes(bytes::Bytes);

/// The bytes that a buffer holds, in order.
pub uninterp spec fn bytes_view(buffer: Bytes) -> Seq<u8>;

/// Calls `<Bytes as AsRef<[u8]>>::as_ref`. Trusted: the slice handed out is
/// the buffer's whole contents.
#[verifier::external_body]
pub(crate) fn bytes_as_slice(buffer: &Bytes) -> (slice: &[u8])
    ensures
        slice@ == bytes_view(*buffer),
{
    buffer.as_ref()
}

/// Calls `<Bytes as Clone>::clone`. Trusted: the new handle shows the same
/// contents as the one it was cloned from.
#[verifier::external_body]
pub(crate) fn bytes_clone(buffer: &Bytes) -> (copy: Bytes)
    ensures
        bytes_view(copy) == bytes_view(*buffer),
{
    buffer.clone()
}

} // verus!
