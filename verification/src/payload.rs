// SPDX-License-Identifier: Apache-2.0
//! Sample payloads as shared byte buffers, from the `bytes` crate.

use bytes::Bytes;
use vstd::prelude::*;

verus! {

/// `bytes::Bytes`: nothing is known of a buffer but what the functions below
/// say.
#[verifier::external_type_specification]
#[verifier::external_body]
pub struct ExBytes(bytes::Bytes);

/// The bytes that a buffer holds.
pub uninterp spec fn content(buffer: bytes::Bytes) -> Seq<u8>;

/// `bytes::Bytes::new`: an empty buffer.
pub assume_specification[ bytes::Bytes::new ]() -> (buffer: bytes::Bytes)
    ensures
        content(buffer) == Seq::<u8>::empty(),
;

/// `bytes::Bytes::copy_from_slice`: a buffer that holds a copy of `data`.
pub assume_specification[ bytes::Bytes::copy_from_slice ](data: &[u8]) -> (buffer: bytes::Bytes)
    ensures
        content(buffer) == data@,
;

/// `bytes::Bytes::len`: how many bytes the buffer holds.
pub assume_specification[ bytes::Bytes::len ](buffer: &bytes::Bytes) -> (len: usize)
    ensures
        len == content(*buffer).len(),
;

/// `<bytes::Bytes as From<Vec<u8>>>::from`: a buffer that takes over the bytes
/// of `data`.
#[verifier::external_body]
pub(crate) fn from_vec(data: Vec<u8>) -> (buffer: Bytes)
    ensures
        content(buffer) == data@,
{
    Bytes::from(data)
}

/// `<bytes::Bytes as Deref>::deref`: the bytes of the buffer, in place.
#[verifier::external_body]
pub(crate) fn as_slice(buffer: &Bytes) -> (data: &[u8])
    ensures
        data@ == content(*buffer),
{
    buffer
}

} // verus!
