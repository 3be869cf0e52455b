//! What the byte buffers of the `bytes` crate hold: specifications for the
//! few operations that the serializer uses. None of them is proved here.

use bytes::Bytes;
use bytes::BytesMut;
use vstd::prelude::*;

verus! {

/// `bytes::BytesMut`, a growable byte buffer, known here by what it holds.
#[verifier::external_type_specification]
#[verifier::external_body]
pub struct ExBytesMut(BytesMut);

/// `bytes::Bytes`, a frozen byte buffer, known here by what it holds.
#[verifier::external_type_specification]
#[verifier::external_body]
pub struct ExBytes(Bytes);

/// The bytes that a growable buffer holds, in order.
pub uninterp spec fn buffer_contents(buffer: BytesMut) -> Seq<u8>;

/// The bytes that a frozen buffer holds, in order.
pub uninterp spec fn bytes_contents(bytes: Bytes) -> Seq<u8>;

/// `BytesMut::new` returns a buffer that holds no bytes.
pub assume_specification[ BytesMut::new ]() -> (buffer: BytesMut)
    ensures
        buffer_contents(buffer) == Seq::<u8>::empty(),
;

/// `BytesMut::extend_from_slice` appends the bytes of `extend` to the bytes
/// that the buffer held, and changes none of those.
pub assume_specification[ BytesMut::extend_from_slice ](buffer: &mut BytesMut, extend: &[u8])
    ensures
        buffer_contents(*final(buffer)) == buffer_contents(*old(buffer)) + extend@,
;

/// `BytesMut::freeze` hands the bytes of the buffer over unchanged.
pub assume_specification[ BytesMut::freeze ](buffer: BytesMut) -> (bytes: Bytes)
    ensures
        bytes_contents(bytes) == buffer_contents(buffer),
;

} // verus!
