//! Request bodies, held in the `bytes` crate's shared byte buffer.
use bytes::Bytes;
use vstd::prelude::*;

verus! {

#[verifier::external_type_specification]
#[verifier::external_body]
pub struct ExBytes(Bytes);

/// The bytes that a `Bytes` buffer holds, in order.
pub uninterp spec fn bytes_contents(b: Bytes) -> Seq<u8>;

/// `Bytes::from(String)`: a buffer that takes over the string's UTF-8 bytes.
#[verifier::external_body]
pub(crate) fn bytes_from_string(s: String) -> (b: Bytes)
    ensures
        bytes_contents(b) == vstd::utf8::encode_utf8(s@),
{
    Bytes::from(s)
}

} // verus!
