pub mod array;
pub mod boolean;
pub mod bulk_string;
pub mod double;
pub mod decode;
pub mod encode;
pub mod frame;
pub mod integer;
pub mod laws;
pub mod map;
pub mod null;
pub mod set;
pub mod simple_error;
pub mod simple_string;

use bytes::BytesMut;
use vstd::prelude::*;

verus! {

#[verifier::external_type_specification]
#[verifier::external_body]
pub struct ExBytesMut(BytesMut);

/// What the buffer holds, front to back.
pub uninterp spec fn bm_bytes(b: BytesMut) -> Seq<u8>;

/// Relies on bytes::BytesMut's Deref to `[u8]`: the slice is the buffer's
/// whole contents.
#[verifier::external_body]
pub(crate) fn bm_slice(b: &BytesMut) -> (r: &[u8])
    ensures
        r@ == bm_bytes(*b),
{
    &b[..]
}

/// Relies on bytes::Buf::advance for BytesMut: it discards the first `cnt`
/// bytes and keeps the rest (it panics when `cnt` exceeds the length, which
/// the precondition rules out).
#[verifier::external_body]
pub(crate) fn bm_advance(b: &mut BytesMut, cnt: usize)
    requires
        cnt <= bm_bytes(*old(b)).len(),
    ensures
        bm_bytes(*final(b)) == bm_bytes(*old(b)).skip(cnt as int),
{
    bytes::Buf::advance(b, cnt);
}

/// Relies on bytes::BytesMut::extend_from_slice: it appends the bytes at the
/// back.
#[verifier::external_body]
pub(crate) fn bm_extend(b: &mut BytesMut, s: &[u8])
    ensures
        bm_bytes(*final(b)) == bm_bytes(*old(b)) + s@,
{
    b.extend_from_slice(s);
}

/// Everything that can go wrong while decoding one RESP frame from a byte
/// buffer. `NotComplete` is not a failure: it asks the caller to read more
/// bytes and try again.
#[derive(Debug, Clone, PartialEq)]
pub enum RespError {
    InvalidFrame(Vec<u8>),
    InvalidFrameType(Vec<u8>),
    InvalidFrameLength(i64),
    NotComplete,
    ParseIntError,
    ParseFloatError,
    Utf8Error,
}

} // verus!
