use vstd::prelude::*;

use bytes::BytesMut;
use crate::resp::decode::{
    decode_err, decode_ok, err_model, extract_fixed_data, null_bulk_pat_vec, parse_bulk_slice,
    parse_length, pat_null_bulk, spec_expect_bulk, spec_expect_fixed, spec_parse_bulk,
    spec_parse_null_bulk, RespDecode, SpecErr,
};
use crate::resp::encode::{extend_bytes, spec_enc, usize_to_dec, RespEncode};
use crate::resp::frame::FrameModel;
use crate::resp::{bm_advance, bm_bytes, bm_slice, RespError};

verus! {

/// Payload of a `$<len>\r\n...\r\n` frame: arbitrary bytes, CRLF included.
#[derive(Debug, Clone, PartialEq)]
pub struct BulkString(pub Vec<u8>);

/// The null bulk string `$-1\r\n`.
#[derive(Debug, Clone, PartialEq)]
pub struct RespNullBulkString;

impl BulkString {
    pub fn new(s: Vec<u8>) -> (r: Self)
        ensures
            r == (BulkString(s)),
    {
        BulkString(s)
    }
}


impl RespEncode for BulkString {
    open spec fn enc_model(&self) -> FrameModel {
        FrameModel::BulkString(self.0@)
    }

    fn encode(&self) -> (r: Vec<u8>) {
        let mut out: Vec<u8> = Vec::new();
        out.push(36u8);
        let d = usize_to_dec(self.0.len());
        extend_bytes(&mut out, d.as_slice());
        out.push(13u8);
        out.push(10u8);
        extend_bytes(&mut out, self.0.as_slice());
        out.push(13u8);
        out.push(10u8);
        proof {
            assert(out@ =~= spec_enc(self.enc_model()));
        }
        out
    }
}

impl RespEncode for RespNullBulkString {
    open spec fn enc_model(&self) -> FrameModel {
        FrameModel::NullBulkString
    }

    fn encode(&self) -> (r: Vec<u8>) {
        let mut out: Vec<u8> = Vec::new();
        out.push(36u8);
        out.push(45u8);
        out.push(49u8);
        out.push(13u8);
        out.push(10u8);
        proof {
            assert(out@ =~= spec_enc(self.enc_model()));
        }
        out
    }
}

impl RespDecode for BulkString {
    /// On success exactly the frame's bytes leave the buffer; on any error,
    /// none do.
    fn decode(buf: &mut BytesMut) -> (r: Result<Self, RespError>)
        ensures
            match r {
                Ok(v) => decode_ok(
                    spec_parse_bulk(bm_bytes(*old(buf))),
                    FrameModel::BulkString(v.0@),
                    bm_bytes(*old(buf)),
                    bm_bytes(*final(buf)),
                ),
                Err(e) => decode_err(
                    spec_parse_bulk(bm_bytes(*old(buf))),
                    e,
                    bm_bytes(*old(buf)),
                    bm_bytes(*final(buf)),
                ),
            },
    {
        let s = bm_slice(buf);
        match parse_bulk_slice(s) {
            Ok((v, n)) => {
                bm_advance(buf, n);
                Ok(v)
            },
            Err(e) => Err(e),
        }
    }

    fn expect_length(buf: &[u8]) -> (r: Result<usize, RespError>)
        ensures
            match r {
                Ok(n) => spec_expect_bulk(buf@) == Ok::<nat, SpecErr>(n as nat),
                Err(e) => spec_expect_bulk(buf@) == Err::<nat, SpecErr>(err_model(e)),
            },
    {
        match parse_length(buf, 36u8) {
            Err(e) => Err(e),
            Ok((end, n)) => {
                let avail = buf.len() - (end + 2);
                if avail < 2 || n > avail - 2 {
                    Err(RespError::NotComplete)
                } else {
                    Ok(end + 2 + n + 2)
                }
            },
        }
    }
}

impl RespDecode for RespNullBulkString {
    /// On success exactly the frame's bytes leave the buffer; on any error,
    /// none do.
    fn decode(buf: &mut BytesMut) -> (r: Result<Self, RespError>)
        ensures
            match r {
                Ok(_) => decode_ok(
                    spec_parse_null_bulk(bm_bytes(*old(buf))),
                    FrameModel::NullBulkString,
                    bm_bytes(*old(buf)),
                    bm_bytes(*final(buf)),
                ),
                Err(e) => decode_err(
                    spec_parse_null_bulk(bm_bytes(*old(buf))),
                    e,
                    bm_bytes(*old(buf)),
                    bm_bytes(*final(buf)),
                ),
            },
    {
        let s = bm_slice(buf);
        let pat = null_bulk_pat_vec();
        match extract_fixed_data(s, pat.as_slice()) {
            Ok(n) => {
                bm_advance(buf, n);
                Ok(RespNullBulkString)
            },
            Err(e) => Err(e),
        }
    }

    fn expect_length(buf: &[u8]) -> (r: Result<usize, RespError>)
        ensures
            match r {
                Ok(n) => spec_expect_fixed(buf@, pat_null_bulk()) == Ok::<nat, SpecErr>(n as nat),
                Err(e) => spec_expect_fixed(buf@, pat_null_bulk()) == Err::<nat, SpecErr>(
                    err_model(e),
                ),
            },
    {
        let pat = null_bulk_pat_vec();
        match extract_fixed_data(buf, pat.as_slice()) {
            Ok(n) => Ok(n),
            Err(e) => Err(e),
        }
    }
}

} // verus!
