use vstd::prelude::*;

use crate::resp::frame::RespFrame;

use bytes::BytesMut;
use crate::resp::decode::{
    calc_total_length, decode_err, decode_ok, err_model, extract_fixed_data, null_array_pat_vec,
    parse_agg_slice, parse_length, pat_null_array, spec_expect_agg, spec_expect_fixed,
    spec_parse_agg, spec_parse_null_array, RespDecode, SpecErr,
};
use crate::resp::encode::{encode_items, spec_enc, RespEncode};
use crate::resp::frame::{dv_seq, lemma_dv_seq_len, FrameModel};
use crate::resp::{bm_advance, bm_bytes, bm_slice, RespError};

verus! {

/// Ordered children of a `*<n>\r\n...` frame.
#[derive(Debug, PartialEq)]
pub struct RespArray(pub Vec<RespFrame>);

/// The null array `*-1\r\n`.
#[derive(Debug, Clone, PartialEq)]
pub struct RespNullArray;

impl RespArray {
    pub fn new(v: Vec<RespFrame>) -> (r: Self)
        ensures
            r == (RespArray(v)),
    {
        RespArray(v)
    }
}

impl Clone for RespArray {
    /// The copy holds children that denote the same models.
    fn clone(&self) -> (r: Self)
        ensures
            crate::resp::frame::dv_seq(r.0@) == crate::resp::frame::dv_seq(self.0@),
    {
        RespArray(crate::resp::frame::clone_frames(&self.0))
    }
}


impl RespEncode for RespArray {
    open spec fn enc_model(&self) -> FrameModel {
        FrameModel::Array(dv_seq(self.0@))
    }

    fn encode(&self) -> (r: Vec<u8>) {
        let out = encode_items(42u8, &self.0);
        proof {
            lemma_dv_seq_len(self.0@);
            assert(out@ =~= spec_enc(self.enc_model()));
        }
        out
    }
}

impl RespEncode for RespNullArray {
    open spec fn enc_model(&self) -> FrameModel {
        FrameModel::NullArray
    }

    fn encode(&self) -> (r: Vec<u8>) {
        let mut out: Vec<u8> = Vec::new();
        out.push(42u8);
        out.push(45u8);
        out.push(49u8);
        out.push(13u8);
        out.push(10u8);
        proof {
            assert(out@ =~= spec_enc(self.enc_model()));
        }
        out
    }
}

impl RespDecode for RespArray {
    /// On success exactly the frame's bytes leave the buffer; on any error,
    /// none do.
    fn decode(buf: &mut BytesMut) -> (r: Result<Self, RespError>)
        ensures
            match r {
                Ok(v) => decode_ok(
                    spec_parse_agg(bm_bytes(*old(buf)), 42u8),
                    FrameModel::Array(dv_seq(v.0@)),
                    bm_bytes(*old(buf)),
                    bm_bytes(*final(buf)),
                ),
                Err(e) => decode_err(
                    spec_parse_agg(bm_bytes(*old(buf)), 42u8),
                    e,
                    bm_bytes(*old(buf)),
                    bm_bytes(*final(buf)),
                ),
            },
    {
        let s = bm_slice(buf);
        match parse_agg_slice(s, 42u8) {
            Ok((items, n)) => {
                bm_advance(buf, n);
                Ok(RespArray(items))
            },
            Err(e) => Err(e),
        }
    }

    fn expect_length(buf: &[u8]) -> (r: Result<usize, RespError>)
        ensures
            match r {
                Ok(n) => spec_expect_agg(buf@, 42u8, false) == Ok::<nat, SpecErr>(n as nat),
                Err(e) => spec_expect_agg(buf@, 42u8, false) == Err::<nat, SpecErr>(err_model(e)),
            },
    {
        match parse_length(buf, 42u8) {
            Err(e) => Err(e),
            Ok((end, n)) => calc_total_length(buf, end, n, 42u8),
        }
    }
}

impl RespDecode for RespNullArray {
    /// On success exactly the frame's bytes leave the buffer; on any error,
    /// none do.
    fn decode(buf: &mut BytesMut) -> (r: Result<Self, RespError>)
        ensures
            match r {
                Ok(_) => decode_ok(
                    spec_parse_null_array(bm_bytes(*old(buf))),
                    FrameModel::NullArray,
                    bm_bytes(*old(buf)),
                    bm_bytes(*final(buf)),
                ),
                Err(e) => decode_err(
                    spec_parse_null_array(bm_bytes(*old(buf))),
                    e,
                    bm_bytes(*old(buf)),
                    bm_bytes(*final(buf)),
                ),
            },
    {
        let s = bm_slice(buf);
        let pat = null_array_pat_vec();
        match extract_fixed_data(s, pat.as_slice()) {
            Ok(n) => {
                bm_advance(buf, n);
                Ok(RespNullArray)
            },
            Err(e) => Err(e),
        }
    }

    fn expect_length(buf: &[u8]) -> (r: Result<usize, RespError>)
        ensures
            match r {
                Ok(n) => spec_expect_fixed(buf@, pat_null_array()) == Ok::<nat, SpecErr>(n as nat),
                Err(e) => spec_expect_fixed(buf@, pat_null_array()) == Err::<nat, SpecErr>(
                    err_model(e),
                ),
            },
    {
        let pat = null_array_pat_vec();
        match extract_fixed_data(buf, pat.as_slice()) {
            Ok(n) => Ok(n),
            Err(e) => Err(e),
        }
    }
}

} // verus!
