use vstd::prelude::*;

use bytes::BytesMut;
use crate::resp::decode::{
    decode_err, decode_ok, err_model, extract_fixed_data, null_pat_vec, pat_null,
    spec_expect_fixed, spec_parse_null, RespDecode, SpecErr,
};
use crate::resp::encode::{spec_enc, RespEncode};
use crate::resp::frame::FrameModel;
use crate::resp::{bm_advance, bm_bytes, bm_slice, RespError};

verus! {

/// The null frame `_\r\n`.
#[derive(Debug, Clone, PartialEq)]
pub struct RespNull;

impl RespNull {
    pub fn new() -> (r: Self)
        ensures
            r == (RespNull),
    {
        RespNull
    }
}


impl RespEncode for RespNull {
    open spec fn enc_model(&self) -> FrameModel {
        FrameModel::Null
    }

    fn encode(&self) -> (r: Vec<u8>) {
        let mut out: Vec<u8> = Vec::new();
        out.push(95u8);
        out.push(13u8);
        out.push(10u8);
        proof {
            assert(out@ =~= spec_enc(self.enc_model()));
        }
        out
    }
}

impl RespDecode for RespNull {
    /// On success exactly the frame's bytes leave the buffer; on any error,
    /// none do.
    fn decode(buf: &mut BytesMut) -> (r: Result<Self, RespError>)
        ensures
            match r {
                Ok(_) => decode_ok(
                    spec_parse_null(bm_bytes(*old(buf))),
                    FrameModel::Null,
                    bm_bytes(*old(buf)),
                    bm_bytes(*final(buf)),
                ),
                Err(e) => decode_err(
                    spec_parse_null(bm_bytes(*old(buf))),
                    e,
                    bm_bytes(*old(buf)),
                    bm_bytes(*final(buf)),
                ),
            },
    {
        let s = bm_slice(buf);
        let pat = null_pat_vec();
        match extract_fixed_data(s, pat.as_slice()) {
            Ok(n) => {
                bm_advance(buf, n);
                Ok(RespNull)
            },
            Err(e) => Err(e),
        }
    }

    fn expect_length(buf: &[u8]) -> (r: Result<usize, RespError>)
        ensures
            match r {
                Ok(n) => spec_expect_fixed(buf@, pat_null()) == Ok::<nat, SpecErr>(n as nat),
                Err(e) => spec_expect_fixed(buf@, pat_null()) == Err::<nat, SpecErr>(err_model(e)),
            },
    {
        let pat = null_pat_vec();
        match extract_fixed_data(buf, pat.as_slice()) {
            Ok(n) => Ok(n),
            Err(e) => Err(e),
        }
    }
}

} // verus!
