use vstd::prelude::*;

use bytes::BytesMut;

use crate::resp::decode::{
    decode_err, decode_ok, err_model, extract_simple_frame_data, parse_int_slice,
    spec_expect_simple, spec_parse_integer, RespDecode, SpecErr,
};
use crate::resp::encode::{extend_bytes, i64_to_dec, spec_enc, RespEncode};
use crate::resp::frame::FrameModel;
use crate::resp::{bm_advance, bm_bytes, bm_slice, RespError};

verus! {

impl RespEncode for i64 {
    open spec fn enc_model(&self) -> FrameModel {
        FrameModel::Integer(*self as int)
    }

    fn encode(&self) -> (r: Vec<u8>) {
        let mut out: Vec<u8> = Vec::new();
        out.push(58u8);
        let d = i64_to_dec(*self);
        extend_bytes(&mut out, d.as_slice());
        out.push(13u8);
        out.push(10u8);
        proof {
            assert(out@ =~= spec_enc(self.enc_model()));
        }
        out
    }
}

impl RespDecode for i64 {
    /// On success exactly the frame's bytes leave the buffer; on any error,
    /// none do.
    fn decode(buf: &mut BytesMut) -> (r: Result<Self, RespError>)
        ensures
            match r {
                Ok(v) => decode_ok(
                    spec_parse_integer(bm_bytes(*old(buf))),
                    FrameModel::Integer(v as int),
                    bm_bytes(*old(buf)),
                    bm_bytes(*final(buf)),
                ),
                Err(e) => decode_err(
                    spec_parse_integer(bm_bytes(*old(buf))),
                    e,
                    bm_bytes(*old(buf)),
                    bm_bytes(*final(buf)),
                ),
            },
    {
        let s = bm_slice(buf);
        match parse_int_slice(s) {
            Ok((v, n)) => {
                bm_advance(buf, n);
                Ok(v)
            },
            Err(e) => Err(e),
        }
    }

    fn expect_length(buf: &[u8]) -> (r: Result<usize, RespError>)
        ensures
            match r {
                Ok(n) => spec_expect_simple(buf@, 58u8) == Ok::<nat, SpecErr>(n as nat),
                Err(e) => spec_expect_simple(buf@, 58u8) == Err::<nat, SpecErr>(err_model(e)),
            },
    {
        match extract_simple_frame_data(buf, 58u8) {
            Ok(end) => Ok(end + 2),
            Err(e) => Err(e),
        }
    }
}

} // verus!
