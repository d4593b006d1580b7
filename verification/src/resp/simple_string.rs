use vstd::prelude::*;

use bytes::BytesMut;
use crate::resp::decode::{
    decode_err, decode_ok, extract_simple_frame_data, parse_ss_slice, spec_expect_simple,
    spec_parse_simple_string, RespDecode, SpecErr,
};
use crate::resp::encode::{extend_bytes, spec_enc, RespEncode};
use crate::resp::frame::FrameModel;
use crate::resp::{bm_advance, bm_bytes, bm_slice, RespError};

verus! {

/// Payload of a `+...\r\n` frame: UTF-8 text that carries no CR or LF.
#[derive(Debug, Clone, PartialEq)]
pub struct SimpleString(pub Vec<u8>);

impl SimpleString {
    pub fn new(s: Vec<u8>) -> (r: Self)
        ensures
            r == (SimpleString(s)),
    {
        SimpleString(s)
    }
}


impl RespEncode for SimpleString {
    open spec fn enc_model(&self) -> FrameModel {
        FrameModel::SimpleString(self.0@)
    }

    fn encode(&self) -> (r: Vec<u8>) {
        let mut out: Vec<u8> = Vec::new();
        out.push(43u8);
        extend_bytes(&mut out, self.0.as_slice());
        out.push(13u8);
        out.push(10u8);
        proof {
            assert(out@ =~= spec_enc(self.enc_model()));
        }
        out
    }
}

impl RespDecode for SimpleString {
    /// On success exactly the frame's bytes leave the buffer; on any error,
    /// none do.
    fn decode(buf: &mut BytesMut) -> (r: Result<Self, RespError>)
        ensures
            match r {
                Ok(v) => decode_ok(
                    spec_parse_simple_string(bm_bytes(*old(buf))),
                    FrameModel::SimpleString(v.0@),
                    bm_bytes(*old(buf)),
                    bm_bytes(*final(buf)),
                ),
                Err(e) => decode_err(
                    spec_parse_simple_string(bm_bytes(*old(buf))),
                    e,
                    bm_bytes(*old(buf)),
                    bm_bytes(*final(buf)),
                ),
            },
    {
        let s = bm_slice(buf);
        match parse_ss_slice(s) {
            Ok((v, n)) => {
                bm_advance(buf, n);
                Ok(v)
            },
            Err(e) => Err(e),
        }
    }

    fn expect_length(buf: &[u8]) -> (r: Result<usize, RespError>)
        ensures
            match r {
                Ok(n) => spec_expect_simple(buf@, 43u8) == Ok::<nat, SpecErr>(n as nat),
                Err(e) => spec_expect_simple(buf@, 43u8) == Err::<nat, SpecErr>(
                    crate::resp::decode::err_model(e),
                ),
            },
    {
        match extract_simple_frame_data(buf, 43u8) {
            Ok(end) => Ok(end + 2),
            Err(e) => Err(e),
        }
    }
}

} // verus!
