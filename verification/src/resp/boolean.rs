use vstd::prelude::*;

use bytes::BytesMut;

use crate::resp::decode::{
    bool_f_pat_vec, bool_t_pat_vec, decode_err, decode_ok, err_model, extract_fixed_data,
    parse_bool_slice, spec_expect_bool, spec_parse_bool, RespDecode, SpecErr,
};
use crate::resp::encode::{spec_enc, RespEncode};
use crate::resp::frame::FrameModel;
use crate::resp::{bm_advance, bm_bytes, bm_slice, RespError};

verus! {

impl RespEncode for bool {
    open spec fn enc_model(&self) -> FrameModel {
        FrameModel::Boolean(*self)
    }

    fn encode(&self) -> (r: Vec<u8>) {
        let mut out: Vec<u8> = Vec::new();
        out.push(35u8);
        if *self {
            out.push(116u8);
        } else {
            out.push(102u8);
        }
        out.push(13u8);
        out.push(10u8);
        proof {
            assert(out@ =~= spec_enc(self.enc_model()));
        }
        out
    }
}

impl RespDecode for bool {
    /// On success exactly the frame's bytes leave the buffer; on any error,
    /// none do.
    fn decode(buf: &mut BytesMut) -> (r: Result<Self, RespError>)
        ensures
            match r {
                Ok(v) => decode_ok(
                    spec_parse_bool(bm_bytes(*old(buf))),
                    FrameModel::Boolean(v),
                    bm_bytes(*old(buf)),
                    bm_bytes(*final(buf)),
                ),
                Err(e) => decode_err(
                    spec_parse_bool(bm_bytes(*old(buf))),
                    e,
                    bm_bytes(*old(buf)),
                    bm_bytes(*final(buf)),
                ),
            },
    {
        let s = bm_slice(buf);
        match parse_bool_slice(s) {
            Ok((v, n)) => {
                bm_advance(buf, n);
                Ok(v)
            },
            Err(e) => Err(e),
        }
    }

    fn expect_length(buf: &[u8]) -> (r: Result<usize, RespError>)
        ensures
            match r {
                Ok(n) => spec_expect_bool(buf@) == Ok::<nat, SpecErr>(n as nat),
                Err(e) => spec_expect_bool(buf@) == Err::<nat, SpecErr>(err_model(e)),
            },
    {
        let tp = bool_t_pat_vec();
        match extract_fixed_data(buf, tp.as_slice()) {
            Ok(n) => Ok(n),
            Err(RespError::NotComplete) => Err(RespError::NotComplete),
            Err(_) => {
                let fp = bool_f_pat_vec();
                match extract_fixed_data(buf, fp.as_slice()) {
                    Ok(n) => Ok(n),
                    Err(e) => Err(e),
                }
            },
        }
    }
}

} // verus!
