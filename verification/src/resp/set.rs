use vstd::prelude::*;

use crate::resp::frame::RespFrame;

use bytes::BytesMut;
use crate::resp::decode::{
    calc_total_length, decode_err, decode_ok, err_model, parse_agg_slice, parse_length,
    spec_expect_agg, spec_parse_agg, RespDecode, SpecErr,
};
use crate::resp::encode::{encode_items, spec_enc, RespEncode};
use crate::resp::frame::{dv_seq, lemma_dv_seq_len, FrameModel};
use crate::resp::{bm_advance, bm_bytes, bm_slice, RespError};

verus! {

/// Children of a `~<n>\r\n...` frame, kept in wire order.
#[derive(Debug, PartialEq)]
pub struct RespSet(pub Vec<RespFrame>);

impl RespSet {
    pub fn new(s: Vec<RespFrame>) -> (r: Self)
        ensures
            r == (RespSet(s)),
    {
        RespSet(s)
    }
}

impl Clone for RespSet {
    /// The copy holds children that denote the same models.
    fn clone(&self) -> (r: Self)
        ensures
            crate::resp::frame::dv_seq(r.0@) == crate::resp::frame::dv_seq(self.0@),
    {
        RespSet(crate::resp::frame::clone_frames(&self.0))
    }
}


impl RespEncode for RespSet {
    open spec fn enc_model(&self) -> FrameModel {
        FrameModel::SetFrame(dv_seq(self.0@))
    }

    fn encode(&self) -> (r: Vec<u8>) {
        let out = encode_items(126u8, &self.0);
        proof {
            lemma_dv_seq_len(self.0@);
            assert(out@ =~= spec_enc(self.enc_model()));
        }
        out
    }
}

impl RespDecode for RespSet {
    /// On success exactly the frame's bytes leave the buffer; on any error,
    /// none do.
    fn decode(buf: &mut BytesMut) -> (r: Result<Self, RespError>)
        ensures
            match r {
                Ok(v) => decode_ok(
                    spec_parse_agg(bm_bytes(*old(buf)), 126u8),
                    FrameModel::SetFrame(dv_seq(v.0@)),
                    bm_bytes(*old(buf)),
                    bm_bytes(*final(buf)),
                ),
                Err(e) => decode_err(
                    spec_parse_agg(bm_bytes(*old(buf)), 126u8),
                    e,
                    bm_bytes(*old(buf)),
                    bm_bytes(*final(buf)),
                ),
            },
    {
        let s = bm_slice(buf);
        match parse_agg_slice(s, 126u8) {
            Ok((items, n)) => {
                bm_advance(buf, n);
                Ok(RespSet(items))
            },
            Err(e) => Err(e),
        }
    }

    fn expect_length(buf: &[u8]) -> (r: Result<usize, RespError>)
        ensures
            match r {
                Ok(n) => spec_expect_agg(buf@, 126u8, false) == Ok::<nat, SpecErr>(n as nat),
                Err(e) => spec_expect_agg(buf@, 126u8, false) == Err::<nat, SpecErr>(err_model(e)),
            },
    {
        match parse_length(buf, 126u8) {
            Err(e) => Err(e),
            Ok((end, n)) => calc_total_length(buf, end, n, 126u8),
        }
    }
}

} // verus!
