use vstd::prelude::*;

use bytes::BytesMut;

use crate::backend::Backend;
use crate::cmd::{
    executed, spec_command, utf8_error_text, Command, CommandError, CommandExecutor,
};
use crate::resp::decode::{decode_err, decode_ok, err_model, spec_parse, RespDecode, SpecErr};
use crate::resp::encode::{encode_frame, spec_enc};
use crate::resp::frame::{dv, FrameModel, RespFrame};
use crate::resp::simple_string::SimpleString;
use crate::resp::{bm_bytes, bm_extend, RespError};

verus! {

/// Frames in, frames out, over a growable byte buffer: the per-connection
/// codec state.
#[derive(Debug)]
pub struct RespFrameCodec {}

/// One parsed request frame, waiting to be handled.
#[derive(Debug)]
pub struct RedisRequest {
    pub frame: RespFrame,
}

/// One reply frame, waiting to be encoded and sent.
#[derive(Debug)]
pub struct RedisResponse {
    pub frame: RespFrame,
}

impl RespFrameCodec {
    /// Appends the frame's exact wire bytes to the outgoing buffer; this
    /// never fails.
    pub fn encode(&mut self, item: RespFrame, dst: &mut BytesMut) -> (r: Result<(), RespError>)
        ensures
            r is Ok,
            bm_bytes(*final(dst)) == bm_bytes(*old(dst)) + spec_enc(dv(item)),
    {
        let encoded = encode_frame(&item);
        bm_extend(dst, encoded.as_slice());
        Ok(())
    }

    /// Takes one whole frame off the front of the incoming buffer; a buffer
    /// that merely lacks bytes yields `None` and is left untouched, and every
    /// error leaves it untouched too.
    pub fn decode(&mut self, src: &mut BytesMut) -> (r: Result<Option<RespFrame>, RespError>)
        ensures
            match r {
                Ok(o) => match o {
                    Some(f) => decode_ok(
                        spec_parse(bm_bytes(*old(src))),
                        dv(f),
                        bm_bytes(*old(src)),
                        bm_bytes(*final(src)),
                    ),
                    None => spec_parse(bm_bytes(*old(src))) == Err::<(FrameModel, nat), SpecErr>(
                        SpecErr::NotComplete,
                    ) && bm_bytes(*final(src)) == bm_bytes(*old(src)),
                },
                Err(e) => decode_err(
                    spec_parse(bm_bytes(*old(src))),
                    e,
                    bm_bytes(*old(src)),
                    bm_bytes(*final(src)),
                ) && err_model(e) != SpecErr::NotComplete,
            },
    {
        match RespFrame::decode(src) {
            Ok(frame) => Ok(Some(frame)),
            Err(RespError::NotComplete) => Ok(None),
            Err(e) => Err(e),
        }
    }
}

/// "resp error", as bytes.
pub open spec fn resp_error_text() -> Seq<u8> {
    seq![114u8, 101u8, 115u8, 112u8, 32u8, 101u8, 114u8, 114u8, 111u8, 114u8]
}

/// The one-line reply text of a command rejection: the rejection's own
/// message where it carries one, a fixed text otherwise.
fn cmd_error_text(e: CommandError) -> (r: Vec<u8>)
    ensures
        r@ == (match e {
            CommandError::InvalidCommand(m) => m@,
            CommandError::InvalidArgument(m) => m@,
            CommandError::RespError(_) => resp_error_text(),
            CommandError::Utf8Error => utf8_error_text(),
        }),
{
    match e {
        CommandError::InvalidCommand(m) => m,
        CommandError::InvalidArgument(m) => m,
        CommandError::RespError(_) => {
            let mut t: Vec<u8> = Vec::new();
            t.push(114u8);  // r
            t.push(101u8);  // e
            t.push(115u8);  // s
            t.push(112u8);  // p
            t.push(32u8);
            t.push(101u8);  // e
            t.push(114u8);  // r
            t.push(114u8);  // r
            t.push(111u8);  // o
            t.push(114u8);  // r
            proof {
                assert(t@ =~= resp_error_text());
            }
            t
        },
        CommandError::Utf8Error => {
            let mut t: Vec<u8> = Vec::new();
            t.push(85u8);  // U
            t.push(84u8);  // T
            t.push(70u8);  // F
            t.push(56u8);  // 8
            t.push(32u8);
            t.push(101u8);  // e
            t.push(114u8);  // r
            t.push(114u8);  // r
            t.push(111u8);  // o
            t.push(114u8);  // r
            proof {
                assert(t@ =~= utf8_error_text());
            }
            t
        },
    }
}

/// The text of the reply sent for a codec error: the error's own message
/// where it carries one, and a fixed complaint otherwise.
pub open spec fn err_reply_text(e: RespError) -> Seq<u8> {
    match e {
        RespError::InvalidFrame(m) => m@,
        RespError::InvalidFrameType(m) => m@,
        _ => bad_frame_text(),
    }
}

/// "bad frame", as bytes.
pub open spec fn bad_frame_text() -> Seq<u8> {
    seq![98u8, 97u8, 100u8, 32u8, 102u8, 114u8, 97u8, 109u8, 101u8]
}

/// The one-line reply frame sent for a codec error: a SimpleString carrying
/// exactly the error's text, as the connection loop answers a malformed
/// frame.
pub fn resp_error_reply(e: RespError) -> (r: RespFrame)
    ensures
        dv(r) == FrameModel::SimpleString(err_reply_text(e)),
{
    let text: Vec<u8> = match e {
        RespError::InvalidFrame(m) => m,
        RespError::InvalidFrameType(m) => m,
        _ => {
            let mut t: Vec<u8> = Vec::new();
            t.push(98u8);  // b
            t.push(97u8);  // a
            t.push(100u8);  // d
            t.push(32u8);
            t.push(102u8);  // f
            t.push(114u8);  // r
            t.push(97u8);  // a
            t.push(109u8);  // m
            t.push(101u8);  // e
            proof {
                assert(t@ =~= bad_frame_text());
            }
            t
        },
    };
    RespFrame::SimpleString(SimpleString(text))
}

/// Handles one request frame against the store: a well-formed command is
/// executed and its reply returned; a rejected one leaves the store alone and
/// is answered with a SimpleString carrying exactly the rejection's text.
pub fn request_handler(request: RedisRequest, backend: &mut Backend) -> (r: RedisResponse)
    ensures
        match spec_command(dv(request.frame)) {
            Ok(cm) => executed(
                cm,
                old(backend).kv(),
                old(backend).hkv(),
                final(backend).kv(),
                final(backend).hkv(),
                dv(r.frame),
            ),
            Err(ce) => final(backend).kv() == old(backend).kv() && final(backend).hkv() == old(
                backend,
            ).hkv() && dv(r.frame) == FrameModel::SimpleString(ce.text),
        },
{
    match Command::try_from(request.frame) {
        Ok(cmd) => match cmd.execute(backend) {
            Ok(frame) => RedisResponse { frame },
            Err(_) => {
                proof {
                    assert(false);
                }
                RedisResponse { frame: crate::cmd::resp_ok() }
            },
        },
        Err(e) => RedisResponse { frame: RespFrame::SimpleString(SimpleString(cmd_error_text(e))) },
    }
}

} // verus!
