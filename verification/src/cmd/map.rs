use vstd::prelude::*;

use crate::backend::Backend;
use crate::cmd::{
    err_matches, extract_args, invalid_argument_msg, is_utf8_exec, names_model, resp_ok,
    spec_get_cmd, spec_set_cmd, validate_command, verb_get, verb_get_vec, verb_set, verb_set_vec,
    CmdErr, CommandError, CommandExecutor, Get, SetCmd,
};
use crate::resp::array::RespArray;
use crate::resp::frame::{dv, dv_seq, lemma_dv_seq_index, lemma_dv_seq_len, FrameModel, RespFrame};
use crate::resp::null::RespNull;

verus! {

impl Get {
    /// Builds a `GET` from `["get", key]`, matched case-insensitively, with a
    /// UTF-8 key.
    pub fn try_from(value: RespArray) -> (r: Result<Get, CommandError>)
        ensures
            match r {
                Ok(g) => spec_get_cmd(dv_seq(value.0@)) == Ok::<Seq<u8>, CmdErr>(g.key@),
                Err(e) => spec_get_cmd(dv_seq(value.0@)) matches Err(ce) && err_matches(e, ce),
            },
    {
        let ghost frames = dv_seq(value.0@);
        proof {
            lemma_dv_seq_len(value.0@);
        }
        let mut names: Vec<Vec<u8>> = Vec::new();
        names.push(verb_get_vec());
        proof {
            assert(names_model(names@) =~= seq![verb_get()]);
        }
        match validate_command(&value, names.as_slice(), 1) {
            Err(e) => {
                return Err(e);
            },
            Ok(_) => {},
        }
        let mut args = match extract_args(value, 1) {
            Ok(a) => a,
            Err(e) => {
                proof {
                    assert(false);
                }
                return Err(e);
            },
        };
        proof {
            lemma_dv_seq_index(value.0@, 1);
        }
        let first = args.remove(0);
        match first {
            RespFrame::BulkString(b) => {
                if is_utf8_exec(b.0.as_slice()) {
                    Ok(Get { key: b.0 })
                } else {
                    Err(CommandError::Utf8Error)
                }
            },
            _ => Err(CommandError::InvalidArgument(invalid_argument_msg())),
        }
    }
}

impl SetCmd {
    /// Builds a `SET` from `["set", key, value]`, matched case-insensitively,
    /// with a UTF-8 key; the value is any frame.
    pub fn try_from(value: RespArray) -> (r: Result<SetCmd, CommandError>)
        ensures
            match r {
                Ok(s) => spec_set_cmd(dv_seq(value.0@)) == Ok::<(Seq<u8>, FrameModel), CmdErr>(
                    (s.key@, dv(s.value)),
                ),
                Err(e) => spec_set_cmd(dv_seq(value.0@)) matches Err(ce) && err_matches(e, ce),
            },
    {
        let ghost frames = dv_seq(value.0@);
        proof {
            lemma_dv_seq_len(value.0@);
        }
        let mut names: Vec<Vec<u8>> = Vec::new();
        names.push(verb_set_vec());
        proof {
            assert(names_model(names@) =~= seq![verb_set()]);
        }
        match validate_command(&value, names.as_slice(), 2) {
            Err(e) => {
                return Err(e);
            },
            Ok(_) => {},
        }
        let mut args = match extract_args(value, 1) {
            Ok(a) => a,
            Err(e) => {
                proof {
                    assert(false);
                }
                return Err(e);
            },
        };
        proof {
            lemma_dv_seq_index(value.0@, 1);
            lemma_dv_seq_index(value.0@, 2);
        }
        let first = args.remove(0);
        let second = args.remove(0);
        match first {
            RespFrame::BulkString(b) => {
                if is_utf8_exec(b.0.as_slice()) {
                    Ok(SetCmd { key: b.0, value: second })
                } else {
                    Err(CommandError::Utf8Error)
                }
            },
            _ => Err(CommandError::InvalidArgument(invalid_argument_msg())),
        }
    }
}

impl CommandExecutor for Get {
    /// Replies with the stored frame, or Null on a miss; the store is only
    /// read.
    fn execute(self, backend: &mut Backend) -> (r: Result<RespFrame, CommandError>)
        ensures
            final(backend).kv() == old(backend).kv(),
            final(backend).hkv() == old(backend).hkv(),
            r matches Ok(f) && dv(f) == (if old(backend).kv().contains_key(self.key@) {
                old(backend).kv()[self.key@]
            } else {
                FrameModel::Null
            }),
    {
        match backend.get(self.key.as_slice()) {
            Some(f) => Ok(f),
            None => Ok(RespFrame::Null(RespNull)),
        }
    }
}

impl CommandExecutor for SetCmd {
    /// Stores the value under the key and replies `+OK\r\n`.
    fn execute(self, backend: &mut Backend) -> (r: Result<RespFrame, CommandError>)
        ensures
            final(backend).kv() == old(backend).kv().insert(self.key@, dv(self.value)),
            final(backend).hkv() == old(backend).hkv(),
            r matches Ok(f) && dv(f) == FrameModel::SimpleString(seq![79u8, 75u8]),
    {
        backend.set(self.key, self.value);
        Ok(resp_ok())
    }
}

} // verus!
