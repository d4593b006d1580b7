pub mod hmap;
pub mod map;

use vstd::prelude::*;

use crate::resp::array::RespArray;
use crate::resp::double::lower_byte;
use crate::resp::encode::{dec_digits, extend_bytes, usize_to_dec};
use crate::resp::frame::{dv, dv_seq, lemma_dv_seq_index, lemma_dv_seq_len, FrameModel, RespFrame};
use crate::backend::Backend;
use crate::resp::map::{bytes_eq, bytes_lt};
use crate::resp::simple_string::SimpleString;
use crate::resp::RespError;

verus! {

/// Everything the command layer can reject: a verb that is not known or not
/// where it should stand, a wrong argument count or shape, a codec error
/// carried through, or a key that is not UTF-8.
#[derive(Debug)]
pub enum CommandError {
    InvalidCommand(Vec<u8>),
    InvalidArgument(Vec<u8>),
    RespError(RespError),
    Utf8Error,
}

/// The rejection classes the command layer can answer with.
pub enum CmdErrKind {
    InvalidCommand,
    InvalidArgument,
    Utf8,
}

/// One command rejection as contracts state it: the class and the exact
/// one-line text the client is sent.
pub struct CmdErr {
    pub kind: CmdErrKind,
    pub text: Seq<u8>,
}

/// "Invalid command", as bytes.
pub open spec fn invalid_command_text() -> Seq<u8> {
    seq![
        73u8,
        110u8,
        118u8,
        97u8,
        108u8,
        105u8,
        100u8,
        32u8,
        99u8,
        111u8,
        109u8,
        109u8,
        97u8,
        110u8,
        100u8,
    ]
}

/// "Invalid key or value", as bytes.
pub open spec fn invalid_argument_text() -> Seq<u8> {
    seq![
        73u8,
        110u8,
        118u8,
        97u8,
        108u8,
        105u8,
        100u8,
        32u8,
        107u8,
        101u8,
        121u8,
        32u8,
        111u8,
        114u8,
        32u8,
        118u8,
        97u8,
        108u8,
        117u8,
        101u8,
    ]
}

/// "UTF8 error", as bytes: the reply text for a key or field that is not
/// UTF-8.
pub open spec fn utf8_error_text() -> Seq<u8> {
    seq![85u8, 84u8, 70u8, 56u8, 32u8, 101u8, 114u8, 114u8, 111u8, 114u8]
}

/// "command must have exactly ", as bytes.
pub open spec fn must_have_text() -> Seq<u8> {
    seq![
        99u8,
        111u8,
        109u8,
        109u8,
        97u8,
        110u8,
        100u8,
        32u8,
        109u8,
        117u8,
        115u8,
        116u8,
        32u8,
        104u8,
        97u8,
        118u8,
        101u8,
        32u8,
        101u8,
        120u8,
        97u8,
        99u8,
        116u8,
        108u8,
        121u8,
        32u8,
    ]
}

/// " argument", as bytes.
pub open spec fn argument_text() -> Seq<u8> {
    seq![32u8, 97u8, 114u8, 103u8, 117u8, 109u8, 101u8, 110u8, 116u8]
}

/// Each command name followed by one space.
pub open spec fn names_joined(names: Seq<Seq<u8>>) -> Seq<u8>
    decreases names.len(),
{
    if names.len() == 0 {
        Seq::empty()
    } else {
        names[0] + seq![32u8] + names_joined(names.drop_first())
    }
}

/// "<names> command must have exactly <n> argument", as bytes: the text of an
/// arity rejection.
pub open spec fn arity_text(names: Seq<Seq<u8>>, n_args: int) -> Seq<u8> {
    names_joined(names) + must_have_text() + dec_digits(n_args as nat) + argument_text()
}

/// The arity rejection for a verb.
pub open spec fn arity_err(names: Seq<Seq<u8>>, n_args: int) -> CmdErr {
    CmdErr { kind: CmdErrKind::InvalidArgument, text: arity_text(names, n_args) }
}

/// The rejection of an unknown or misplaced verb.
pub open spec fn bad_verb_err() -> CmdErr {
    CmdErr { kind: CmdErrKind::InvalidCommand, text: invalid_command_text() }
}

/// The rejection of an argument of the wrong frame shape.
pub open spec fn bad_shape_err() -> CmdErr {
    CmdErr { kind: CmdErrKind::InvalidArgument, text: invalid_argument_text() }
}

/// The rejection of a key or field that is not UTF-8.
pub open spec fn utf8_err() -> CmdErr {
    CmdErr { kind: CmdErrKind::Utf8, text: utf8_error_text() }
}

/// The exec error answers the spec rejection: same class, and the same text
/// where the error value carries one; the UTF-8 error carries none, its reply
/// text being fixed.
pub open spec fn err_matches(e: CommandError, ce: CmdErr) -> bool {
    match e {
        CommandError::InvalidCommand(m) => ce.kind == CmdErrKind::InvalidCommand && m@ == ce.text,
        CommandError::InvalidArgument(m) => ce.kind == CmdErrKind::InvalidArgument && m@ == ce.text,
        CommandError::RespError(_) => false,
        CommandError::Utf8Error => ce.kind == CmdErrKind::Utf8 && ce.text == utf8_error_text(),
    }
}

pub proof fn lemma_names_joined_take_snoc(names: Seq<Seq<u8>>, i: int)
    requires
        0 <= i < names.len(),
    ensures
        names_joined(names.take(i + 1)) == names_joined(names.take(i)) + (names[i] + seq![32u8]),
    decreases i,
{
    if i == 0 {
        assert(names.take(1).drop_first() =~= Seq::<Seq<u8>>::empty());
        assert(names.take(1)[0] == names[0]);
        assert(names.take(0) =~= Seq::<Seq<u8>>::empty());
        assert(names_joined(names.take(1)) =~= names_joined(names.take(0)) + (names[0] + seq![
            32u8,
        ]));
    } else {
        lemma_names_joined_take_snoc(names.drop_first(), i - 1);
        assert(names.take(i + 1).drop_first() =~= names.drop_first().take(i));
        assert(names.take(i).drop_first() =~= names.drop_first().take(i - 1));
        assert(names.take(i + 1)[0] == names[0]);
        assert(names.take(i)[0] == names[0]);
        assert(names.drop_first()[i - 1] == names[i]);
        assert(names_joined(names.take(i + 1)) =~= names_joined(names.take(i)) + (names[i] + seq![
            32u8,
        ]));
    }
}

/// `GET key`.
#[derive(Debug)]
pub struct Get {
    pub key: Vec<u8>,
}

/// `SET key value`.
#[derive(Debug)]
pub struct SetCmd {
    pub key: Vec<u8>,
    pub value: RespFrame,
}

/// `HGET key field`.
#[derive(Debug)]
pub struct HGet {
    pub key: Vec<u8>,
    pub field: Vec<u8>,
}

/// `HSET key field value`.
#[derive(Debug)]
pub struct HSet {
    pub key: Vec<u8>,
    pub field: Vec<u8>,
    pub value: RespFrame,
}

/// `HGETALL key`; `sort` asks for a reply in ascending field order.
#[derive(Debug)]
pub struct HGetAll {
    pub key: Vec<u8>,
    pub sort: bool,
}

/// The command set the server executes.
#[derive(Debug)]
pub enum Command {
    Get(Get),
    SetCmd(SetCmd),
    HGet(HGet),
    HSet(HSet),
    HGetAll(HGetAll),
}

/// Is a continuation byte of a multi-byte UTF-8 sequence.
pub open spec fn utf8_cont(b: u8) -> bool {
    128 <= b <= 191
}

/// Well-formed UTF-8, by the byte-pattern table of RFC 3629: ASCII, or a
/// leading byte followed by the right count and range of continuation bytes;
/// overlong forms and surrogate code points are excluded.
pub open spec fn is_utf8(s: Seq<u8>) -> bool
    decreases s.len(),
{
    if s.len() == 0 {
        true
    } else {
        let b0 = s[0];
        if b0 <= 127 {
            is_utf8(s.drop_first())
        } else if 194 <= b0 <= 223 {
            s.len() >= 2 && utf8_cont(s[1]) && is_utf8(s.skip(2))
        } else if b0 == 224 {
            s.len() >= 3 && 160 <= s[1] <= 191 && utf8_cont(s[2]) && is_utf8(s.skip(3))
        } else if 225 <= b0 <= 236 {
            s.len() >= 3 && utf8_cont(s[1]) && utf8_cont(s[2]) && is_utf8(s.skip(3))
        } else if b0 == 237 {
            s.len() >= 3 && 128 <= s[1] <= 159 && utf8_cont(s[2]) && is_utf8(s.skip(3))
        } else if 238 <= b0 <= 239 {
            s.len() >= 3 && utf8_cont(s[1]) && utf8_cont(s[2]) && is_utf8(s.skip(3))
        } else if b0 == 240 {
            s.len() >= 4 && 144 <= s[1] <= 191 && utf8_cont(s[2]) && utf8_cont(s[3]) && is_utf8(
                s.skip(4),
            )
        } else if 241 <= b0 <= 243 {
            s.len() >= 4 && utf8_cont(s[1]) && utf8_cont(s[2]) && utf8_cont(s[3]) && is_utf8(
                s.skip(4),
            )
        } else if b0 == 244 {
            s.len() >= 4 && 128 <= s[1] <= 143 && utf8_cont(s[2]) && utf8_cont(s[3]) && is_utf8(
                s.skip(4),
            )
        } else {
            false
        }
    }
}

/// Checks well-formed UTF-8, byte-pattern by byte-pattern.
pub fn is_utf8_exec(s: &[u8]) -> (r: bool)
    ensures
        r == is_utf8(s@),
{
    let ghost sq = s@;
    let n = s.len();
    let mut i: usize = 0;
    proof {
        assert(sq.skip(0) =~= sq);
    }
    while i < n
        invariant
            i <= n,
            n == sq.len(),
            sq == s@,
            is_utf8(sq) == is_utf8(sq.skip(i as int)),
        decreases n - i,
    {
        let ghost sub = sq.skip(i as int);
        let b0 = *vstd::slice::slice_index_get(s, i);
        proof {
            assert(sub[0] == sq[i as int]);
            assert(sub.drop_first() =~= sq.skip(i as int + 1));
        }
        if b0 <= 127u8 {
            i = i + 1;
        } else if 194u8 <= b0 && b0 <= 223u8 {
            if n - i < 2 {
                return false;
            }
            let b1 = *vstd::slice::slice_index_get(s, i + 1);
            proof {
                assert(sub[1] == sq[i as int + 1]);
                assert(sub.skip(2) =~= sq.skip(i as int + 2));
            }
            if !(128u8 <= b1 && b1 <= 191u8) {
                return false;
            }
            i = i + 2;
        } else if 224u8 <= b0 && b0 <= 239u8 {
            if n - i < 3 {
                return false;
            }
            let b1 = *vstd::slice::slice_index_get(s, i + 1);
            let b2 = *vstd::slice::slice_index_get(s, i + 2);
            proof {
                assert(sub[1] == sq[i as int + 1]);
                assert(sub[2] == sq[i as int + 2]);
                assert(sub.skip(3) =~= sq.skip(i as int + 3));
            }
            let lo: u8 = if b0 == 224u8 {
                160u8
            } else {
                128u8
            };
            let hi: u8 = if b0 == 237u8 {
                159u8
            } else {
                191u8
            };
            if !(lo <= b1 && b1 <= hi) {
                return false;
            }
            if !(128u8 <= b2 && b2 <= 191u8) {
                return false;
            }
            i = i + 3;
        } else if 240u8 <= b0 && b0 <= 244u8 {
            if n - i < 4 {
                return false;
            }
            let b1 = *vstd::slice::slice_index_get(s, i + 1);
            let b2 = *vstd::slice::slice_index_get(s, i + 2);
            let b3 = *vstd::slice::slice_index_get(s, i + 3);
            proof {
                assert(sub[1] == sq[i as int + 1]);
                assert(sub[2] == sq[i as int + 2]);
                assert(sub[3] == sq[i as int + 3]);
                assert(sub.skip(4) =~= sq.skip(i as int + 4));
            }
            let lo: u8 = if b0 == 240u8 {
                144u8
            } else {
                128u8
            };
            let hi: u8 = if b0 == 244u8 {
                143u8
            } else {
                191u8
            };
            if !(lo <= b1 && b1 <= hi) {
                return false;
            }
            if !(128u8 <= b2 && b2 <= 191u8) {
                return false;
            }
            if !(128u8 <= b3 && b3 <= 191u8) {
                return false;
            }
            i = i + 4;
        } else {
            return false;
        }
    }
    proof {
        assert(sq.skip(n as int).len() == 0);
    }
    true
}

/// ASCII lowercasing of a byte string.
pub open spec fn lower_bytes(s: Seq<u8>) -> Seq<u8> {
    s.map_values(|b: u8| lower_byte(b))
}

/// Lowercases ASCII letters, leaving every other byte alone.
pub fn to_lower_vec(s: &[u8]) -> (r: Vec<u8>)
    ensures
        r@ == lower_bytes(s@),
{
    let mut out: Vec<u8> = Vec::new();
    let mut i: usize = 0;
    while i < s.len()
        invariant
            i <= s@.len(),
            out@.len() == i,
            forall|j: int| 0 <= j < i ==> out@[j] == lower_byte(#[trigger] s@[j]),
        decreases s@.len() - i,
    {
        let b = *vstd::slice::slice_index_get(s, i);
        if 65u8 <= b && b <= 90u8 {
            out.push(b + 32u8);
        } else {
            out.push(b);
        }
        i = i + 1;
    }
    proof {
        assert(out@ =~= lower_bytes(s@));
    }
    out
}

/// The reply `+OK\r\n` sent after a successful write.
pub fn resp_ok() -> (r: RespFrame)
    ensures
        dv(r) == FrameModel::SimpleString(seq![79u8, 75u8]),
{
    let mut v: Vec<u8> = Vec::new();
    v.push(79u8);
    v.push(75u8);
    proof {
        assert(v@ =~= seq![79u8, 75u8]);
    }
    RespFrame::SimpleString(SimpleString(v))
}

/// The command names as byte strings, lowered, that the array must open with.
pub open spec fn names_model(names: Seq<Vec<u8>>) -> Seq<Seq<u8>> {
    names.map_values(|n: Vec<u8>| n@)
}

/// The first `names.len()` elements are BulkStrings whose ASCII-lowered bytes
/// equal the names.
pub open spec fn names_match(frames: Seq<FrameModel>, names: Seq<Seq<u8>>) -> bool {
    forall|i: int|
        0 <= i < names.len() ==> ((#[trigger] frames[i]) matches FrameModel::BulkString(c)
            && lower_bytes(c) == names[i])
}

fn must_have_vec() -> (r: Vec<u8>)
    ensures
        r@ == must_have_text(),
{
    let mut m: Vec<u8> = Vec::new();
    m.push(99u8);  // c
    m.push(111u8);  // o
    m.push(109u8);  // m
    m.push(109u8);  // m
    m.push(97u8);  // a
    m.push(110u8);  // n
    m.push(100u8);  // d
    m.push(32u8);
    m.push(109u8);  // m
    m.push(117u8);  // u
    m.push(115u8);  // s
    m.push(116u8);  // t
    m.push(32u8);
    m.push(104u8);  // h
    m.push(97u8);  // a
    m.push(118u8);  // v
    m.push(101u8);  // e
    m.push(32u8);
    m.push(101u8);  // e
    m.push(120u8);  // x
    m.push(97u8);  // a
    m.push(99u8);  // c
    m.push(116u8);  // t
    m.push(108u8);  // l
    m.push(121u8);  // y
    m.push(32u8);
    proof {
        assert(m@ =~= must_have_text());
    }
    m
}

fn argument_vec() -> (r: Vec<u8>)
    ensures
        r@ == argument_text(),
{
    let mut m: Vec<u8> = Vec::new();
    m.push(32u8);
    m.push(97u8);  // a
    m.push(114u8);  // r
    m.push(103u8);  // g
    m.push(117u8);  // u
    m.push(109u8);  // m
    m.push(101u8);  // e
    m.push(110u8);  // n
    m.push(116u8);  // t
    proof {
        assert(m@ =~= argument_text());
    }
    m
}

/// Builds exactly "<names> command must have exactly <n> argument".
fn arity_msg(names: &[Vec<u8>], n_args: usize) -> (r: Vec<u8>)
    ensures
        r@ == arity_text(names_model(names@), n_args as int),
{
    let ghost nm = names_model(names@);
    let mut m: Vec<u8> = Vec::new();
    let mut i: usize = 0;
    proof {
        assert(nm.take(0) =~= Seq::<Seq<u8>>::empty());
        assert(m@ =~= names_joined(nm.take(0)));
    }
    while i < names.len()
        invariant
            i <= names@.len(),
            nm == names_model(names@),
            nm.len() == names@.len(),
            m@ == names_joined(nm.take(i as int)),
        decreases names@.len() - i,
    {
        let name: &Vec<u8> = vstd::slice::slice_index_get(names, i);
        extend_bytes(&mut m, name.as_slice());
        m.push(32u8);
        proof {
            lemma_names_joined_take_snoc(nm, i as int);
            assert(nm[i as int] == names@[i as int]@);
            assert(m@ =~= names_joined(nm.take(i as int + 1)));
        }
        i = i + 1;
    }
    proof {
        assert(nm.take(names@.len() as int) =~= nm);
    }
    let mh = must_have_vec();
    extend_bytes(&mut m, mh.as_slice());
    let d = usize_to_dec(n_args);
    extend_bytes(&mut m, d.as_slice());
    let ag = argument_vec();
    extend_bytes(&mut m, ag.as_slice());
    proof {
        assert(m@ =~= arity_text(nm, n_args as int));
    }
    m
}

/// Builds exactly "Invalid command".
fn invalid_command_msg() -> (r: Vec<u8>)
    ensures
        r@ == invalid_command_text(),
{
    let mut m: Vec<u8> = Vec::new();
    m.push(73u8);  // I
    m.push(110u8);  // n
    m.push(118u8);  // v
    m.push(97u8);  // a
    m.push(108u8);  // l
    m.push(105u8);  // i
    m.push(100u8);  // d
    m.push(32u8);
    m.push(99u8);  // c
    m.push(111u8);  // o
    m.push(109u8);  // m
    m.push(109u8);  // m
    m.push(97u8);  // a
    m.push(110u8);  // n
    m.push(100u8);  // d
    proof {
        assert(m@ =~= invalid_command_text());
    }
    m
}

/// Builds exactly "Invalid key or value".
pub(crate) fn invalid_argument_msg() -> (r: Vec<u8>)
    ensures
        r@ == invalid_argument_text(),
{
    let mut m: Vec<u8> = Vec::new();
    m.push(73u8);  // I
    m.push(110u8);  // n
    m.push(118u8);  // v
    m.push(97u8);  // a
    m.push(108u8);  // l
    m.push(105u8);  // i
    m.push(100u8);  // d
    m.push(32u8);
    m.push(107u8);  // k
    m.push(101u8);  // e
    m.push(121u8);  // y
    m.push(32u8);
    m.push(111u8);  // o
    m.push(114u8);  // r
    m.push(32u8);
    m.push(118u8);  // v
    m.push(97u8);  // a
    m.push(108u8);  // l
    m.push(117u8);  // u
    m.push(101u8);  // e
    proof {
        assert(m@ =~= invalid_argument_text());
    }
    m
}

/// Checks the arity of a command array and that it opens with the expected
/// verb as a BulkString, matched ASCII case-insensitively. A wrong count is
/// an InvalidArgument rejection; a wrong opening is InvalidCommand.
pub fn validate_command(value: &RespArray, names: &[Vec<u8>], n_args: usize) -> (r: Result<
    (),
    CommandError,
>)
    requires
        names@.len() + n_args <= usize::MAX,
    ensures
        match r {
            Ok(_) => value.0@.len() == names@.len() + n_args && names_match(
                dv_seq(value.0@),
                names_model(names@),
            ),
            Err(e) => match e {
                CommandError::InvalidArgument(m) => value.0@.len() != names@.len() + n_args && m@
                    == arity_text(names_model(names@), n_args as int),
                CommandError::InvalidCommand(m) => value.0@.len() == names@.len() + n_args
                    && !names_match(dv_seq(value.0@), names_model(names@)) && m@
                    == invalid_command_text(),
                _ => false,
            },
        },
{
    if value.0.len() != names.len() + n_args {
        return Err(CommandError::InvalidArgument(arity_msg(names, n_args)));
    }
    let mut i: usize = 0;
    while i < names.len()
        invariant
            i <= names@.len(),
            value.0@.len() == names@.len() + n_args,
            forall|j: int|
                0 <= j < i ==> ((#[trigger] dv_seq(value.0@)[j]) matches FrameModel::BulkString(c)
                    && lower_bytes(c) == names_model(names@)[j]),
        decreases names@.len() - i,
    {
        proof {
            lemma_dv_seq_index(value.0@, i as int);
        }
        let name: &Vec<u8> = vstd::slice::slice_index_get(names, i);
        match &value.0[i] {
            RespFrame::BulkString(c) => {
                let low = to_lower_vec(c.0.as_slice());
                if !bytes_eq(low.as_slice(), name.as_slice()) {
                    proof {
                        assert(!names_match(dv_seq(value.0@), names_model(names@)));
                    }
                    return Err(CommandError::InvalidCommand(invalid_command_msg()));
                }
            },
            _ => {
                proof {
                    assert(!names_match(dv_seq(value.0@), names_model(names@)));
                }
                return Err(CommandError::InvalidCommand(invalid_command_msg()));
            },
        }
        i = i + 1;
    }
    Ok(())
}

/// Hands back the arguments after the verb: everything from `start` on, in
/// order; never fails.
pub fn extract_args(value: RespArray, start: usize) -> (r: Result<Vec<RespFrame>, CommandError>)
    ensures
        r matches Ok(v) && v@ == if start as int <= value.0@.len() {
            value.0@.skip(start as int)
        } else {
            Seq::<RespFrame>::empty()
        },
{
    let mut rest = value;
    let mut out: Vec<RespFrame> = Vec::new();
    proof {
        if start as int <= rest.0@.len() {
            assert(out@ + rest.0@.skip(start as int) =~= rest.0@.skip(start as int));
        }
    }
    while rest.0.len() > start
        invariant
            rest.0@.take(start as int) == value.0@.take(start as int),
            start as int <= value.0@.len() ==> out@ + rest.0@.skip(start as int) == value.0@.skip(
                start as int,
            ) && start <= rest.0@.len(),
            start as int > value.0@.len() ==> out@.len() == 0 && rest.0@ == value.0@,
        decreases rest.0@.len(),
    {
        let ghost pre = rest.0@;
        let f = rest.0.remove(start);
        proof {
            assert(pre.remove(start as int).take(start as int) =~= pre.take(start as int));
            assert(out@.push(f) + pre.remove(start as int).skip(start as int) =~= out@ + pre.skip(
                start as int,
            ));
        }
        out.push(f);
    }
    proof {
        if start as int <= value.0@.len() {
            assert(rest.0@.skip(start as int).len() == 0);
            assert(out@ + rest.0@.skip(start as int) =~= out@);
        }
    }
    Ok(out)
}


pub open spec fn verb_get() -> Seq<u8> {
    seq![103u8, 101u8, 116u8]
}

pub open spec fn verb_set() -> Seq<u8> {
    seq![115u8, 101u8, 116u8]
}

pub open spec fn verb_hget() -> Seq<u8> {
    seq![104u8, 103u8, 101u8, 116u8]
}

pub open spec fn verb_hset() -> Seq<u8> {
    seq![104u8, 115u8, 101u8, 116u8]
}

pub open spec fn verb_hgetall() -> Seq<u8> {
    seq![104u8, 103u8, 101u8, 116u8, 97u8, 108u8, 108u8]
}

pub(crate) fn verb_get_vec() -> (r: Vec<u8>)
    ensures
        r@ == verb_get(),
{
    let mut v: Vec<u8> = Vec::new();
    v.push(103u8);
    v.push(101u8);
    v.push(116u8);
    proof {
        assert(v@ =~= verb_get());
    }
    v
}

pub(crate) fn verb_set_vec() -> (r: Vec<u8>)
    ensures
        r@ == verb_set(),
{
    let mut v: Vec<u8> = Vec::new();
    v.push(115u8);
    v.push(101u8);
    v.push(116u8);
    proof {
        assert(v@ =~= verb_set());
    }
    v
}

pub(crate) fn verb_hget_vec() -> (r: Vec<u8>)
    ensures
        r@ == verb_hget(),
{
    let mut v: Vec<u8> = Vec::new();
    v.push(104u8);
    v.push(103u8);
    v.push(101u8);
    v.push(116u8);
    proof {
        assert(v@ =~= verb_hget());
    }
    v
}

pub(crate) fn verb_hset_vec() -> (r: Vec<u8>)
    ensures
        r@ == verb_hset(),
{
    let mut v: Vec<u8> = Vec::new();
    v.push(104u8);
    v.push(115u8);
    v.push(101u8);
    v.push(116u8);
    proof {
        assert(v@ =~= verb_hset());
    }
    v
}

pub(crate) fn verb_hgetall_vec() -> (r: Vec<u8>)
    ensures
        r@ == verb_hgetall(),
{
    let mut v: Vec<u8> = Vec::new();
    v.push(104u8);
    v.push(103u8);
    v.push(101u8);
    v.push(116u8);
    v.push(97u8);
    v.push(108u8);
    v.push(108u8);
    proof {
        assert(v@ =~= verb_hgetall());
    }
    v
}

/// What building a `GET` from an array yields: the key, or the rejection.
pub open spec fn spec_get_cmd(frames: Seq<FrameModel>) -> Result<Seq<u8>, CmdErr> {
    if frames.len() != 2 {
        Err(arity_err(seq![verb_get()], 1))
    } else if !(frames[0] matches FrameModel::BulkString(c) && lower_bytes(c) == verb_get()) {
        Err(bad_verb_err())
    } else if !(frames[1] is BulkString) {
        Err(bad_shape_err())
    } else if !is_utf8(frames[1]->BulkString_0) {
        Err(utf8_err())
    } else {
        Ok(frames[1]->BulkString_0)
    }
}

/// What building a `SET` yields: the key and the value frame.
pub open spec fn spec_set_cmd(frames: Seq<FrameModel>) -> Result<(Seq<u8>, FrameModel), CmdErr> {
    if frames.len() != 3 {
        Err(arity_err(seq![verb_set()], 2))
    } else if !(frames[0] matches FrameModel::BulkString(c) && lower_bytes(c) == verb_set()) {
        Err(bad_verb_err())
    } else if !(frames[1] is BulkString) {
        Err(bad_shape_err())
    } else if !is_utf8(frames[1]->BulkString_0) {
        Err(utf8_err())
    } else {
        Ok((frames[1]->BulkString_0, frames[2]))
    }
}

/// What building an `HGET` yields: the key and the field.
pub open spec fn spec_hget_cmd(frames: Seq<FrameModel>) -> Result<(Seq<u8>, Seq<u8>), CmdErr> {
    if frames.len() != 3 {
        Err(arity_err(seq![verb_hget()], 2))
    } else if !(frames[0] matches FrameModel::BulkString(c) && lower_bytes(c) == verb_hget()) {
        Err(bad_verb_err())
    } else if !(frames[1] is BulkString) || !(frames[2] is BulkString) {
        Err(bad_shape_err())
    } else if !is_utf8(frames[1]->BulkString_0) || !is_utf8(frames[2]->BulkString_0) {
        Err(utf8_err())
    } else {
        Ok((frames[1]->BulkString_0, frames[2]->BulkString_0))
    }
}

/// What building an `HSET` yields: the key, the field and the value frame.
pub open spec fn spec_hset_cmd(frames: Seq<FrameModel>) -> Result<
    (Seq<u8>, Seq<u8>, FrameModel),
    CmdErr,
> {
    if frames.len() != 4 {
        Err(arity_err(seq![verb_hset()], 3))
    } else if !(frames[0] matches FrameModel::BulkString(c) && lower_bytes(c) == verb_hset()) {
        Err(bad_verb_err())
    } else if !(frames[1] is BulkString) || !(frames[2] is BulkString) {
        Err(bad_shape_err())
    } else if !is_utf8(frames[1]->BulkString_0) || !is_utf8(frames[2]->BulkString_0) {
        Err(utf8_err())
    } else {
        Ok((frames[1]->BulkString_0, frames[2]->BulkString_0, frames[3]))
    }
}

/// What building an `HGETALL` yields: the key.
pub open spec fn spec_hgetall_cmd(frames: Seq<FrameModel>) -> Result<Seq<u8>, CmdErr> {
    if frames.len() != 2 {
        Err(arity_err(seq![verb_hgetall()], 1))
    } else if !(frames[0] matches FrameModel::BulkString(c) && lower_bytes(c) == verb_hgetall()) {
        Err(bad_verb_err())
    } else if !(frames[1] is BulkString) {
        Err(bad_shape_err())
    } else if !is_utf8(frames[1]->BulkString_0) {
        Err(utf8_err())
    } else {
        Ok(frames[1]->BulkString_0)
    }
}

/// The command a frame denotes.
pub enum CommandModel {
    Get(Seq<u8>),
    SetCmd(Seq<u8>, FrameModel),
    HGet(Seq<u8>, Seq<u8>),
    HSet(Seq<u8>, Seq<u8>, FrameModel),
    HGetAll(Seq<u8>, bool),
}

pub open spec fn cmd_dv(c: Command) -> CommandModel {
    match c {
        Command::Get(g) => CommandModel::Get(g.key@),
        Command::SetCmd(s) => CommandModel::SetCmd(s.key@, dv(s.value)),
        Command::HGet(h) => CommandModel::HGet(h.key@, h.field@),
        Command::HSet(h) => CommandModel::HSet(h.key@, h.field@, dv(h.value)),
        Command::HGetAll(h) => CommandModel::HGetAll(h.key@, h.sort),
    }
}

/// What a whole request frame means as a command: it must be an array whose
/// first element is a BulkString naming a known verb, ASCII case-insensitively;
/// the verb's own reading then applies. A fresh HGETALL does not sort.
pub open spec fn spec_command(fm: FrameModel) -> Result<CommandModel, CmdErr> {
    match fm {
        FrameModel::Array(frames) => {
            if frames.len() == 0 {
                Err(bad_verb_err())
            } else if !(frames[0] is BulkString) {
                Err(bad_verb_err())
            } else {
                let verb = lower_bytes(frames[0]->BulkString_0);
                if verb == verb_get() {
                    match spec_get_cmd(frames) {
                        Ok(k) => Ok(CommandModel::Get(k)),
                        Err(e) => Err(e),
                    }
                } else if verb == verb_set() {
                    match spec_set_cmd(frames) {
                        Ok((k, v)) => Ok(CommandModel::SetCmd(k, v)),
                        Err(e) => Err(e),
                    }
                } else if verb == verb_hget() {
                    match spec_hget_cmd(frames) {
                        Ok((k, f)) => Ok(CommandModel::HGet(k, f)),
                        Err(e) => Err(e),
                    }
                } else if verb == verb_hset() {
                    match spec_hset_cmd(frames) {
                        Ok((k, f, v)) => Ok(CommandModel::HSet(k, f, v)),
                        Err(e) => Err(e),
                    }
                } else if verb == verb_hgetall() {
                    match spec_hgetall_cmd(frames) {
                        Ok(k) => Ok(CommandModel::HGetAll(k, false)),
                        Err(e) => Err(e),
                    }
                } else {
                    Err(bad_verb_err())
                }
            }
        },
        _ => Err(bad_verb_err()),
    }
}

/// The HGETALL reply body: for each pair, the field as a BulkString, then
/// the stored frame.
pub open spec fn flat_pairs(ps: Seq<(Seq<u8>, FrameModel)>) -> Seq<FrameModel>
    decreases ps.len(),
{
    if ps.len() == 0 {
        Seq::empty()
    } else {
        seq![FrameModel::BulkString(ps[0].0), ps[0].1] + flat_pairs(ps.drop_first())
    }
}

/// Strictly ascending field order.
pub open spec fn pairs_sorted_strict(ps: Seq<(Seq<u8>, FrameModel)>) -> bool {
    forall|i: int| 0 <= i < ps.len() - 1 ==> bytes_lt(#[trigger] ps[i].0, ps[i + 1].0)
}

pub open spec fn mkeys_distinct(ps: Seq<(Seq<u8>, FrameModel)>) -> bool {
    forall|i: int, j: int| 0 <= i < j < ps.len() ==> (#[trigger] ps[i].0) != (#[trigger] ps[j].0)
}

/// The pairs read as a field-to-frame mapping; a later pair would win, though
/// the pairs here always carry distinct fields.
pub open spec fn mpairs_map(ps: Seq<(Seq<u8>, FrameModel)>) -> Map<Seq<u8>, FrameModel>
    decreases ps.len(),
{
    if ps.len() == 0 {
        Map::empty()
    } else {
        mpairs_map(ps.drop_last()).insert(ps.last().0, ps.last().1)
    }
}

/// An HGETALL reply body is correct for the stored inner map `m`: some pair
/// list with distinct fields that reads back as exactly `m`, flattened; when
/// sorting was asked for, the list stands in ascending field order.
pub open spec fn hgetall_reply(reply: FrameModel, m: Map<Seq<u8>, FrameModel>, sorted: bool) -> bool {
    exists|ps: Seq<(Seq<u8>, FrameModel)>|
        reply == FrameModel::Array(#[trigger] flat_pairs(ps)) && mkeys_distinct(ps) && mpairs_map(
            ps,
        ) == m && (sorted ==> pairs_sorted_strict(ps))
}

/// What executing a command does to the two keyspaces and what it replies:
/// the table of the command set.
pub open spec fn executed(
    cm: CommandModel,
    okv: Map<Seq<u8>, FrameModel>,
    ohkv: Map<Seq<u8>, Map<Seq<u8>, FrameModel>>,
    nkv: Map<Seq<u8>, FrameModel>,
    nhkv: Map<Seq<u8>, Map<Seq<u8>, FrameModel>>,
    reply: FrameModel,
) -> bool {
    match cm {
        CommandModel::Get(k) => nkv == okv && nhkv == ohkv && reply == (if okv.contains_key(k) {
            okv[k]
        } else {
            FrameModel::Null
        }),
        CommandModel::SetCmd(k, v) => nkv == okv.insert(k, v) && nhkv == ohkv && reply
            == FrameModel::SimpleString(seq![79u8, 75u8]),
        CommandModel::HGet(k, f) => nkv == okv && nhkv == ohkv && reply == (if ohkv.contains_key(k)
            && ohkv[k].contains_key(f) {
            ohkv[k][f]
        } else {
            FrameModel::Null
        }),
        CommandModel::HSet(k, f, v) => nkv == okv && nhkv == ohkv.insert(
            k,
            (if ohkv.contains_key(k) {
                ohkv[k]
            } else {
                Map::empty()
            }).insert(f, v),
        ) && reply == FrameModel::SimpleString(seq![79u8, 75u8]),
        CommandModel::HGetAll(k, sorted) => nkv == okv && nhkv == ohkv && (if ohkv.contains_key(k) {
            hgetall_reply(reply, ohkv[k], sorted)
        } else {
            reply == FrameModel::Array(Seq::empty())
        }),
    }
}

/// Every command runs against the store and yields a reply frame.
pub trait CommandExecutor: Sized {
    fn execute(self, backend: &mut Backend) -> Result<RespFrame, CommandError>;
}


impl Command {
    /// Builds a command from one request frame: it must be an Array whose
    /// first element names a known verb, ASCII case-insensitively.
    pub fn try_from(frame: RespFrame) -> (r: Result<Command, CommandError>)
        ensures
            match r {
                Ok(c) => spec_command(dv(frame)) == Ok::<CommandModel, CmdErr>(cmd_dv(c)),
                Err(e) => spec_command(dv(frame)) matches Err(ce) && err_matches(e, ce),
            },
    {
        match frame {
            RespFrame::Array(a) => {
                proof {
                    lemma_dv_seq_len(a.0@);
                }
                if a.0.len() == 0 {
                    return Err(CommandError::InvalidCommand(invalid_command_msg()));
                }
                proof {
                    lemma_dv_seq_index(a.0@, 0);
                }
                let verb: Vec<u8> = match &a.0[0] {
                    RespFrame::BulkString(c) => to_lower_vec(c.0.as_slice()),
                    _ => {
                        return Err(CommandError::InvalidCommand(invalid_command_msg()));
                    },
                };
                let vg = verb_get_vec();
                let vs = verb_set_vec();
                let vhg = verb_hget_vec();
                let vhs = verb_hset_vec();
                let vha = verb_hgetall_vec();
                if bytes_eq(verb.as_slice(), vg.as_slice()) {
                    match Get::try_from(a) {
                        Ok(g) => Ok(Command::Get(g)),
                        Err(e) => Err(e),
                    }
                } else if bytes_eq(verb.as_slice(), vs.as_slice()) {
                    match SetCmd::try_from(a) {
                        Ok(s) => Ok(Command::SetCmd(s)),
                        Err(e) => Err(e),
                    }
                } else if bytes_eq(verb.as_slice(), vhg.as_slice()) {
                    match HGet::try_from(a) {
                        Ok(h) => Ok(Command::HGet(h)),
                        Err(e) => Err(e),
                    }
                } else if bytes_eq(verb.as_slice(), vhs.as_slice()) {
                    match HSet::try_from(a) {
                        Ok(h) => Ok(Command::HSet(h)),
                        Err(e) => Err(e),
                    }
                } else if bytes_eq(verb.as_slice(), vha.as_slice()) {
                    match HGetAll::try_from(a) {
                        Ok(h) => Ok(Command::HGetAll(h)),
                        Err(e) => Err(e),
                    }
                } else {
                    Err(CommandError::InvalidCommand(invalid_command_msg()))
                }
            },
            _ => Err(CommandError::InvalidCommand(invalid_command_msg())),
        }
    }
}

impl CommandExecutor for Command {
    /// Runs the command against the store; the reply and the store's new
    /// state follow the command table.
    fn execute(self, backend: &mut Backend) -> (r: Result<RespFrame, CommandError>)
        ensures
            r matches Ok(f) && executed(
                cmd_dv(self),
                old(backend).kv(),
                old(backend).hkv(),
                final(backend).kv(),
                final(backend).hkv(),
                dv(f),
            ),
    {
        match self {
            Command::Get(g) => g.execute(backend),
            Command::SetCmd(s) => s.execute(backend),
            Command::HGet(h) => h.execute(backend),
            Command::HSet(h) => h.execute(backend),
            Command::HGetAll(h) => h.execute(backend),
        }
    }
}


/// Writes to one key linearize: when a `SET k v` has executed and a `GET k`
/// executes on the store it left behind, the reply is exactly `v` — whatever
/// other keys hold. With concurrent writers the store applies them in some
/// order, and this says the reader sees the one that arrived last.
pub proof fn lemma_set_then_get(
    k: Seq<u8>,
    v: FrameModel,
    okv: Map<Seq<u8>, FrameModel>,
    ohkv: Map<Seq<u8>, Map<Seq<u8>, FrameModel>>,
    mkv: Map<Seq<u8>, FrameModel>,
    mhkv: Map<Seq<u8>, Map<Seq<u8>, FrameModel>>,
    nkv: Map<Seq<u8>, FrameModel>,
    nhkv: Map<Seq<u8>, Map<Seq<u8>, FrameModel>>,
    set_reply: FrameModel,
    get_reply: FrameModel,
)
    requires
        executed(CommandModel::SetCmd(k, v), okv, ohkv, mkv, mhkv, set_reply),
        executed(CommandModel::Get(k), mkv, mhkv, nkv, nhkv, get_reply),
    ensures
        get_reply == v,
        set_reply == FrameModel::SimpleString(seq![79u8, 75u8]),
{
}

/// Field writes linearize the same way: when an `HSET k f v` has executed and
/// an `HGET k f` executes on the store it left behind, the reply is exactly
/// `v`.
pub proof fn lemma_hset_then_hget(
    k: Seq<u8>,
    f: Seq<u8>,
    v: FrameModel,
    okv: Map<Seq<u8>, FrameModel>,
    ohkv: Map<Seq<u8>, Map<Seq<u8>, FrameModel>>,
    mkv: Map<Seq<u8>, FrameModel>,
    mhkv: Map<Seq<u8>, Map<Seq<u8>, FrameModel>>,
    nkv: Map<Seq<u8>, FrameModel>,
    nhkv: Map<Seq<u8>, Map<Seq<u8>, FrameModel>>,
    set_reply: FrameModel,
    get_reply: FrameModel,
)
    requires
        executed(CommandModel::HSet(k, f, v), okv, ohkv, mkv, mhkv, set_reply),
        executed(CommandModel::HGet(k, f), mkv, mhkv, nkv, nhkv, get_reply),
    ensures
        get_reply == v,
{
}

} // verus!
