use vstd::prelude::*;

use bytes::BytesMut;
use crate::resp::decode::{
    decode_err, decode_ok, err_model, extract_simple_frame_data, parse_double_slice,
    spec_expect_simple, spec_parse_double, RespDecode, SpecErr,
};
use crate::resp::encode::{extend_bytes, spec_enc, RespEncode};
use crate::resp::frame::FrameModel;
use crate::resp::{bm_advance, bm_bytes, bm_slice, RespError};

verus! {

/// Body of a `,...\r\n` frame: the textual form of an IEEE-754 double,
/// exactly as it stands on the wire. The text obeys the grammar that Rust's
/// `f64` parser accepts, so a caller outside the codec can always turn it
/// into a number; the codec itself never needs the numeric value.
#[derive(Debug, Clone, PartialEq)]
pub struct RespDouble(pub Vec<u8>);

impl RespDouble {
    pub fn new(s: Vec<u8>) -> (r: Self)
        ensures
            r == (RespDouble(s)),
    {
        RespDouble(s)
    }
}

pub open spec fn is_digit(b: u8) -> bool {
    48 <= b <= 57
}

pub open spec fn all_digits(s: Seq<u8>) -> bool {
    forall|i: int| 0 <= i < s.len() ==> is_digit(#[trigger] s[i])
}

pub open spec fn digits1(s: Seq<u8>) -> bool {
    s.len() >= 1 && all_digits(s)
}

/// Index of the first occurrence of `b` in `s`.
pub open spec fn find_byte(s: Seq<u8>, b: u8) -> Option<int>
    decreases s.len(),
{
    if s.len() == 0 {
        None
    } else if s[0] == b {
        Some(0)
    } else {
        match find_byte(s.drop_first(), b) {
            Some(i) => Some(i + 1),
            None => None,
        }
    }
}

/// Index of the first byte of `s` that is `e` or `E`.
pub open spec fn find_exp_marker(s: Seq<u8>) -> Option<int>
    decreases s.len(),
{
    if s.len() == 0 {
        None
    } else if s[0] == 101u8 || s[0] == 69u8 {
        Some(0)
    } else {
        match find_exp_marker(s.drop_first()) {
            Some(i) => Some(i + 1),
            None => None,
        }
    }
}

pub open spec fn lower_byte(b: u8) -> u8 {
    if 65 <= b <= 90 {
        (b + 32) as u8
    } else {
        b
    }
}

pub open spec fn strip_sign(s: Seq<u8>) -> Seq<u8> {
    if s.len() > 0 && (s[0] == 43u8 || s[0] == 45u8) {
        s.drop_first()
    } else {
        s
    }
}

/// Digits with at most one dot, at least one digit in all:
/// `d+`, `d+.d*` or `d*.d+`.
pub open spec fn mantissa_ok(s: Seq<u8>) -> bool {
    match find_byte(s, 46u8) {
        None => digits1(s),
        Some(k) => {
            let a = s.take(k);
            let b = s.skip(k + 1);
            all_digits(a) && all_digits(b) && a.len() + b.len() >= 1
        },
    }
}

/// `inf`, `infinity` or `nan`, in any letter case.
pub open spec fn special_ok(s: Seq<u8>) -> bool {
    let t = s.map_values(|b: u8| lower_byte(b));
    t == seq![105u8, 110u8, 102u8] || t == seq![
        105u8,
        110u8,
        102u8,
        105u8,
        110u8,
        105u8,
        116u8,
        121u8,
    ] || t == seq![110u8, 97u8, 110u8]
}

pub open spec fn exp_ok(s: Seq<u8>) -> bool {
    digits1(strip_sign(s))
}

pub open spec fn number_ok(s: Seq<u8>) -> bool {
    match find_exp_marker(s) {
        None => mantissa_ok(s),
        Some(k) => mantissa_ok(s.take(k)) && exp_ok(s.skip(k + 1)),
    }
}

/// The grammar that Rust's `f64` parser accepts: an optional sign, then a
/// special word or a number with an optional exponent.
pub open spec fn float_body(s: Seq<u8>) -> bool {
    special_ok(strip_sign(s)) || number_ok(strip_sign(s))
}


// ---------------------------------------------------------------------------
// Executable checks, each the exact mirror of one grammar predicate above.
// ---------------------------------------------------------------------------
pub open spec fn opt_add_usize(o: Option<int>, k: int) -> Option<int> {
    match o {
        Some(i) => Some(i + k),
        None => None,
    }
}

pub fn all_digits_exec(s: &[u8]) -> (r: bool)
    ensures
        r == all_digits(s@),
{
    let mut i: usize = 0;
    while i < s.len()
        invariant
            i <= s@.len(),
            forall|j: int| 0 <= j < i ==> is_digit(#[trigger] s@[j]),
        decreases s@.len() - i,
    {
        let b = *vstd::slice::slice_index_get(s, i);
        if b < 48u8 || b > 57u8 {
            assert(!is_digit(s@[i as int]));
            return false;
        }
        i = i + 1;
    }
    true
}

fn find_dot(s: &[u8]) -> (r: Option<usize>)
    ensures
        match r {
            Some(i) => find_byte(s@, 46u8) == Some(i as int) && i < s@.len(),
            None => find_byte(s@, 46u8) is None,
        },
{
    let ghost sq = s@;
    let mut i: usize = 0;
    proof {
        assert(sq.skip(0) =~= sq);
    }
    while i < s.len()
        invariant
            i <= sq.len(),
            sq == s@,
            find_byte(sq, 46u8) == opt_add_usize(find_byte(sq.skip(i as int), 46u8), i as int),
        decreases sq.len() - i,
    {
        let b = *vstd::slice::slice_index_get(s, i);
        proof {
            let sub = sq.skip(i as int);
            assert(sub[0] == sq[i as int]);
            assert(sub.drop_first() =~= sq.skip(i as int + 1));
        }
        if b == 46u8 {
            return Some(i);
        }
        i = i + 1;
    }
    proof {
        assert(sq.skip(i as int).len() == 0);
    }
    None
}

fn find_exp(s: &[u8]) -> (r: Option<usize>)
    ensures
        match r {
            Some(i) => find_exp_marker(s@) == Some(i as int) && i < s@.len(),
            None => find_exp_marker(s@) is None,
        },
{
    let ghost sq = s@;
    let mut i: usize = 0;
    proof {
        assert(sq.skip(0) =~= sq);
    }
    while i < s.len()
        invariant
            i <= sq.len(),
            sq == s@,
            find_exp_marker(sq) == opt_add_usize(find_exp_marker(sq.skip(i as int)), i as int),
        decreases sq.len() - i,
    {
        let b = *vstd::slice::slice_index_get(s, i);
        proof {
            let sub = sq.skip(i as int);
            assert(sub[0] == sq[i as int]);
            assert(sub.drop_first() =~= sq.skip(i as int + 1));
        }
        if b == 101u8 || b == 69u8 {
            return Some(i);
        }
        i = i + 1;
    }
    proof {
        assert(sq.skip(i as int).len() == 0);
    }
    None
}

fn mantissa_ok_exec(s: &[u8]) -> (r: bool)
    ensures
        r == mantissa_ok(s@),
{
    let n = s.len();
    match find_dot(s) {
        None => {
            let d = all_digits_exec(s);
            d && n >= 1
        },
        Some(k) => {
            let a = vstd::slice::slice_subrange(s, 0, k);
            let b = vstd::slice::slice_subrange(s, k + 1, n);
            proof {
                assert(a@ =~= s@.take(k as int));
                assert(b@ =~= s@.skip(k as int + 1));
            }
            let da = all_digits_exec(a);
            let db = all_digits_exec(b);
            da && db && n >= 2
        },
    }
}

fn exp_ok_exec(s: &[u8]) -> (r: bool)
    ensures
        r == exp_ok(s@),
{
    let t = if s.len() > 0 && (*vstd::slice::slice_index_get(s, 0) == 43u8
        || *vstd::slice::slice_index_get(s, 0) == 45u8) {
        vstd::slice::slice_subrange(s, 1, s.len())
    } else {
        vstd::slice::slice_subrange(s, 0, s.len())
    };
    proof {
        assert(t@ =~= strip_sign(s@));
    }
    let d = all_digits_exec(t);
    d && t.len() >= 1
}

fn lower_byte_exec(b: u8) -> (r: u8)
    ensures
        r == lower_byte(b),
{
    if 65u8 <= b && b <= 90u8 {
        b + 32u8
    } else {
        b
    }
}

fn special_ok_exec(s: &[u8]) -> (r: bool)
    ensures
        r == special_ok(s@),
{
    let ghost t = s@.map_values(|b: u8| lower_byte(b));
    proof {
        assert(t.len() == s@.len());
    }
    if s.len() == 3 {
        let l0 = lower_byte_exec(*vstd::slice::slice_index_get(s, 0));
        let l1 = lower_byte_exec(*vstd::slice::slice_index_get(s, 1));
        let l2 = lower_byte_exec(*vstd::slice::slice_index_get(s, 2));
        let inf = l0 == 105u8 && l1 == 110u8 && l2 == 102u8;
        let nan = l0 == 110u8 && l1 == 97u8 && l2 == 110u8;
        proof {
            assert(t[0] == lower_byte(s@[0]) && t[1] == lower_byte(s@[1]) && t[2] == lower_byte(
                s@[2],
            ));
            if inf {
                assert(t =~= seq![105u8, 110u8, 102u8]);
            }
            if nan {
                assert(t =~= seq![110u8, 97u8, 110u8]);
            }
            if !inf && !nan {
                assert(t != seq![105u8, 110u8, 102u8] && t != seq![110u8, 97u8, 110u8]);
                assert(t.len() != 8);
            }
        }
        inf || nan
    } else if s.len() == 8 {
        let l0 = lower_byte_exec(*vstd::slice::slice_index_get(s, 0));
        let l1 = lower_byte_exec(*vstd::slice::slice_index_get(s, 1));
        let l2 = lower_byte_exec(*vstd::slice::slice_index_get(s, 2));
        let l3 = lower_byte_exec(*vstd::slice::slice_index_get(s, 3));
        let l4 = lower_byte_exec(*vstd::slice::slice_index_get(s, 4));
        let l5 = lower_byte_exec(*vstd::slice::slice_index_get(s, 5));
        let l6 = lower_byte_exec(*vstd::slice::slice_index_get(s, 6));
        let l7 = lower_byte_exec(*vstd::slice::slice_index_get(s, 7));
        let ok = l0 == 105u8 && l1 == 110u8 && l2 == 102u8 && l3 == 105u8 && l4 == 110u8 && l5
            == 105u8 && l6 == 116u8 && l7 == 121u8;
        proof {
            assert(t[0] == lower_byte(s@[0]) && t[1] == lower_byte(s@[1]) && t[2] == lower_byte(
                s@[2],
            ) && t[3] == lower_byte(s@[3]) && t[4] == lower_byte(s@[4]) && t[5] == lower_byte(
                s@[5],
            ) && t[6] == lower_byte(s@[6]) && t[7] == lower_byte(s@[7]));
            if ok {
                assert(t =~= seq![105u8, 110u8, 102u8, 105u8, 110u8, 105u8, 116u8, 121u8]);
            } else {
                assert(t != seq![105u8, 110u8, 102u8, 105u8, 110u8, 105u8, 116u8, 121u8]);
                assert(t.len() != 3);
            }
        }
        ok
    } else {
        proof {
            assert(t.len() != 3 && t.len() != 8);
        }
        false
    }
}

fn number_ok_exec(s: &[u8]) -> (r: bool)
    ensures
        r == number_ok(s@),
{
    let n = s.len();
    match find_exp(s) {
        None => mantissa_ok_exec(s),
        Some(k) => {
            let a = vstd::slice::slice_subrange(s, 0, k);
            let b = vstd::slice::slice_subrange(s, k + 1, n);
            proof {
                assert(a@ =~= s@.take(k as int));
                assert(b@ =~= s@.skip(k as int + 1));
            }
            let ma = mantissa_ok_exec(a);
            let eb = exp_ok_exec(b);
            ma && eb
        },
    }
}

/// Does `s` obey the grammar of Rust's `f64` parser?
pub fn is_float_body(s: &[u8]) -> (r: bool)
    ensures
        r == float_body(s@),
{
    let t = if s.len() > 0 && (*vstd::slice::slice_index_get(s, 0) == 43u8
        || *vstd::slice::slice_index_get(s, 0) == 45u8) {
        vstd::slice::slice_subrange(s, 1, s.len())
    } else {
        vstd::slice::slice_subrange(s, 0, s.len())
    };
    proof {
        assert(t@ =~= strip_sign(s@));
    }
    let sp = special_ok_exec(t);
    if sp {
        true
    } else {
        number_ok_exec(t)
    }
}


impl RespEncode for RespDouble {
    open spec fn enc_model(&self) -> FrameModel {
        FrameModel::Double(self.0@)
    }

    fn encode(&self) -> (r: Vec<u8>) {
        let mut out: Vec<u8> = Vec::new();
        out.push(44u8);
        extend_bytes(&mut out, self.0.as_slice());
        out.push(13u8);
        out.push(10u8);
        proof {
            assert(out@ =~= spec_enc(self.enc_model()));
        }
        out
    }
}

impl RespDecode for RespDouble {
    /// On success exactly the frame's bytes leave the buffer; on any error,
    /// none do.
    fn decode(buf: &mut BytesMut) -> (r: Result<Self, RespError>)
        ensures
            match r {
                Ok(v) => decode_ok(
                    spec_parse_double(bm_bytes(*old(buf))),
                    FrameModel::Double(v.0@),
                    bm_bytes(*old(buf)),
                    bm_bytes(*final(buf)),
                ),
                Err(e) => decode_err(
                    spec_parse_double(bm_bytes(*old(buf))),
                    e,
                    bm_bytes(*old(buf)),
                    bm_bytes(*final(buf)),
                ),
            },
    {
        let s = bm_slice(buf);
        match parse_double_slice(s) {
            Ok((v, n)) => {
                bm_advance(buf, n);
                Ok(v)
            },
            Err(e) => Err(e),
        }
    }

    fn expect_length(buf: &[u8]) -> (r: Result<usize, RespError>)
        ensures
            match r {
                Ok(n) => spec_expect_simple(buf@, 44u8) == Ok::<nat, SpecErr>(n as nat),
                Err(e) => spec_expect_simple(buf@, 44u8) == Err::<nat, SpecErr>(err_model(e)),
            },
    {
        match extract_simple_frame_data(buf, 44u8) {
            Ok(end) => Ok(end + 2),
            Err(e) => Err(e),
        }
    }
}

} // verus!
