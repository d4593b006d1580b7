use bytes::BytesMut;
use vstd::prelude::*;

use crate::resp::array::{RespArray, RespNullArray};
use crate::resp::bulk_string::{BulkString, RespNullBulkString};
use crate::resp::double::{all_digits, digits1, float_body, is_digit, is_float_body, RespDouble};
use crate::resp::frame::{dv, dv_pairs, dv_seq, lemma_dv_seq_take_snoc, FrameModel, RespFrame};
use crate::resp::map::{sorted_insert_pair, RespMap};
use crate::resp::null::RespNull;
use crate::resp::set::RespSet;
use crate::resp::simple_error::SimpleError;
use crate::resp::simple_string::SimpleString;
use crate::resp::{bm_advance, bm_bytes, bm_slice, RespError};

verus! {

/// Length of the `\r\n` line terminator.
pub const CRLF_LEN: usize = 2;

/// Decode outcomes as contracts distinguish them. The byte payloads that the
/// exec `RespError` values carry are diagnostic text only; contracts pin the
/// variant, not the wording.
pub enum SpecErr {
    InvalidFrame,
    InvalidFrameType,
    InvalidFrameLength,
    NotComplete,
    ParseIntError,
    ParseFloatError,
    Utf8Error,
}

/// The outcome variant an exec error denotes.
pub open spec fn err_model(e: RespError) -> SpecErr {
    match e {
        RespError::InvalidFrame(_) => SpecErr::InvalidFrame,
        RespError::InvalidFrameType(_) => SpecErr::InvalidFrameType,
        RespError::InvalidFrameLength(_) => SpecErr::InvalidFrameLength,
        RespError::NotComplete => SpecErr::NotComplete,
        RespError::ParseIntError => SpecErr::ParseIntError,
        RespError::ParseFloatError => SpecErr::ParseFloatError,
        RespError::Utf8Error => SpecErr::Utf8Error,
    }
}

pub open spec fn opt_add(o: Option<int>, k: int) -> Option<int> {
    match o {
        Some(i) => Some(i + k),
        None => None,
    }
}

pub open spec fn crlf_at(s: Seq<u8>, j: int) -> bool {
    s[j] == 13u8 && s[j + 1] == 10u8
}

/// Position of the `nth` occurrence of `\r\n`, counting matches that restart
/// one byte after the previous match.
pub open spec fn nth_crlf(s: Seq<u8>, nth: int) -> Option<int>
    decreases s.len(),
{
    if s.len() < 2 {
        None
    } else if s[0] == 13u8 && s[1] == 10u8 {
        if nth <= 1 {
            Some(0)
        } else {
            opt_add(nth_crlf(s.drop_first(), nth - 1), 1)
        }
    } else {
        opt_add(nth_crlf(s.drop_first(), nth), 1)
    }
}

/// What a `Some` or `None` answer of the first-CRLF search says of the bytes.
pub proof fn lemma_first_crlf_props(s: Seq<u8>)
    ensures
        match nth_crlf(s, 1) {
            Some(i) => 0 <= i && i + 2 <= s.len() && s[i] == 13u8 && s[i + 1] == 10u8 && forall|
                j: int,
            |
                0 <= j < i ==> !#[trigger] crlf_at(s, j),
            None => forall|j: int| 0 <= j && j + 1 < s.len() ==> !#[trigger] crlf_at(s, j),
        },
    decreases s.len(),
{
    if s.len() < 2 {
    } else if s[0] == 13u8 && s[1] == 10u8 {
    } else {
        lemma_first_crlf_props(s.drop_first());
        let t = s.drop_first();
        match nth_crlf(t, 1) {
            Some(i) => {
                assert forall|j: int| 0 <= j < i + 1 implies !#[trigger] crlf_at(s, j) by {
                    if j > 0 {
                        assert(!crlf_at(t, j - 1));
                        assert(t[j - 1] == s[j] && t[j] == s[j + 1]);
                    }
                }
            },
            None => {
                assert forall|j: int| 0 <= j && j + 1 < s.len() implies !#[trigger] crlf_at(
                    s,
                    j,
                ) by {
                    if j > 0 {
                        assert(!crlf_at(t, j - 1));
                        assert(t[j - 1] == s[j] && t[j] == s[j + 1]);
                    }
                }
            },
        }
    }
}

/// Searches for the `nth` occurrence of `\r\n`.
pub fn find_crlf(buf: &[u8], nth: usize) -> (r: Option<usize>)
    requires
        nth >= 1,
    ensures
        match r {
            Some(i) => nth_crlf(buf@, nth as int) == Some(i as int) && i + 2 <= buf@.len(),
            None => nth_crlf(buf@, nth as int) is None,
        },
{
    let ghost s = buf@;
    let mut i: usize = 0;
    let mut remaining: usize = nth;
    proof {
        assert(s.skip(0) =~= s);
    }
    loop
        invariant
            remaining >= 1,
            i <= s.len(),
            s == buf@,
            nth_crlf(s, nth as int) == opt_add(nth_crlf(s.skip(i as int), remaining as int), i as int),
        decreases s.len() - i,
    {
        if buf.len() == 0 || i >= buf.len() - 1 {
            proof {
                assert(s.skip(i as int).len() < 2);
            }
            return None;
        }
        let b0 = *vstd::slice::slice_index_get(buf, i);
        let b1 = *vstd::slice::slice_index_get(buf, i + 1);
        proof {
            let sub = s.skip(i as int);
            assert(sub.len() >= 2);
            assert(sub[0] == s[i as int] && sub[1] == s[i as int + 1]);
            assert(sub.drop_first() =~= s.skip(i as int + 1));
        }
        if b0 == 13u8 && b1 == 10u8 {
            if remaining == 1 {
                return Some(i);
            }
            remaining = remaining - 1;
        }
        i = i + 1;
    }
}

/// Builds the text of an "unexpected prefix" complaint.
fn frame_type_msg(prefix: u8) -> Vec<u8> {
    let mut m: Vec<u8> = Vec::new();
    m.push(101u8);  // e
    m.push(120u8);  // x
    m.push(112u8);  // p
    m.push(101u8);  // e
    m.push(99u8);  // c
    m.push(116u8);  // t
    m.push(32u8);
    m.push(40u8);  // (
    m.push(prefix);
    m.push(41u8);  // )
    m
}

/// Header scan shared by every line-shaped frame: the buffer must start with
/// the one-byte prefix and hold a full `\r\n`-terminated line.
pub open spec fn spec_extract_simple(s: Seq<u8>, prefix: u8) -> Result<int, SpecErr> {
    if s.len() < 3 {
        Err(SpecErr::NotComplete)
    } else if s[0] != prefix {
        Err(SpecErr::InvalidFrameType)
    } else {
        match nth_crlf(s, 1) {
            None => Err(SpecErr::NotComplete),
            Some(end) => Ok(end),
        }
    }
}

/// Finds the end of the first line: the index of its closing `\r`.
pub fn extract_simple_frame_data(buf: &[u8], prefix: u8) -> (r: Result<usize, RespError>)
    requires
        prefix != 13u8,
    ensures
        match r {
            Ok(end) => spec_extract_simple(buf@, prefix) == Ok::<int, SpecErr>(end as int) && 1
                <= end && end + 2 <= buf@.len() && buf@.len() <= usize::MAX,
            Err(e) => spec_extract_simple(buf@, prefix) == Err::<int, SpecErr>(err_model(e)),
        },
{
    if buf.len() < 3 {
        return Err(RespError::NotComplete);
    }
    let b0 = *vstd::slice::slice_index_get(buf, 0);
    if b0 != prefix {
        return Err(RespError::InvalidFrameType(frame_type_msg(prefix)));
    }
    match find_crlf(buf, 1) {
        Some(end) => {
            proof {
                lemma_first_crlf_props(buf@);
            }
            Ok(end)
        },
        None => Err(RespError::NotComplete),
    }
}

/// Numeric value of a digit string, most significant digit first.
pub open spec fn dec_val(s: Seq<u8>) -> int
    decreases s.len(),
{
    if s.len() == 0 {
        0
    } else {
        dec_val(s.drop_last()) * 10 + (s.last() - 48)
    }
}

pub proof fn lemma_dec_val_nonneg(s: Seq<u8>)
    requires
        all_digits(s),
    ensures
        dec_val(s) >= 0,
    decreases s.len(),
{
    if s.len() > 0 {
        assert(all_digits(s.drop_last()));
        lemma_dec_val_nonneg(s.drop_last());
        assert(is_digit(s.last()));
    }
}

pub proof fn lemma_dec_val_take_succ(s: Seq<u8>, i: int)
    requires
        0 <= i < s.len(),
    ensures
        dec_val(s.take(i + 1)) == dec_val(s.take(i)) * 10 + (s[i] - 48),
{
    assert(s.take(i + 1).drop_last() =~= s.take(i));
    assert(s.take(i + 1).last() == s[i]);
}

pub proof fn lemma_dec_val_mono(s: Seq<u8>, i: int)
    requires
        all_digits(s),
        0 <= i <= s.len(),
    ensures
        dec_val(s.take(i)) <= dec_val(s),
    decreases s.len() - i,
{
    if i == s.len() {
        assert(s.take(i) =~= s);
    } else {
        lemma_dec_val_mono(s, i + 1);
        lemma_dec_val_take_succ(s, i);
        assert(all_digits(s.take(i)));
        lemma_dec_val_nonneg(s.take(i));
        assert(is_digit(s[i]));
    }
}

/// Parses an unsigned decimal of at most `limit`; rejects empty or non-digit
/// bodies and values above the limit, exactly as the spec-side `dec_val` and
/// `digits1` say.
pub fn parse_digits_u64(s: &[u8], limit: u64) -> (r: Result<u64, RespError>)
    requires
        limit >= 9,
    ensures
        match r {
            Ok(v) => digits1(s@) && dec_val(s@) == v as int && v <= limit,
            Err(e) => err_model(e) == SpecErr::ParseIntError && (!digits1(s@) || dec_val(s@)
                > limit),
        },
{
    if s.len() == 0 {
        return Err(RespError::ParseIntError);
    }
    let mut acc: u64 = 0;
    let mut i: usize = 0;
    while i < s.len()
        invariant
            i <= s@.len(),
            s@.len() >= 1,
            limit >= 9,
            acc <= limit,
            all_digits(s@.take(i as int)),
            acc as int == dec_val(s@.take(i as int)),
        decreases s@.len() - i,
    {
        let b = *vstd::slice::slice_index_get(s, i);
        if b < 48u8 || b > 57u8 {
            assert(!is_digit(s@[i as int]));
            return Err(RespError::ParseIntError);
        }
        let d: u64 = (b - 48u8) as u64;
        proof {
            lemma_dec_val_take_succ(s@, i as int);
        }
        if acc > (limit - d) / 10 {
            proof {
                assert(acc * 10 + d > limit) by (nonlinear_arith)
                    requires
                        acc > (limit - d) / 10,
                        d <= 9,
                        d <= limit,
                        acc >= 0,
                ;
                assert(all_digits(s@.take(i + 1)));
                assert(dec_val(s@.take(i + 1)) > limit);
                if all_digits(s@) {
                    lemma_dec_val_mono(s@, i + 1);
                } else {
                    assert(!digits1(s@));
                }
            }
            return Err(RespError::ParseIntError);
        }
        proof {
            assert(acc * 10 + d <= limit) by (nonlinear_arith)
                requires
                    acc <= (limit - d) / 10,
                    d <= 9,
                    d <= limit,
                    acc >= 0,
            ;
        }
        acc = acc * 10 + d;
        i = i + 1;
    }
    proof {
        assert(s@.take(s@.len() as int) =~= s@);
    }
    Ok(acc)
}

/// Header of a length-prefixed frame: the line end and the parsed length.
pub open spec fn spec_parse_length(s: Seq<u8>, prefix: u8) -> Result<(int, int), SpecErr> {
    match spec_extract_simple(s, prefix) {
        Err(e) => Err(e),
        Ok(end) => {
            let body = s.subrange(1, end);
            if !digits1(body) || dec_val(body) > usize::MAX {
                Err(SpecErr::ParseIntError)
            } else {
                Ok((end, dec_val(body)))
            }
        },
    }
}

/// Parses `<prefix><decimal>\r\n`: the line end and the decimal value.
pub fn parse_length(buf: &[u8], prefix: u8) -> (r: Result<(usize, usize), RespError>)
    requires
        prefix != 13u8,
    ensures
        match r {
            Ok((end, n)) => spec_parse_length(buf@, prefix) == Ok::<(int, int), SpecErr>(
                (end as int, n as int),
            ) && 1 <= end && end + 2 <= buf@.len() && buf@.len() <= usize::MAX,
            Err(e) => spec_parse_length(buf@, prefix) == Err::<(int, int), SpecErr>(err_model(e)),
        },
{
    match extract_simple_frame_data(buf, prefix) {
        Err(e) => Err(e),
        Ok(end) => {
            let body = vstd::slice::slice_subrange(buf, 1, end);
            match parse_digits_u64(body, usize::MAX as u64) {
                Ok(v) => Ok((end, v as usize)),
                Err(e) => Err(e),
            }
        },
    }
}

/// Signed 64-bit body: an optional sign, then digits, within `i64` range.
pub open spec fn spec_parse_i64_body(s: Seq<u8>) -> Result<int, SpecErr> {
    if s.len() > 0 && (s[0] == 45u8 || s[0] == 43u8) {
        let t = s.drop_first();
        if !digits1(t) {
            Err(SpecErr::ParseIntError)
        } else {
            let v = if s[0] == 45u8 {
                -dec_val(t)
            } else {
                dec_val(t)
            };
            if v < i64::MIN || v > i64::MAX {
                Err(SpecErr::ParseIntError)
            } else {
                Ok(v)
            }
        }
    } else {
        if !digits1(s) {
            Err(SpecErr::ParseIntError)
        } else if dec_val(s) > i64::MAX {
            Err(SpecErr::ParseIntError)
        } else {
            Ok(dec_val(s))
        }
    }
}

/// Parses the body of an Integer frame.
pub fn parse_i64_body(s: &[u8]) -> (r: Result<i64, RespError>)
    ensures
        match r {
            Ok(v) => spec_parse_i64_body(s@) == Ok::<int, SpecErr>(v as int),
            Err(e) => spec_parse_i64_body(s@) == Err::<int, SpecErr>(err_model(e)),
        },
{
    if s.len() > 0 && (*vstd::slice::slice_index_get(s, 0) == 45u8 || *vstd::slice::slice_index_get(
        s,
        0,
    ) == 43u8) {
        let neg = *vstd::slice::slice_index_get(s, 0) == 45u8;
        let t = vstd::slice::slice_subrange(s, 1, s.len());
        proof {
            assert(t@ =~= s@.drop_first());
        }
        if neg {
            match parse_digits_u64(t, 9223372036854775808u64) {
                Ok(v) => {
                    let out: i64 = if v == 9223372036854775808u64 {
                        i64::MIN
                    } else {
                        -(v as i64)
                    };
                    Ok(out)
                },
                Err(e) => Err(e),
            }
        } else {
            match parse_digits_u64(t, 9223372036854775807u64) {
                Ok(v) => Ok(v as i64),
                Err(e) => Err(e),
            }
        }
    } else {
        match parse_digits_u64(s, 9223372036854775807u64) {
            Ok(v) => Ok(v as i64),
            Err(e) => Err(e),
        }
    }
}


// ---------------------------------------------------------------------------
// Fixed wire patterns.
// ---------------------------------------------------------------------------
pub open spec fn pat_bool_t() -> Seq<u8> {
    seq![35u8, 116u8, 13u8, 10u8]
}

pub open spec fn pat_bool_f() -> Seq<u8> {
    seq![35u8, 102u8, 13u8, 10u8]
}

pub open spec fn pat_null() -> Seq<u8> {
    seq![95u8, 13u8, 10u8]
}

pub open spec fn pat_null_array() -> Seq<u8> {
    seq![42u8, 45u8, 49u8, 13u8, 10u8]
}

pub open spec fn pat_null_bulk() -> Seq<u8> {
    seq![36u8, 45u8, 49u8, 13u8, 10u8]
}

/// A frame whose whole wire form is the fixed text `pat`.
pub open spec fn spec_expect_fixed(s: Seq<u8>, pat: Seq<u8>) -> Result<nat, SpecErr> {
    if s.len() < pat.len() {
        Err(SpecErr::NotComplete)
    } else if s.take(pat.len() as int) == pat {
        Ok(pat.len())
    } else {
        Err(SpecErr::InvalidFrameType)
    }
}

/// Matches the head of `buf` against the fixed text `expect`.
pub fn extract_fixed_data(buf: &[u8], expect: &[u8]) -> (r: Result<usize, RespError>)
    ensures
        match r {
            Ok(n) => spec_expect_fixed(buf@, expect@) == Ok::<nat, SpecErr>(n as nat) && n
                == expect@.len() && n <= buf@.len(),
            Err(e) => spec_expect_fixed(buf@, expect@) == Err::<nat, SpecErr>(err_model(e)),
        },
{
    if buf.len() < expect.len() {
        return Err(RespError::NotComplete);
    }
    let mut i: usize = 0;
    while i < expect.len()
        invariant
            i <= expect@.len(),
            expect@.len() <= buf@.len(),
            forall|j: int| 0 <= j < i ==> buf@[j] == expect@[j],
        decreases expect@.len() - i,
    {
        let a = *vstd::slice::slice_index_get(buf, i);
        let b = *vstd::slice::slice_index_get(expect, i);
        if a != b {
            proof {
                assert(buf@.take(expect@.len() as int)[i as int] != expect@[i as int]);
            }
            return Err(RespError::InvalidFrameType(frame_type_msg(expect[0])));
        }
        i = i + 1;
    }
    proof {
        assert(buf@.take(expect@.len() as int) =~= expect@);
    }
    Ok(expect.len())
}

// ---------------------------------------------------------------------------
// Lengths that complete frames would take at the head of the buffer.
// An `Ok` answer always lies within the buffer: an overrunning frame is
// `NotComplete`, never a length beyond the bytes at hand.
// ---------------------------------------------------------------------------
pub open spec fn spec_expect_simple(s: Seq<u8>, prefix: u8) -> Result<nat, SpecErr> {
    match spec_extract_simple(s, prefix) {
        Err(e) => Err(e),
        Ok(end) => Ok((end + 2) as nat),
    }
}

pub open spec fn spec_expect_bool(s: Seq<u8>) -> Result<nat, SpecErr> {
    if s.len() < 4 {
        Err(SpecErr::NotComplete)
    } else if s.take(4) == pat_bool_t() || s.take(4) == pat_bool_f() {
        Ok(4nat)
    } else {
        Err(SpecErr::InvalidFrameType)
    }
}

pub open spec fn spec_expect_bulk(s: Seq<u8>) -> Result<nat, SpecErr> {
    match spec_parse_length(s, 36u8) {
        Err(e) => Err(e),
        Ok((end, n)) => {
            if end + 2 + n + 2 > s.len() {
                Err(SpecErr::NotComplete)
            } else {
                Ok((end + 4 + n) as nat)
            }
        },
    }
}

/// Total length of `n` children (or `n` key/value pairs when `pairs` holds)
/// standing one after the other at the head of `rest`.
pub open spec fn spec_calc_kids(rest: Seq<u8>, n: nat, pairs: bool) -> Result<nat, SpecErr>
    decreases rest.len(), 3int, n,
{
    if n == 0 {
        Ok(0nat)
    } else if pairs {
        match spec_expect_simple(rest, 43u8) {
            Err(e) => Err(e),
            Ok(lk) => {
                if lk > rest.len() {
                    Err(SpecErr::NotComplete)
                } else {
                    match spec_expect_frame(rest.skip(lk as int)) {
                        Err(e) => Err(e),
                        Ok(lv) => {
                            if lk + lv > rest.len() {
                                Err(SpecErr::NotComplete)
                            } else {
                                match spec_calc_kids(
                                    rest.skip((lk + lv) as int),
                                    (n - 1) as nat,
                                    pairs,
                                ) {
                                    Err(e) => Err(e),
                                    Ok(t) => Ok((lk + lv + t) as nat),
                                }
                            }
                        },
                    }
                }
            },
        }
    } else {
        match spec_expect_frame(rest) {
            Err(e) => Err(e),
            Ok(l) => {
                if l > rest.len() {
                    Err(SpecErr::NotComplete)
                } else {
                    match spec_calc_kids(rest.skip(l as int), (n - 1) as nat, pairs) {
                        Err(e) => Err(e),
                        Ok(t) => Ok((l + t) as nat),
                    }
                }
            },
        }
    }
}

/// Length of an aggregate frame: header line, then the children's total.
pub open spec fn spec_expect_agg(s: Seq<u8>, prefix: u8, pairs: bool) -> Result<nat, SpecErr>
    decreases s.len(), 1int, 0int,
{
    match spec_parse_length(s, prefix) {
        Err(e) => Err(e),
        Ok((end, n)) => {
            if end < 1 || end + 2 > s.len() {
                Err(SpecErr::NotComplete)
            } else {
                match spec_calc_kids(s.skip(end + 2), n as nat, pairs) {
                    Err(e) => Err(e),
                    Ok(t) => Ok((end + 2 + t) as nat),
                }
            }
        },
    }
}

/// Length of the one complete frame at the head of `s`, whatever its kind.
/// The first byte picks the kind; `$-1\r\n` and `*-1\r\n` are tried before
/// the length-prefixed readings of `$` and `*`.
pub open spec fn spec_expect_frame(s: Seq<u8>) -> Result<nat, SpecErr>
    decreases s.len(), 2int, 0int,
{
    if s.len() == 0 {
        Err(SpecErr::NotComplete)
    } else {
        let c = s[0];
        if c == 43u8 {
            spec_expect_simple(s, 43u8)
        } else if c == 45u8 {
            spec_expect_simple(s, 45u8)
        } else if c == 58u8 {
            spec_expect_simple(s, 58u8)
        } else if c == 44u8 {
            spec_expect_simple(s, 44u8)
        } else if c == 35u8 {
            spec_expect_bool(s)
        } else if c == 95u8 {
            spec_expect_fixed(s, pat_null())
        } else if c == 36u8 {
            match spec_expect_fixed(s, pat_null_bulk()) {
                Ok(n) => Ok(n),
                Err(_) => spec_expect_bulk(s),
            }
        } else if c == 42u8 {
            match spec_expect_fixed(s, pat_null_array()) {
                Ok(n) => Ok(n),
                Err(_) => spec_expect_agg(s, 42u8, false),
            }
        } else if c == 37u8 {
            spec_expect_agg(s, 37u8, true)
        } else if c == 126u8 {
            spec_expect_agg(s, 126u8, false)
        } else {
            Err(SpecErr::InvalidFrameType)
        }
    }
}

// ---------------------------------------------------------------------------
// What decoding one frame yields: the model and the bytes it consumes.
// ---------------------------------------------------------------------------
pub open spec fn spec_parse_simple_string(s: Seq<u8>) -> Result<(FrameModel, nat), SpecErr> {
    match spec_extract_simple(s, 43u8) {
        Err(e) => Err(e),
        Ok(end) => Ok((FrameModel::SimpleString(s.subrange(1, end)), (end + 2) as nat)),
    }
}

pub open spec fn spec_parse_simple_error(s: Seq<u8>) -> Result<(FrameModel, nat), SpecErr> {
    match spec_extract_simple(s, 45u8) {
        Err(e) => Err(e),
        Ok(end) => Ok((FrameModel::SimpleError(s.subrange(1, end)), (end + 2) as nat)),
    }
}

pub open spec fn spec_parse_integer(s: Seq<u8>) -> Result<(FrameModel, nat), SpecErr> {
    match spec_extract_simple(s, 58u8) {
        Err(e) => Err(e),
        Ok(end) => match spec_parse_i64_body(s.subrange(1, end)) {
            Err(e) => Err(e),
            Ok(v) => Ok((FrameModel::Integer(v), (end + 2) as nat)),
        },
    }
}

pub open spec fn spec_parse_double(s: Seq<u8>) -> Result<(FrameModel, nat), SpecErr> {
    match spec_extract_simple(s, 44u8) {
        Err(e) => Err(e),
        Ok(end) => {
            let body = s.subrange(1, end);
            if float_body(body) {
                Ok((FrameModel::Double(body), (end + 2) as nat))
            } else {
                Err(SpecErr::ParseFloatError)
            }
        },
    }
}

pub open spec fn spec_parse_bool(s: Seq<u8>) -> Result<(FrameModel, nat), SpecErr> {
    if s.len() < 4 {
        Err(SpecErr::NotComplete)
    } else if s.take(4) == pat_bool_t() {
        Ok((FrameModel::Boolean(true), 4nat))
    } else if s.take(4) == pat_bool_f() {
        Ok((FrameModel::Boolean(false), 4nat))
    } else {
        Err(SpecErr::InvalidFrameType)
    }
}

pub open spec fn spec_parse_null(s: Seq<u8>) -> Result<(FrameModel, nat), SpecErr> {
    match spec_expect_fixed(s, pat_null()) {
        Err(e) => Err(e),
        Ok(n) => Ok((FrameModel::Null, n)),
    }
}

pub open spec fn spec_parse_null_array(s: Seq<u8>) -> Result<(FrameModel, nat), SpecErr> {
    match spec_expect_fixed(s, pat_null_array()) {
        Err(e) => Err(e),
        Ok(n) => Ok((FrameModel::NullArray, n)),
    }
}

pub open spec fn spec_parse_null_bulk(s: Seq<u8>) -> Result<(FrameModel, nat), SpecErr> {
    match spec_expect_fixed(s, pat_null_bulk()) {
        Err(e) => Err(e),
        Ok(n) => Ok((FrameModel::NullBulkString, n)),
    }
}

/// A bulk string: header, payload of exactly the stated length, closing CRLF.
pub open spec fn spec_parse_bulk(s: Seq<u8>) -> Result<(FrameModel, nat), SpecErr> {
    match spec_parse_length(s, 36u8) {
        Err(e) => Err(e),
        Ok((end, n)) => {
            if end + 2 + n + 2 > s.len() {
                Err(SpecErr::NotComplete)
            } else if s.subrange(end + 2 + n, end + 4 + n) != crate::resp::encode::crlf() {
                Err(SpecErr::InvalidFrame)
            } else {
                Ok((FrameModel::BulkString(s.subrange(end + 2, end + 2 + n)), (end + 4 + n) as nat))
            }
        },
    }
}

/// An array or set frame: header, a length check over all children, then the
/// children decoded in order.
pub open spec fn spec_parse_agg(s: Seq<u8>, prefix: u8) -> Result<(FrameModel, nat), SpecErr>
    decreases s.len(), 4int, 0int,
{
    match spec_parse_length(s, prefix) {
        Err(e) => Err(e),
        Ok((end, n)) => {
            if end < 1 || end + 2 > s.len() {
                Err(SpecErr::NotComplete)
            } else {
                match spec_calc_kids(s.skip(end + 2), n as nat, false) {
                    Err(e) => Err(e),
                    Ok(_) => match spec_parse_items(s.skip(end + 2), n as nat) {
                        Err(e) => Err(e),
                        Ok((items, used)) => Ok(
                            (
                                if prefix == 42u8 {
                                    FrameModel::Array(items)
                                } else {
                                    FrameModel::SetFrame(items)
                                },
                                (end + 2 + used) as nat,
                            ),
                        ),
                    },
                }
            }
        },
    }
}

pub open spec fn spec_parse_items(rest: Seq<u8>, n: nat) -> Result<(Seq<FrameModel>, nat), SpecErr>
    decreases rest.len(), 6int, n,
{
    if n == 0 {
        Ok((Seq::empty(), 0nat))
    } else {
        match spec_parse(rest) {
            Err(e) => Err(e),
            Ok((m, used)) => {
                if used > rest.len() {
                    Err(SpecErr::NotComplete)
                } else {
                    match spec_parse_items(rest.skip(used as int), (n - 1) as nat) {
                        Err(e) => Err(e),
                        Ok((ms, used2)) => Ok((seq![m] + ms, (used + used2) as nat)),
                    }
                }
            },
        }
    }
}

/// A map frame: header, a length check over all pairs, then each SimpleString
/// key and value decoded in order; a repeated key keeps the later value.
pub open spec fn spec_parse_map(s: Seq<u8>) -> Result<(FrameModel, nat), SpecErr>
    decreases s.len(), 4int, 0int,
{
    match spec_parse_length(s, 37u8) {
        Err(e) => Err(e),
        Ok((end, n)) => {
            if end < 1 || end + 2 > s.len() {
                Err(SpecErr::NotComplete)
            } else {
                match spec_calc_kids(s.skip(end + 2), n as nat, true) {
                    Err(e) => Err(e),
                    Ok(_) => match spec_parse_pairs(s.skip(end + 2), n as nat, Seq::empty()) {
                        Err(e) => Err(e),
                        Ok((ps, used)) => Ok((FrameModel::MapFrame(ps), (end + 2 + used) as nat)),
                    },
                }
            }
        },
    }
}

pub open spec fn spec_parse_pairs(
    rest: Seq<u8>,
    n: nat,
    acc: Seq<(Seq<u8>, FrameModel)>,
) -> Result<(Seq<(Seq<u8>, FrameModel)>, nat), SpecErr>
    decreases rest.len(), 6int, n,
{
    if n == 0 {
        Ok((acc, 0nat))
    } else {
        match spec_extract_simple(rest, 43u8) {
            Err(e) => Err(e),
            Ok(end) => {
                let key = rest.subrange(1, end);
                let lk = end + 2;
                if end < 1 || lk > rest.len() {
                    Err(SpecErr::NotComplete)
                } else {
                    match spec_parse(rest.skip(lk)) {
                        Err(e) => Err(e),
                        Ok((v, lv)) => {
                            if lk + lv > rest.len() {
                                Err(SpecErr::NotComplete)
                            } else {
                                match spec_parse_pairs(
                                    rest.skip(lk + lv),
                                    (n - 1) as nat,
                                    sorted_insert_pair(acc, key, v),
                                ) {
                                    Err(e) => Err(e),
                                    Ok((ps, used2)) => Ok((ps, (lk + lv + used2) as nat)),
                                }
                            }
                        },
                    }
                }
            },
        }
    }
}

/// Decoding one frame from the head of `s`: the model it denotes and the
/// bytes it consumes. Errors are as the original taxonomy: `NotComplete`
/// asks for more bytes; the others reject the input.
pub open spec fn spec_parse(s: Seq<u8>) -> Result<(FrameModel, nat), SpecErr>
    decreases s.len(), 5int, 0int,
{
    if s.len() == 0 {
        Err(SpecErr::NotComplete)
    } else {
        let c = s[0];
        if c == 43u8 {
            spec_parse_simple_string(s)
        } else if c == 45u8 {
            spec_parse_simple_error(s)
        } else if c == 58u8 {
            spec_parse_integer(s)
        } else if c == 44u8 {
            spec_parse_double(s)
        } else if c == 35u8 {
            spec_parse_bool(s)
        } else if c == 95u8 {
            spec_parse_null(s)
        } else if c == 36u8 {
            match spec_expect_fixed(s, pat_null_bulk()) {
                Ok(n) => Ok((FrameModel::NullBulkString, n)),
                Err(_) => spec_parse_bulk(s),
            }
        } else if c == 42u8 {
            match spec_expect_fixed(s, pat_null_array()) {
                Ok(n) => Ok((FrameModel::NullArray, n)),
                Err(_) => spec_parse_agg(s, 42u8),
            }
        } else if c == 37u8 {
            spec_parse_map(s)
        } else if c == 126u8 {
            spec_parse_agg(s, 126u8)
        } else {
            Err(SpecErr::InvalidFrameType)
        }
    }
}


// ---------------------------------------------------------------------------
// Executable look-ahead: lengths without consumption.
// ---------------------------------------------------------------------------
pub(crate) fn bool_t_pat_vec() -> (r: Vec<u8>)
    ensures
        r@ == pat_bool_t(),
{
    let mut v: Vec<u8> = Vec::new();
    v.push(35u8);
    v.push(116u8);
    v.push(13u8);
    v.push(10u8);
    proof {
        assert(v@ =~= pat_bool_t());
    }
    v
}

pub(crate) fn bool_f_pat_vec() -> (r: Vec<u8>)
    ensures
        r@ == pat_bool_f(),
{
    let mut v: Vec<u8> = Vec::new();
    v.push(35u8);
    v.push(102u8);
    v.push(13u8);
    v.push(10u8);
    proof {
        assert(v@ =~= pat_bool_f());
    }
    v
}

pub(crate) fn null_pat_vec() -> (r: Vec<u8>)
    ensures
        r@ == pat_null(),
{
    let mut v: Vec<u8> = Vec::new();
    v.push(95u8);
    v.push(13u8);
    v.push(10u8);
    proof {
        assert(v@ =~= pat_null());
    }
    v
}

pub(crate) fn null_array_pat_vec() -> (r: Vec<u8>)
    ensures
        r@ == pat_null_array(),
{
    let mut v: Vec<u8> = Vec::new();
    v.push(42u8);
    v.push(45u8);
    v.push(49u8);
    v.push(13u8);
    v.push(10u8);
    proof {
        assert(v@ =~= pat_null_array());
    }
    v
}

pub(crate) fn null_bulk_pat_vec() -> (r: Vec<u8>)
    ensures
        r@ == pat_null_bulk(),
{
    let mut v: Vec<u8> = Vec::new();
    v.push(36u8);
    v.push(45u8);
    v.push(49u8);
    v.push(13u8);
    v.push(10u8);
    proof {
        assert(v@ =~= pat_null_bulk());
    }
    v
}

/// Adds an already-consumed byte count to a pending children total.
pub open spec fn calc_shift(o: Result<nat, SpecErr>, k: nat) -> Result<nat, SpecErr> {
    match o {
        Ok(t) => Ok((t + k) as nat),
        Err(e) => Err(e),
    }
}

/// Walks the `len` children (or key/value pairs, for a map header) that start
/// right after an aggregate header line ending at `end`, summing how many
/// bytes they take; the whole walk stays within the buffer. No byte is
/// consumed.
#[verifier::loop_isolation(false)]
pub fn calc_total_length(buf: &[u8], end: usize, len: usize, prefix: u8) -> (r: Result<
    usize,
    RespError,
>)
    requires
        prefix == 42u8 || prefix == 37u8 || prefix == 126u8,
        1 <= end,
        end + 2 <= buf@.len(),
    ensures
        match r {
            Ok(total) => spec_calc_kids(buf@.skip(end as int + 2), len as nat, prefix == 37u8)
                == Ok::<nat, SpecErr>((total - end - 2) as nat) && end + 2 <= total <= buf@.len(),
            Err(e) => spec_calc_kids(buf@.skip(end as int + 2), len as nat, prefix == 37u8)
                == Err::<nat, SpecErr>(err_model(e)),
        },
    decreases buf@.len(), 1int,
{
    let ghost pairs = prefix == 37u8;
    let ghost rest0 = buf@.skip(end as int + 2);
    let blen: usize = buf.len();
    let mut total: usize = end + 2;
    let mut k: usize = 0;
    proof {
        assert(buf@.skip(total as int) =~= rest0);
    }
    while k < len
        invariant
            k <= len,
            end + 2 <= total <= buf@.len(),
            spec_calc_kids(rest0, len as nat, pairs) == calc_shift(
                spec_calc_kids(buf@.skip(total as int), (len - k) as nat, pairs),
                (total - end - 2) as nat,
            ),
        decreases len - k,
    {
        let ghost rest = buf@.skip(total as int);
        let data = vstd::slice::slice_subrange(buf, total, buf.len());
        proof {
            assert(data@ =~= rest);
        }
        if prefix == 37u8 {
            let kend = match extract_simple_frame_data(data, 43u8) {
                Ok(kend) => kend,
                Err(e) => {
                    return Err(e);
                },
            };
            let lk = kend + 2;
            let data2 = vstd::slice::slice_subrange(buf, total + lk, buf.len());
            proof {
                assert(data2@ =~= rest.skip(lk as int));
            }
            let lv = match expect_frame(data2) {
                Ok(lv) => lv,
                Err(e) => {
                    return Err(e);
                },
            };
            proof {
                assert(buf@.skip((total + lk + lv) as int) =~= rest.skip(lk + lv as int));
            }
            total = total + lk + lv;
        } else {
            let l = match expect_frame(data) {
                Ok(l) => l,
                Err(e) => {
                    return Err(e);
                },
            };
            proof {
                assert(buf@.skip((total + l) as int) =~= rest.skip(l as int));
            }
            total = total + l;
        }
        k = k + 1;
    }
    proof {
        assert(spec_calc_kids(buf@.skip(total as int), 0nat, pairs) == Ok::<nat, SpecErr>(0nat));
    }
    Ok(total)
}

/// How many bytes the one complete frame at the head of `buf` takes, without
/// consuming anything: the executable face of `spec_expect_frame`.
pub fn expect_frame(buf: &[u8]) -> (r: Result<usize, RespError>)
    ensures
        match r {
            Ok(n) => spec_expect_frame(buf@) == Ok::<nat, SpecErr>(n as nat) && n <= buf@.len(),
            Err(e) => spec_expect_frame(buf@) == Err::<nat, SpecErr>(err_model(e)),
        },
    decreases buf@.len(), 2int,
{
    if buf.len() == 0 {
        return Err(RespError::NotComplete);
    }
    let c = *vstd::slice::slice_index_get(buf, 0);
    if c == 43u8 || c == 45u8 || c == 58u8 || c == 44u8 {
        match extract_simple_frame_data(buf, c) {
            Ok(end) => Ok(end + CRLF_LEN),
            Err(e) => Err(e),
        }
    } else if c == 35u8 {
        let tp = bool_t_pat_vec();
        match extract_fixed_data(buf, tp.as_slice()) {
            Ok(n) => Ok(n),
            Err(RespError::NotComplete) => Err(RespError::NotComplete),
            Err(_) => {
                let fp = bool_f_pat_vec();
                match extract_fixed_data(buf, fp.as_slice()) {
                    Ok(n) => Ok(n),
                    Err(e) => Err(e),
                }
            },
        }
    } else if c == 95u8 {
        let np = null_pat_vec();
        match extract_fixed_data(buf, np.as_slice()) {
            Ok(n) => Ok(n),
            Err(e) => Err(e),
        }
    } else if c == 36u8 {
        let nb = null_bulk_pat_vec();
        match extract_fixed_data(buf, nb.as_slice()) {
            Ok(n) => Ok(n),
            Err(_) => {
                match parse_length(buf, 36u8) {
                    Err(e) => Err(e),
                    Ok((end, n)) => {
                        let avail = buf.len() - (end + 2);
                        if avail < 2 || n > avail - 2 {
                            Err(RespError::NotComplete)
                        } else {
                            Ok(end + 2 + n + 2)
                        }
                    },
                }
            },
        }
    } else if c == 42u8 {
        let na = null_array_pat_vec();
        match extract_fixed_data(buf, na.as_slice()) {
            Ok(n) => Ok(n),
            Err(_) => {
                match parse_length(buf, 42u8) {
                    Err(e) => Err(e),
                    Ok((end, n)) => calc_total_length(buf, end, n, 42u8),
                }
            },
        }
    } else if c == 37u8 {
        match parse_length(buf, 37u8) {
            Err(e) => Err(e),
            Ok((end, n)) => calc_total_length(buf, end, n, 37u8),
        }
    } else if c == 126u8 {
        match parse_length(buf, 126u8) {
            Err(e) => Err(e),
            Ok((end, n)) => calc_total_length(buf, end, n, 126u8),
        }
    } else {
        Err(RespError::InvalidFrameType(frame_type_msg(c)))
    }
}


// ---------------------------------------------------------------------------
// Executable decoding over plain slices. Nothing is consumed: each function
// returns the decoded value and how many bytes it spans.
// ---------------------------------------------------------------------------
/// An `Ok` decode: the spec agrees on the model and exactly the consumed
/// prefix left the buffer.
pub open spec fn decode_ok(
    sr: Result<(FrameModel, nat), SpecErr>,
    m: FrameModel,
    s0: Seq<u8>,
    s1: Seq<u8>,
) -> bool {
    sr matches Ok(p) && p.0 == m && s1 == s0.skip(p.1 as int)
}

/// An `Err` decode: the spec agrees on the outcome and the buffer is intact.
pub open spec fn decode_err(
    sr: Result<(FrameModel, nat), SpecErr>,
    e: RespError,
    s0: Seq<u8>,
    s1: Seq<u8>,
) -> bool {
    sr matches Err(se) && se == err_model(e) && s1 == s0
}

pub fn parse_ss_slice(buf: &[u8]) -> (r: Result<(SimpleString, usize), RespError>)
    ensures
        match r {
            Ok((v, n)) => spec_parse_simple_string(buf@) == Ok::<(FrameModel, nat), SpecErr>(
                (FrameModel::SimpleString(v.0@), n as nat),
            ) && n <= buf@.len(),
            Err(e) => spec_parse_simple_string(buf@) == Err::<(FrameModel, nat), SpecErr>(
                err_model(e),
            ),
        },
{
    match extract_simple_frame_data(buf, 43u8) {
        Err(e) => Err(e),
        Ok(end) => {
            let body = vstd::slice::slice_subrange(buf, 1, end);
            let v = vstd::slice::slice_to_vec(body);
            Ok((SimpleString(v), end + 2))
        },
    }
}

pub fn parse_se_slice(buf: &[u8]) -> (r: Result<(SimpleError, usize), RespError>)
    ensures
        match r {
            Ok((v, n)) => spec_parse_simple_error(buf@) == Ok::<(FrameModel, nat), SpecErr>(
                (FrameModel::SimpleError(v.0@), n as nat),
            ) && n <= buf@.len(),
            Err(e) => spec_parse_simple_error(buf@) == Err::<(FrameModel, nat), SpecErr>(
                err_model(e),
            ),
        },
{
    match extract_simple_frame_data(buf, 45u8) {
        Err(e) => Err(e),
        Ok(end) => {
            let body = vstd::slice::slice_subrange(buf, 1, end);
            let v = vstd::slice::slice_to_vec(body);
            Ok((SimpleError(v), end + 2))
        },
    }
}

pub fn parse_int_slice(buf: &[u8]) -> (r: Result<(i64, usize), RespError>)
    ensures
        match r {
            Ok((v, n)) => spec_parse_integer(buf@) == Ok::<(FrameModel, nat), SpecErr>(
                (FrameModel::Integer(v as int), n as nat),
            ) && n <= buf@.len(),
            Err(e) => spec_parse_integer(buf@) == Err::<(FrameModel, nat), SpecErr>(err_model(e)),
        },
{
    match extract_simple_frame_data(buf, 58u8) {
        Err(e) => Err(e),
        Ok(end) => {
            let body = vstd::slice::slice_subrange(buf, 1, end);
            match parse_i64_body(body) {
                Err(e) => Err(e),
                Ok(v) => Ok((v, end + 2)),
            }
        },
    }
}

pub fn parse_double_slice(buf: &[u8]) -> (r: Result<(RespDouble, usize), RespError>)
    ensures
        match r {
            Ok((v, n)) => spec_parse_double(buf@) == Ok::<(FrameModel, nat), SpecErr>(
                (FrameModel::Double(v.0@), n as nat),
            ) && n <= buf@.len(),
            Err(e) => spec_parse_double(buf@) == Err::<(FrameModel, nat), SpecErr>(err_model(e)),
        },
{
    match extract_simple_frame_data(buf, 44u8) {
        Err(e) => Err(e),
        Ok(end) => {
            let body = vstd::slice::slice_subrange(buf, 1, end);
            if is_float_body(body) {
                Ok((RespDouble(vstd::slice::slice_to_vec(body)), end + 2))
            } else {
                Err(RespError::ParseFloatError)
            }
        },
    }
}

pub fn parse_bool_slice(buf: &[u8]) -> (r: Result<(bool, usize), RespError>)
    ensures
        match r {
            Ok((v, n)) => spec_parse_bool(buf@) == Ok::<(FrameModel, nat), SpecErr>(
                (FrameModel::Boolean(v), n as nat),
            ) && n <= buf@.len(),
            Err(e) => spec_parse_bool(buf@) == Err::<(FrameModel, nat), SpecErr>(err_model(e)),
        },
{
    let tp = bool_t_pat_vec();
    match extract_fixed_data(buf, tp.as_slice()) {
        Ok(n) => Ok((true, n)),
        Err(RespError::NotComplete) => Err(RespError::NotComplete),
        Err(_) => {
            let fp = bool_f_pat_vec();
            match extract_fixed_data(buf, fp.as_slice()) {
                Ok(n) => Ok((false, n)),
                Err(e) => Err(e),
            }
        },
    }
}

/// Complains about a bulk payload that is not closed by CRLF.
fn bulk_end_msg() -> Vec<u8> {
    let mut m: Vec<u8> = Vec::new();
    m.push(98u8);  // b
    m.push(97u8);  // a
    m.push(100u8);  // d
    m.push(32u8);
    m.push(101u8);  // e
    m.push(110u8);  // n
    m.push(100u8);  // d
    m
}

pub fn parse_bulk_slice(buf: &[u8]) -> (r: Result<(BulkString, usize), RespError>)
    ensures
        match r {
            Ok((v, n)) => spec_parse_bulk(buf@) == Ok::<(FrameModel, nat), SpecErr>(
                (FrameModel::BulkString(v.0@), n as nat),
            ) && n <= buf@.len(),
            Err(e) => spec_parse_bulk(buf@) == Err::<(FrameModel, nat), SpecErr>(err_model(e)),
        },
{
    match parse_length(buf, 36u8) {
        Err(e) => Err(e),
        Ok((end, n)) => {
            let blen = buf.len();
            let avail = blen - (end + 2);
            if avail < 2 || n > avail - 2 {
                return Err(RespError::NotComplete);
            }
            let c1 = *vstd::slice::slice_index_get(buf, end + 2 + n);
            let c2 = *vstd::slice::slice_index_get(buf, end + 2 + n + 1);
            proof {
                assert(buf@.subrange(end as int + 2 + n as int, end as int + 4 + n as int) =~= seq![
                    buf@[end as int + 2 + n as int],
                    buf@[end as int + 3 + n as int],
                ]);
            }
            if c1 != 13u8 || c2 != 10u8 {
                proof {
                    assert(buf@.subrange(end as int + 2 + n as int, end as int + 4 + n as int)
                        != crate::resp::encode::crlf());
                }
                return Err(RespError::InvalidFrame(bulk_end_msg()));
            }
            proof {
                assert(buf@.subrange(end as int + 2 + n as int, end as int + 4 + n as int)
                    =~= crate::resp::encode::crlf());
            }
            let body = vstd::slice::slice_subrange(buf, end + 2, end + 2 + n);
            Ok((BulkString(vstd::slice::slice_to_vec(body)), end + 2 + n + 2))
        },
    }
}

/// Splices a parsed prefix of children onto a pending tail.
pub open spec fn items_shift(
    o: Result<(Seq<FrameModel>, nat), SpecErr>,
    pre: Seq<FrameModel>,
    k: nat,
) -> Result<(Seq<FrameModel>, nat), SpecErr> {
    match o {
        Ok(p) => Ok((pre + p.0, (p.1 + k) as nat)),
        Err(e) => Err(e),
    }
}

/// Adds bytes already consumed by parsed pairs onto a pending tail.
pub open spec fn pairs_shift(
    o: Result<(Seq<(Seq<u8>, FrameModel)>, nat), SpecErr>,
    k: nat,
) -> Result<(Seq<(Seq<u8>, FrameModel)>, nat), SpecErr> {
    match o {
        Ok(p) => Ok((p.0, (p.1 + k) as nat)),
        Err(e) => Err(e),
    }
}

/// Decodes the children of an array or set frame.
#[verifier::loop_isolation(false)]
pub fn parse_agg_slice(buf: &[u8], prefix: u8) -> (r: Result<(Vec<RespFrame>, usize), RespError>)
    requires
        prefix == 42u8 || prefix == 126u8,
    ensures
        match r {
            Ok((items, n)) => spec_parse_agg(buf@, prefix) == Ok::<(FrameModel, nat), SpecErr>(
                (
                    if prefix == 42u8 {
                        FrameModel::Array(dv_seq(items@))
                    } else {
                        FrameModel::SetFrame(dv_seq(items@))
                    },
                    n as nat,
                ),
            ) && n <= buf@.len(),
            Err(e) => spec_parse_agg(buf@, prefix) == Err::<(FrameModel, nat), SpecErr>(
                err_model(e),
            ),
        },
    decreases buf@.len(), 3int,
{
    let (end, n) = match parse_length(buf, prefix) {
        Err(e) => {
            return Err(e);
        },
        Ok(p) => p,
    };
    match calc_total_length(buf, end, n, prefix) {
        Err(e) => {
            return Err(e);
        },
        Ok(_) => {},
    }
    let blen = buf.len();
    let ghost rest0 = buf@.skip(end as int + 2);
    let mut items: Vec<RespFrame> = Vec::with_capacity(if n < 1024 {
        n
    } else {
        1024
    });
    let mut used: usize = 0;
    let mut k: usize = 0;
    proof {
        assert(buf@.skip((end + 2 + used) as int) =~= rest0);
        let o = spec_parse_items(rest0, n as nat);
        match o {
            Ok(p) => {
                assert(Seq::<FrameModel>::empty() + p.0 =~= p.0);
                assert(items_shift(o, dv_seq(items@), 0nat) == o);
            },
            Err(_) => {},
        }
    }
    while k < n
        invariant
            k <= n,
            items@.len() == k,
            end + 2 + used <= blen,
            spec_parse_items(rest0, n as nat) == items_shift(
                spec_parse_items(buf@.skip((end + 2 + used) as int), (n - k) as nat),
                dv_seq(items@),
                used as nat,
            ),
        decreases n - k,
    {
        let ghost rest = buf@.skip((end + 2 + used) as int);
        let data = vstd::slice::slice_subrange(buf, end + 2 + used, blen);
        proof {
            assert(data@ =~= rest);
        }
        match parse_frame_slice(data) {
            Err(e) => {
                return Err(e);
            },
            Ok((f, u1)) => {
                proof {
                    lemma_dv_seq_take_snoc(items@.push(f), k as int);
                    assert(items@.push(f).take(k as int) =~= items@);
                    assert(items@.push(f).take(k as int + 1) =~= items@.push(f));
                    assert(buf@.skip((end + 2 + used + u1) as int) =~= rest.skip(u1 as int));
                    let inner = spec_parse_items(rest.skip(u1 as int), (n - k - 1) as nat);
                    match inner {
                        Ok(p) => {
                            assert((dv_seq(items@) + seq![dv(f)]) + p.0 =~= dv_seq(items@) + (seq![
                                dv(f),
                            ] + p.0));
                        },
                        Err(_) => {},
                    }
                }
                items.push(f);
                used = used + u1;
                k = k + 1;
            },
        }
    }
    proof {
        assert(spec_parse_items(buf@.skip((end + 2 + used) as int), 0nat) == Ok::<
            (Seq<FrameModel>, nat),
            SpecErr,
        >((Seq::empty(), 0nat)));
        assert(dv_seq(items@) + Seq::<FrameModel>::empty() =~= dv_seq(items@));
    }
    Ok((items, end + 2 + used))
}

/// Decodes the key/value pairs of a map frame into sorted order.
#[verifier::loop_isolation(false)]
pub fn parse_map_slice(buf: &[u8]) -> (r: Result<(RespMap, usize), RespError>)
    ensures
        match r {
            Ok((m, n)) => spec_parse_map(buf@) == Ok::<(FrameModel, nat), SpecErr>(
                (FrameModel::MapFrame(dv_pairs(m.0@)), n as nat),
            ) && n <= buf@.len(),
            Err(e) => spec_parse_map(buf@) == Err::<(FrameModel, nat), SpecErr>(err_model(e)),
        },
    decreases buf@.len(), 3int,
{
    let (end, n) = match parse_length(buf, 37u8) {
        Err(e) => {
            return Err(e);
        },
        Ok(p) => p,
    };
    match calc_total_length(buf, end, n, 37u8) {
        Err(e) => {
            return Err(e);
        },
        Ok(_) => {},
    }
    let blen = buf.len();
    let ghost rest0 = buf@.skip(end as int + 2);
    let mut m = RespMap::new();
    let mut used: usize = 0;
    let mut k: usize = 0;
    proof {
        assert(buf@.skip((end + 2 + used) as int) =~= rest0);
        assert(dv_pairs(m.0@) =~= Seq::<(Seq<u8>, FrameModel)>::empty());
        let o = spec_parse_pairs(rest0, n as nat, Seq::empty());
        match o {
            Ok(p) => {
                assert(pairs_shift(o, 0nat) == o);
            },
            Err(_) => {},
        }
    }
    while k < n
        invariant
            k <= n,
            end + 2 + used <= blen,
            spec_parse_pairs(rest0, n as nat, Seq::empty()) == pairs_shift(
                spec_parse_pairs(
                    buf@.skip((end + 2 + used) as int),
                    (n - k) as nat,
                    dv_pairs(m.0@),
                ),
                used as nat,
            ),
        decreases n - k,
    {
        let ghost rest = buf@.skip((end + 2 + used) as int);
        let data = vstd::slice::slice_subrange(buf, end + 2 + used, blen);
        proof {
            assert(data@ =~= rest);
        }
        let kend = match extract_simple_frame_data(data, 43u8) {
            Err(e) => {
                return Err(e);
            },
            Ok(kend) => kend,
        };
        let keyslice = vstd::slice::slice_subrange(data, 1, kend);
        let key = vstd::slice::slice_to_vec(keyslice);
        let lk = kend + 2;
        let data2 = vstd::slice::slice_subrange(buf, end + 2 + used + lk, blen);
        proof {
            assert(data2@ =~= rest.skip(lk as int));
        }
        match parse_frame_slice(data2) {
            Err(e) => {
                return Err(e);
            },
            Ok((fv, lv)) => {
                proof {
                    assert(buf@.skip((end + 2 + used + lk + lv) as int) =~= rest.skip(
                        (lk + lv) as int,
                    ));
                    assert(key@ == rest.subrange(1, kend as int));
                }
                m.insert(key, fv);
                used = used + lk + lv;
                k = k + 1;
            },
        }
    }
    proof {
        assert(spec_parse_pairs(buf@.skip((end + 2 + used) as int), 0nat, dv_pairs(m.0@)) == Ok::<
            (Seq<(Seq<u8>, FrameModel)>, nat),
            SpecErr,
        >((dv_pairs(m.0@), 0nat)));
    }
    Ok((m, end + 2 + used))
}

/// Decodes the one complete frame at the head of `buf`: the executable face
/// of `spec_parse`.
pub fn parse_frame_slice(buf: &[u8]) -> (r: Result<(RespFrame, usize), RespError>)
    ensures
        match r {
            Ok((f, n)) => spec_parse(buf@) == Ok::<(FrameModel, nat), SpecErr>(
                (dv(f), n as nat),
            ) && n <= buf@.len(),
            Err(e) => spec_parse(buf@) == Err::<(FrameModel, nat), SpecErr>(err_model(e)),
        },
    decreases buf@.len(), 4int,
{
    if buf.len() == 0 {
        return Err(RespError::NotComplete);
    }
    let c = *vstd::slice::slice_index_get(buf, 0);
    if c == 43u8 {
        match parse_ss_slice(buf) {
            Ok((v, n)) => Ok((RespFrame::SimpleString(v), n)),
            Err(e) => Err(e),
        }
    } else if c == 45u8 {
        match parse_se_slice(buf) {
            Ok((v, n)) => Ok((RespFrame::SimpleError(v), n)),
            Err(e) => Err(e),
        }
    } else if c == 58u8 {
        match parse_int_slice(buf) {
            Ok((v, n)) => Ok((RespFrame::Integer(v), n)),
            Err(e) => Err(e),
        }
    } else if c == 44u8 {
        match parse_double_slice(buf) {
            Ok((v, n)) => Ok((RespFrame::Double(v), n)),
            Err(e) => Err(e),
        }
    } else if c == 35u8 {
        match parse_bool_slice(buf) {
            Ok((v, n)) => Ok((RespFrame::Boolean(v), n)),
            Err(e) => Err(e),
        }
    } else if c == 95u8 {
        let np = null_pat_vec();
        match extract_fixed_data(buf, np.as_slice()) {
            Ok(n) => Ok((RespFrame::Null(RespNull), n)),
            Err(e) => Err(e),
        }
    } else if c == 36u8 {
        let nb = null_bulk_pat_vec();
        match extract_fixed_data(buf, nb.as_slice()) {
            Ok(n) => Ok((RespFrame::NullBulkString(RespNullBulkString), n)),
            Err(_) => match parse_bulk_slice(buf) {
                Ok((v, n)) => Ok((RespFrame::BulkString(v), n)),
                Err(e) => Err(e),
            },
        }
    } else if c == 42u8 {
        let na = null_array_pat_vec();
        match extract_fixed_data(buf, na.as_slice()) {
            Ok(n) => Ok((RespFrame::NullArray(RespNullArray), n)),
            Err(_) => match parse_agg_slice(buf, 42u8) {
                Ok((items, n)) => Ok((RespFrame::Array(RespArray(items)), n)),
                Err(e) => Err(e),
            },
        }
    } else if c == 37u8 {
        match parse_map_slice(buf) {
            Ok((m, n)) => Ok((RespFrame::MapFrame(m), n)),
            Err(e) => Err(e),
        }
    } else if c == 126u8 {
        match parse_agg_slice(buf, 126u8) {
            Ok((items, n)) => Ok((RespFrame::SetFrame(RespSet(items)), n)),
            Err(e) => Err(e),
        }
    } else {
        Err(RespError::InvalidFrameType(frame_type_msg(c)))
    }
}

/// Every frame type decodes itself from the front of a growable buffer and
/// reports how many bytes a complete frame would take, without consuming.
pub trait RespDecode: Sized {
    fn decode(buf: &mut BytesMut) -> Result<Self, RespError>;

    fn expect_length(buf: &[u8]) -> Result<usize, RespError>;
}


impl RespDecode for RespFrame {
    /// On success exactly the frame's bytes leave the buffer; on any error,
    /// none do.
    fn decode(buf: &mut BytesMut) -> (r: Result<Self, RespError>)
        ensures
            match r {
                Ok(v) => decode_ok(
                    spec_parse(bm_bytes(*old(buf))),
                    dv(v),
                    bm_bytes(*old(buf)),
                    bm_bytes(*final(buf)),
                ),
                Err(e) => decode_err(
                    spec_parse(bm_bytes(*old(buf))),
                    e,
                    bm_bytes(*old(buf)),
                    bm_bytes(*final(buf)),
                ),
            },
    {
        let s = bm_slice(buf);
        match parse_frame_slice(s) {
            Ok((v, n)) => {
                bm_advance(buf, n);
                Ok(v)
            },
            Err(e) => Err(e),
        }
    }

    /// The length a whole frame at the head would take; the buffer is only
    /// read, never changed.
    fn expect_length(buf: &[u8]) -> (r: Result<usize, RespError>)
        ensures
            match r {
                Ok(n) => spec_expect_frame(buf@) == Ok::<nat, SpecErr>(n as nat) && n
                    <= buf@.len(),
                Err(e) => spec_expect_frame(buf@) == Err::<nat, SpecErr>(err_model(e)),
            },
    {
        expect_frame(buf)
    }
}

} // verus!
