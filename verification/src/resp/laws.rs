use vstd::prelude::*;

use crate::resp::decode::{
    crlf_at, dec_val, nth_crlf, pat_bool_f, pat_bool_t, pat_null, pat_null_array, pat_null_bulk,
    spec_calc_kids, spec_expect_agg, spec_expect_bool, spec_expect_bulk, spec_expect_fixed,
    spec_expect_frame, spec_expect_simple, spec_extract_simple, spec_parse, spec_parse_i64_body,
    spec_parse_items, spec_parse_length, spec_parse_pairs, SpecErr,
};
use crate::resp::map::{bytes_lt, lemma_bytes_lt_asym, lemma_bytes_lt_trans, sorted_insert_pair};
use crate::resp::double::{all_digits, digits1, is_digit};
use crate::resp::encode::{crlf, dec_digits, dec_int, spec_enc, spec_enc_pairs, spec_enc_seq};
use crate::resp::frame::{no_crlf, wf, wf_pairs, wf_seq, FrameModel};

verus! {

/// Decimal digits are ASCII digits, at least one of them.
pub proof fn lemma_dec_digits_digits(n: nat)
    ensures
        digits1(dec_digits(n)),
        dec_digits(n).len() >= 1,
    decreases n,
{
    if n < 10 {
        assert(is_digit(dec_digits(n)[0]));
    } else {
        lemma_dec_digits_digits(n / 10);
        let d = dec_digits(n / 10);
        assert forall|i: int| 0 <= i < d.push((48 + n % 10) as u8).len() implies is_digit(
            #[trigger] d.push((48 + n % 10) as u8)[i],
        ) by {
            if i < d.len() {
                assert(is_digit(d[i]));
            }
        }
    }
}

/// ASCII digits carry no CR or LF.
pub proof fn lemma_digits_no_crlf(s: Seq<u8>)
    requires
        all_digits(s),
    ensures
        no_crlf(s),
{
    assert forall|i: int| 0 <= i < s.len() implies #[trigger] s[i] != 13u8 && s[i] != 10u8 by {
        assert(is_digit(s[i]));
    }
}

/// Reading back the decimal digits of `n` gives `n`.
pub proof fn lemma_dec_val_of_digits(n: nat)
    ensures
        dec_val(dec_digits(n)) == n,
    decreases n,
{
    if n < 10 {
        let d = dec_digits(n);
        assert(d == seq![(48 + n) as u8]);
        assert(d.len() == 1);
        assert(d.last() == (48 + n) as u8);
        assert(d.drop_last() =~= Seq::<u8>::empty());
        assert(dec_val(d.drop_last()) == 0);
        assert(dec_val(d) == dec_val(d.drop_last()) * 10 + (d.last() - 48));
        assert(((48 + n) as u8) as int == 48 + n as int);
    } else {
        lemma_dec_val_of_digits(n / 10);
        let d = dec_digits(n / 10);
        let whole = d.push((48 + n % 10) as u8);
        assert(whole.drop_last() =~= d);
        assert(whole.last() == (48 + n % 10) as u8);
        assert(dec_digits(n) == whole);
        assert(dec_val(whole) == dec_val(d) * 10 + (whole.last() - 48));
        assert(((48 + n % 10) as u8) as int == 48 + (n % 10) as int);
        assert((n / 10) * 10 + n % 10 == n) by (nonlinear_arith);
    }
}

/// A signed decimal body reads back as its value whenever it fits `i64`.
pub proof fn lemma_parse_i64_of_dec_int(v: int)
    requires
        i64::MIN <= v <= i64::MAX,
    ensures
        spec_parse_i64_body(dec_int(v)) == Ok::<int, SpecErr>(v),
{
    if v < 0 {
        let mag = (-v) as nat;
        lemma_dec_digits_digits(mag);
        lemma_dec_val_of_digits(mag);
        let s = dec_int(v);
        assert(s[0] == 45u8);
        assert(s.drop_first() =~= dec_digits(mag));
    } else {
        lemma_dec_digits_digits(v as nat);
        lemma_dec_val_of_digits(v as nat);
        let s = dec_int(v);
        assert(s == dec_digits(v as nat));
        assert(is_digit(s[0]));
    }
}

/// A byte string without CRLF pairs has no first CRLF.
pub proof fn lemma_no_crlf_none(s: Seq<u8>)
    requires
        forall|j: int| 0 <= j && j + 1 < s.len() ==> !#[trigger] crlf_at(s, j),
    ensures
        nth_crlf(s, 1) is None,
    decreases s.len(),
{
    if s.len() >= 2 {
        assert(!crlf_at(s, 0));
        let t = s.drop_first();
        assert forall|j: int| 0 <= j && j + 1 < t.len() implies !#[trigger] crlf_at(t, j) by {
            assert(t[j] == s[j + 1] && t[j + 1] == s[j + 2]);
            assert(!crlf_at(s, j + 1));
        }
        lemma_no_crlf_none(t);
    }
}

/// The first CRLF is exactly at `k` when one stands there and none earlier.
pub proof fn lemma_first_crlf_exact(s: Seq<u8>, k: int)
    requires
        0 <= k,
        k + 2 <= s.len(),
        s[k] == 13u8,
        s[k + 1] == 10u8,
        forall|j: int| 0 <= j < k ==> !#[trigger] crlf_at(s, j),
    ensures
        nth_crlf(s, 1) == Some(k),
    decreases k,
{
    if k == 0 {
    } else {
        assert(!crlf_at(s, 0));
        let t = s.drop_first();
        assert forall|j: int| 0 <= j < k - 1 implies !#[trigger] crlf_at(t, j) by {
            assert(t[j] == s[j + 1] && t[j + 1] == s[j + 2]);
            assert(!crlf_at(s, j + 1));
        }
        assert(t[k - 1] == s[k] && t[k] == s[k + 1]);
        lemma_first_crlf_exact(t, k - 1);
    }
}

/// One whole line `<c><payload>\r\n` followed by anything: the header scan
/// ends at the payload's end.
pub proof fn lemma_extract_of_line(c: u8, p: Seq<u8>, rest: Seq<u8>)
    requires
        c != 13u8,
        no_crlf(p),
    ensures
        spec_extract_simple(seq![c] + p + crlf() + rest, c) == Ok::<int, SpecErr>(1 + p.len() as int),
{
    let s = seq![c] + p + crlf() + rest;
    let k = 1 + p.len() as int;
    assert(s[0] == c);
    assert(s[k] == 13u8 && s[k + 1] == 10u8);
    assert forall|j: int| 0 <= j < k implies !#[trigger] crlf_at(s, j) by {
        if j == 0 {
            assert(s[0] != 13u8);
        } else {
            assert(s[j] == p[j - 1]);
        }
    }
    lemma_first_crlf_exact(s, k);
}

/// A strict prefix of one line never holds a full CRLF: the scan reports
/// an incomplete buffer.
pub proof fn lemma_extract_of_line_prefix(c: u8, p: Seq<u8>, i: int)
    requires
        c != 13u8,
        no_crlf(p),
        0 <= i < 3 + p.len(),
    ensures
        spec_extract_simple((seq![c] + p + crlf()).take(i), c) == Err::<int, SpecErr>(
            SpecErr::NotComplete,
        ),
{
    let line = seq![c] + p + crlf();
    let s = line.take(i);
    if i < 3 {
    } else {
        assert(s[0] == c);
        assert forall|j: int| 0 <= j && j + 1 < s.len() implies !#[trigger] crlf_at(s, j) by {
            assert(s[j] == line[j]);
            assert(s[j + 1] == line[j + 1]);
            if j == 0 {
                assert(line[0] == c);
            } else if j - 1 < p.len() {
                assert(line[j] == p[j - 1]);
            } else {
                assert(j == 1 + p.len());
                assert(j + 1 < i <= line.len() - 1);
            }
        }
        lemma_no_crlf_none(s);
    }
}

/// A full aggregate or bulk header line with anything after it parses to its
/// declared count.
pub proof fn lemma_parse_length_of_header(prefix: u8, n: nat, tail: Seq<u8>)
    requires
        prefix != 13u8,
        n <= usize::MAX,
    ensures
        spec_parse_length(seq![prefix] + dec_digits(n) + crlf() + tail, prefix) == Ok::<
            (int, int),
            SpecErr,
        >((1 + dec_digits(n).len() as int, n as int)),
{
    lemma_dec_digits_digits(n);
    lemma_digits_no_crlf(dec_digits(n));
    lemma_extract_of_line(prefix, dec_digits(n), tail);
    lemma_dec_val_of_digits(n);
    let s = seq![prefix] + dec_digits(n) + crlf() + tail;
    let end = 1 + dec_digits(n).len() as int;
    assert(s.subrange(1, end) =~= dec_digits(n));
}


/// The first byte, the minimum size, and for length-prefixed kinds the digit
/// after the prefix, of every encoding.
pub proof fn lemma_enc_head(m: FrameModel)
    ensures
        spec_enc(m).len() >= 3,
        match m {
            FrameModel::SimpleString(p) => spec_enc(m)[0] == 43u8,
            FrameModel::SimpleError(p) => spec_enc(m)[0] == 45u8,
            FrameModel::Integer(_) => spec_enc(m)[0] == 58u8,
            FrameModel::BulkString(p) => spec_enc(m)[0] == 36u8 && is_digit(spec_enc(m)[1])
                && spec_enc(m).len() >= 6,
            FrameModel::NullBulkString => spec_enc(m) == pat_null_bulk(),
            FrameModel::Array(items) => spec_enc(m)[0] == 42u8 && is_digit(spec_enc(m)[1]),
            FrameModel::NullArray => spec_enc(m) == pat_null_array(),
            FrameModel::Null => spec_enc(m) == pat_null(),
            FrameModel::Boolean(b) => spec_enc(m) == if b {
                pat_bool_t()
            } else {
                pat_bool_f()
            },
            FrameModel::Double(_) => spec_enc(m)[0] == 44u8,
            FrameModel::MapFrame(_) => spec_enc(m)[0] == 37u8 && is_digit(spec_enc(m)[1]),
            FrameModel::SetFrame(_) => spec_enc(m)[0] == 126u8 && is_digit(spec_enc(m)[1]),
        },
{
    match m {
        FrameModel::Integer(v) => {
            if v < 0 {
                lemma_dec_digits_digits((-v) as nat);
            } else {
                lemma_dec_digits_digits(v as nat);
            }
        },
        FrameModel::BulkString(p) => {
            lemma_dec_digits_digits(p.len());
            assert(spec_enc(m)[1] == dec_digits(p.len())[0]);
        },
        FrameModel::NullBulkString => {
            assert(spec_enc(m) =~= pat_null_bulk());
        },
        FrameModel::NullArray => {
            assert(spec_enc(m) =~= pat_null_array());
        },
        FrameModel::Null => {
            assert(spec_enc(m) =~= pat_null());
        },
        FrameModel::Boolean(b) => {
            if b {
                assert(spec_enc(m) =~= pat_bool_t());
            } else {
                assert(spec_enc(m) =~= pat_bool_f());
            }
        },
        FrameModel::Array(items) => {
            lemma_dec_digits_digits(items.len());
            assert(spec_enc(m)[1] == dec_digits(items.len())[0]);
        },
        FrameModel::MapFrame(ps) => {
            lemma_dec_digits_digits(ps.len());
            assert(spec_enc(m)[1] == dec_digits(ps.len())[0]);
        },
        FrameModel::SetFrame(items) => {
            lemma_dec_digits_digits(items.len());
            assert(spec_enc(m)[1] == dec_digits(items.len())[0]);
        },
        _ => {},
    }
}

/// The body of a signed decimal never holds CR or LF.
pub proof fn lemma_dec_int_no_crlf(v: int)
    ensures
        no_crlf(dec_int(v)),
{
    if v < 0 {
        lemma_dec_digits_digits((-v) as nat);
        lemma_digits_no_crlf(dec_digits((-v) as nat));
        assert forall|i: int| 0 <= i < dec_int(v).len() implies #[trigger] dec_int(v)[i] != 13u8
            && dec_int(v)[i] != 10u8 by {
            if i > 0 {
                assert(dec_int(v)[i] == dec_digits((-v) as nat)[i - 1]);
            }
        }
    } else {
        lemma_dec_digits_digits(v as nat);
        lemma_digits_no_crlf(dec_digits(v as nat));
    }
}

/// A whole well-formed encoding, with anything after it, is sized by the
/// look-ahead to exactly its own length.
#[verifier::rlimit(60)]
pub proof fn lemma_expect_enc(m: FrameModel, rest: Seq<u8>)
    requires
        wf(m),
    ensures
        spec_expect_frame(spec_enc(m) + rest) == Ok::<nat, SpecErr>(spec_enc(m).len() as nat),
    decreases m, 1int,
{
    let e = spec_enc(m);
    let s = e + rest;
    lemma_enc_head(m);
    assert(s[0] == e[0]);
    match m {
        FrameModel::SimpleString(p) => {
            assert(s =~= seq![43u8] + p + crlf() + rest);
            lemma_extract_of_line(43u8, p, rest);
        },
        FrameModel::SimpleError(p) => {
            assert(s =~= seq![45u8] + p + crlf() + rest);
            lemma_extract_of_line(45u8, p, rest);
        },
        FrameModel::Integer(v) => {
            lemma_dec_int_no_crlf(v);
            assert(s =~= seq![58u8] + dec_int(v) + crlf() + rest);
            lemma_extract_of_line(58u8, dec_int(v), rest);
        },
        FrameModel::Double(b) => {
            assert(s =~= seq![44u8] + b + crlf() + rest);
            lemma_extract_of_line(44u8, b, rest);
        },
        FrameModel::Boolean(b) => {
            if b {
                assert(s.take(4) =~= pat_bool_t());
            } else {
                assert(s.take(4) =~= pat_bool_f());
                assert(s.take(4) != pat_bool_t());
            }
        },
        FrameModel::Null => {
            assert(s.take(3) =~= pat_null());
        },
        FrameModel::NullArray => {
            assert(s.take(5) =~= pat_null_array());
        },
        FrameModel::NullBulkString => {
            assert(s.take(5) =~= pat_null_bulk());
        },
        FrameModel::BulkString(p) => {
            // the null-bulk reading fails: the byte after `$` is a digit
            assert(s.len() >= 6);
            assert(s.take(5)[1] == e[1]);
            assert(s.take(5) != pat_null_bulk());
            let d = dec_digits(p.len());
            assert(s =~= seq![36u8] + d + crlf() + (p + crlf() + rest));
            lemma_parse_length_of_header(36u8, p.len(), p + crlf() + rest);
            let end = 1 + d.len() as int;
            assert(e.len() == end + 4 + p.len());
        },
        FrameModel::Array(items) => {
            if s.len() >= 5 {
                assert(s.take(5)[1] == e[1]);
                assert(s.take(5) != pat_null_array());
            }
            let d = dec_digits(items.len());
            assert(s =~= seq![42u8] + d + crlf() + (spec_enc_seq(items) + rest));
            lemma_parse_length_of_header(42u8, items.len(), spec_enc_seq(items) + rest);
            let end = 1 + d.len() as int;
            assert(s.skip(end + 2) =~= spec_enc_seq(items) + rest);
            lemma_calc_enc(items, rest);
            assert(e.len() == end + 2 + spec_enc_seq(items).len());
        },
        FrameModel::SetFrame(items) => {
            let d = dec_digits(items.len());
            assert(s =~= seq![126u8] + d + crlf() + (spec_enc_seq(items) + rest));
            lemma_parse_length_of_header(126u8, items.len(), spec_enc_seq(items) + rest);
            let end = 1 + d.len() as int;
            assert(s.skip(end + 2) =~= spec_enc_seq(items) + rest);
            lemma_calc_enc(items, rest);
            assert(e.len() == end + 2 + spec_enc_seq(items).len());
        },
        FrameModel::MapFrame(ps) => {
            let d = dec_digits(ps.len());
            assert(s =~= seq![37u8] + d + crlf() + (spec_enc_pairs(ps) + rest));
            lemma_parse_length_of_header(37u8, ps.len(), spec_enc_pairs(ps) + rest);
            let end = 1 + d.len() as int;
            assert(s.skip(end + 2) =~= spec_enc_pairs(ps) + rest);
            lemma_calc_pairs_enc(ps, rest);
            assert(e.len() == end + 2 + spec_enc_pairs(ps).len());
        },
    }
}

/// The look-ahead walks a row of whole encodings and sums their lengths.
pub proof fn lemma_calc_enc(items: Seq<FrameModel>, rest: Seq<u8>)
    requires
        wf_seq(items),
    ensures
        spec_calc_kids(spec_enc_seq(items) + rest, items.len(), false) == Ok::<nat, SpecErr>(
            spec_enc_seq(items).len() as nat,
        ),
    decreases items, 2int,
{
    if items.len() == 0 {
        assert(spec_enc_seq(items) + rest =~= rest);
        assert(spec_enc_seq(items).len() == 0);
    } else {
        let c0 = items[0];
        let e0 = spec_enc(c0);
        let t = spec_enc_seq(items.drop_first());
        let s = spec_enc_seq(items) + rest;
        assert(s =~= e0 + (t + rest));
        lemma_expect_enc(c0, t + rest);
        assert(s.len() == e0.len() + t.len() + rest.len());
        assert(s.skip(e0.len() as int) =~= t + rest);
        lemma_calc_enc(items.drop_first(), rest);
        assert(items.drop_first().len() == items.len() - 1);
    }
}

/// The look-ahead walks a row of key lines and value encodings and sums them.
pub proof fn lemma_calc_pairs_enc(ps: Seq<(Seq<u8>, FrameModel)>, rest: Seq<u8>)
    requires
        wf_pairs(ps),
    ensures
        spec_calc_kids(spec_enc_pairs(ps) + rest, ps.len(), true) == Ok::<nat, SpecErr>(
            spec_enc_pairs(ps).len() as nat,
        ),
    decreases ps, 2int,
{
    if ps.len() == 0 {
        assert(spec_enc_pairs(ps) + rest =~= rest);
        assert(spec_enc_pairs(ps).len() == 0);
    } else {
        let k0 = ps[0].0;
        let v0 = ps[0].1;
        let e0 = spec_enc(v0);
        let t = spec_enc_pairs(ps.drop_first());
        let s = spec_enc_pairs(ps) + rest;
        let lk = k0.len() as int + 3;
        assert(s =~= seq![43u8] + k0 + crlf() + (e0 + (t + rest)));
        lemma_extract_of_line(43u8, k0, e0 + (t + rest));
        assert(s.len() == lk + e0.len() + t.len() + rest.len());
        assert(s.skip(lk) =~= e0 + (t + rest));
        lemma_expect_enc(v0, t + rest);
        assert(s.skip(lk + e0.len() as int) =~= t + rest);
        lemma_calc_pairs_enc(ps.drop_first(), rest);
        assert(ps.drop_first().len() == ps.len() - 1);
        assert(spec_enc_pairs(ps).len() == lk + e0.len() + t.len());
    }
}


/// Scanning a cut of one line plus trailing bytes: before the line's CRLF is
/// complete the scan wants more; from there on it ends at the payload's end.
pub proof fn lemma_extract_line_take(c: u8, p: Seq<u8>, tailb: Seq<u8>, i: int)
    requires
        c != 13u8,
        no_crlf(p),
        0 <= i <= (seq![c] + p + crlf() + tailb).len(),
    ensures
        spec_extract_simple((seq![c] + p + crlf() + tailb).take(i), c) == if i < p.len() + 3 {
            Err::<int, SpecErr>(SpecErr::NotComplete)
        } else {
            Ok::<int, SpecErr>(1 + p.len() as int)
        },
{
    let line = seq![c] + p + crlf() + tailb;
    let s = line.take(i);
    if i < 3 {
    } else if i < p.len() + 3 {
        assert(s[0] == c);
        assert forall|j: int| 0 <= j && j + 1 < s.len() implies !#[trigger] crlf_at(s, j) by {
            assert(s[j] == line[j]);
            assert(s[j + 1] == line[j + 1]);
            if j == 0 {
                assert(line[0] == c);
            } else if j - 1 < p.len() {
                assert(line[j] == p[j - 1]);
            } else {
                assert(j == 1 + p.len());
                assert(j + 1 < i <= 2 + p.len());
            }
        }
        lemma_no_crlf_none(s);
    } else {
        let k = 1 + p.len() as int;
        assert(s[0] == c);
        assert(s[k] == 13u8 && s[k + 1] == 10u8);
        assert forall|j: int| 0 <= j < k implies !#[trigger] crlf_at(s, j) by {
            if j == 0 {
                assert(s[0] != 13u8);
            } else {
                assert(s[j] == p[j - 1]);
            }
        }
        lemma_first_crlf_exact(s, k);
    }
}

/// A strict prefix of `$-1\r\n` or `*-1\r\n` read as a length-prefixed frame:
/// no CRLF is there yet, so the reading is incomplete.
pub proof fn lemma_null_pat_prefix_nc(pat: Seq<u8>, i: int, prefix: u8)
    requires
        pat == pat_null_bulk() || pat == pat_null_array(),
        prefix == pat[0],
        0 <= i < 5,
    ensures
        spec_parse_length(pat.take(i), prefix) == Err::<(int, int), SpecErr>(SpecErr::NotComplete),
{
    let s = pat.take(i);
    if i >= 3 {
        assert(s[0] == prefix);
        assert forall|j: int| 0 <= j && j + 1 < s.len() implies !#[trigger] crlf_at(s, j) by {
            assert(s[j] == pat[j]);
        }
        lemma_no_crlf_none(s);
    }
}

/// A strict prefix of any well-formed encoding is incomplete for the
/// look-ahead.
pub proof fn lemma_expect_prefix(m: FrameModel, i: int)
    requires
        wf(m),
        0 <= i < spec_enc(m).len(),
    ensures
        spec_expect_frame(spec_enc(m).take(i)) == Err::<nat, SpecErr>(SpecErr::NotComplete),
    decreases m, 1int,
{
    let e = spec_enc(m);
    let s = e.take(i);
    lemma_enc_head(m);
    if i == 0 {
        return ;
    }
    assert(s[0] == e[0]);
    match m {
        FrameModel::SimpleString(p) => {
            assert(e =~= seq![43u8] + p + crlf() + Seq::<u8>::empty());
            lemma_extract_line_take(43u8, p, Seq::empty(), i);
        },
        FrameModel::SimpleError(p) => {
            assert(e =~= seq![45u8] + p + crlf() + Seq::<u8>::empty());
            lemma_extract_line_take(45u8, p, Seq::empty(), i);
        },
        FrameModel::Integer(v) => {
            lemma_dec_int_no_crlf(v);
            assert(e =~= seq![58u8] + dec_int(v) + crlf() + Seq::<u8>::empty());
            lemma_extract_line_take(58u8, dec_int(v), Seq::empty(), i);
        },
        FrameModel::Double(b) => {
            assert(e =~= seq![44u8] + b + crlf() + Seq::<u8>::empty());
            lemma_extract_line_take(44u8, b, Seq::empty(), i);
        },
        FrameModel::Boolean(_) => {
            assert(s.len() < 4);
        },
        FrameModel::Null => {
            assert(s.len() < 3);
        },
        FrameModel::NullArray => {
            assert(s.len() < 5);
            assert(s =~= pat_null_array().take(i));
            lemma_null_pat_prefix_nc(pat_null_array(), i, 42u8);
        },
        FrameModel::NullBulkString => {
            assert(s.len() < 5);
            assert(s =~= pat_null_bulk().take(i));
            lemma_null_pat_prefix_nc(pat_null_bulk(), i, 36u8);
        },
        FrameModel::BulkString(p) => {
            let d = dec_digits(p.len());
            lemma_dec_digits_digits(p.len());
            lemma_digits_no_crlf(d);
            let end = 1 + d.len() as int;
            if i >= 5 {
                assert(s.take(5)[1] == e[1]);
                assert(s.take(5) != pat_null_bulk());
            }
            assert(e =~= seq![36u8] + d + crlf() + (p + crlf()));
            lemma_extract_line_take(36u8, d, p + crlf(), i);
            if i >= d.len() + 3 {
                lemma_dec_val_of_digits(p.len());
                assert(s.subrange(1, end) =~= d);
                assert(e.len() == end + 4 + p.len());
            }
        },
        FrameModel::Array(items) => {
            let d = dec_digits(items.len());
            lemma_dec_digits_digits(items.len());
            lemma_digits_no_crlf(d);
            let end = 1 + d.len() as int;
            if i >= 5 {
                assert(s.take(5)[1] == e[1]);
                assert(s.take(5) != pat_null_array());
            }
            assert(e =~= seq![42u8] + d + crlf() + spec_enc_seq(items));
            lemma_extract_line_take(42u8, d, spec_enc_seq(items), i);
            if i >= d.len() + 3 {
                lemma_dec_val_of_digits(items.len());
                assert(s.subrange(1, end) =~= d);
                assert(s.skip(end + 2) =~= spec_enc_seq(items).take(i - end - 2));
                lemma_calc_prefix(items, i - end - 2);
            }
        },
        FrameModel::SetFrame(items) => {
            let d = dec_digits(items.len());
            lemma_dec_digits_digits(items.len());
            lemma_digits_no_crlf(d);
            let end = 1 + d.len() as int;
            assert(e =~= seq![126u8] + d + crlf() + spec_enc_seq(items));
            lemma_extract_line_take(126u8, d, spec_enc_seq(items), i);
            if i >= d.len() + 3 {
                lemma_dec_val_of_digits(items.len());
                assert(s.subrange(1, end) =~= d);
                assert(s.skip(end + 2) =~= spec_enc_seq(items).take(i - end - 2));
                lemma_calc_prefix(items, i - end - 2);
            }
        },
        FrameModel::MapFrame(ps) => {
            let d = dec_digits(ps.len());
            lemma_dec_digits_digits(ps.len());
            lemma_digits_no_crlf(d);
            let end = 1 + d.len() as int;
            assert(e =~= seq![37u8] + d + crlf() + spec_enc_pairs(ps));
            lemma_extract_line_take(37u8, d, spec_enc_pairs(ps), i);
            if i >= d.len() + 3 {
                lemma_dec_val_of_digits(ps.len());
                assert(s.subrange(1, end) =~= d);
                assert(s.skip(end + 2) =~= spec_enc_pairs(ps).take(i - end - 2));
                lemma_calc_pairs_prefix(ps, i - end - 2);
            }
        },
    }
}

/// Cutting a row of encodings anywhere strictly inside leaves the look-ahead
/// short of bytes.
pub proof fn lemma_calc_prefix(items: Seq<FrameModel>, i: int)
    requires
        wf_seq(items),
        0 <= i < spec_enc_seq(items).len(),
    ensures
        spec_calc_kids(spec_enc_seq(items).take(i), items.len(), false) == Err::<nat, SpecErr>(
            SpecErr::NotComplete,
        ),
    decreases items, 2int,
{
    let c0 = items[0];
    let e0 = spec_enc(c0);
    let t = spec_enc_seq(items.drop_first());
    let s = spec_enc_seq(items).take(i);
    if i < e0.len() {
        assert(s =~= e0.take(i));
        lemma_expect_prefix(c0, i);
    } else {
        assert(s =~= e0 + t.take(i - e0.len()));
        lemma_expect_enc(c0, t.take(i - e0.len()));
        assert(s.skip(e0.len() as int) =~= t.take(i - e0.len()));
        lemma_calc_prefix(items.drop_first(), i - e0.len());
        assert(items.drop_first().len() == items.len() - 1);
    }
}

/// Cutting a row of key lines and value encodings anywhere strictly inside
/// leaves the look-ahead short of bytes.
pub proof fn lemma_calc_pairs_prefix(ps: Seq<(Seq<u8>, FrameModel)>, i: int)
    requires
        wf_pairs(ps),
        0 <= i < spec_enc_pairs(ps).len(),
    ensures
        spec_calc_kids(spec_enc_pairs(ps).take(i), ps.len(), true) == Err::<nat, SpecErr>(
            SpecErr::NotComplete,
        ),
    decreases ps, 2int,
{
    let k0 = ps[0].0;
    let v0 = ps[0].1;
    let e0 = spec_enc(v0);
    let t = spec_enc_pairs(ps.drop_first());
    let lk = k0.len() as int + 3;
    let s = spec_enc_pairs(ps).take(i);
    assert(spec_enc_pairs(ps) =~= seq![43u8] + k0 + crlf() + (e0 + t));
    if i < lk {
        assert(s =~= (seq![43u8] + k0 + crlf() + (e0 + t)).take(i));
        lemma_extract_line_take(43u8, k0, e0 + t, i);
    } else {
        lemma_extract_line_take(43u8, k0, e0 + t, i);
        if i < lk + e0.len() {
            assert(s.skip(lk) =~= e0.take(i - lk));
            lemma_expect_prefix(v0, i - lk);
        } else {
            assert(s.skip(lk) =~= e0 + t.take(i - lk - e0.len()));
            lemma_expect_enc(v0, t.take(i - lk - e0.len()));
            assert(s.skip(lk + e0.len() as int) =~= t.take(i - lk - e0.len()));
            lemma_calc_pairs_prefix(ps.drop_first(), i - lk - e0.len());
            assert(ps.drop_first().len() == ps.len() - 1);
        }
    }
}


/// Every key of `acc` sorts strictly below `k`.
pub open spec fn keys_below(acc: Seq<(Seq<u8>, FrameModel)>, k: Seq<u8>) -> bool {
    forall|j: int| 0 <= j < acc.len() ==> bytes_lt(#[trigger] acc[j].0, k)
}

/// Inserting a key above everything present appends at the back.
pub proof fn lemma_insert_append(acc: Seq<(Seq<u8>, FrameModel)>, k: Seq<u8>, v: FrameModel)
    requires
        keys_below(acc, k),
    ensures
        sorted_insert_pair(acc, k, v) == acc.push((k, v)),
    decreases acc.len(),
{
    if acc.len() == 0 {
        assert(sorted_insert_pair(acc, k, v) =~= acc.push((k, v)));
    } else {
        assert(bytes_lt(acc[0].0, k));
        lemma_bytes_lt_asym(acc[0].0, k);
        assert forall|j: int| 0 <= j < acc.drop_first().len() implies bytes_lt(
            #[trigger] acc.drop_first()[j].0,
            k,
        ) by {
            assert(acc.drop_first()[j] == acc[j + 1]);
        }
        lemma_insert_append(acc.drop_first(), k, v);
        assert(seq![acc[0]] + acc.drop_first().push((k, v)) =~= acc.push((k, v)));
    }
}

/// Decoding a whole well-formed encoding, with anything after it, yields the
/// model itself and consumes exactly the encoding.
#[verifier::rlimit(60)]
pub proof fn lemma_parse_enc(m: FrameModel, rest: Seq<u8>)
    requires
        wf(m),
    ensures
        spec_parse(spec_enc(m) + rest) == Ok::<(FrameModel, nat), SpecErr>(
            (m, spec_enc(m).len() as nat),
        ),
    decreases m, 3int,
{
    let e = spec_enc(m);
    let s = e + rest;
    lemma_enc_head(m);
    assert(s[0] == e[0]);
    match m {
        FrameModel::SimpleString(p) => {
            assert(s =~= seq![43u8] + p + crlf() + rest);
            lemma_extract_of_line(43u8, p, rest);
            assert(s.subrange(1, 1 + p.len() as int) =~= p);
        },
        FrameModel::SimpleError(p) => {
            assert(s =~= seq![45u8] + p + crlf() + rest);
            lemma_extract_of_line(45u8, p, rest);
            assert(s.subrange(1, 1 + p.len() as int) =~= p);
        },
        FrameModel::Integer(v) => {
            lemma_dec_int_no_crlf(v);
            assert(s =~= seq![58u8] + dec_int(v) + crlf() + rest);
            lemma_extract_of_line(58u8, dec_int(v), rest);
            assert(s.subrange(1, 1 + dec_int(v).len() as int) =~= dec_int(v));
            lemma_parse_i64_of_dec_int(v);
        },
        FrameModel::Double(b) => {
            assert(s =~= seq![44u8] + b + crlf() + rest);
            lemma_extract_of_line(44u8, b, rest);
            assert(s.subrange(1, 1 + b.len() as int) =~= b);
        },
        FrameModel::Boolean(b) => {
            if b {
                assert(s.take(4) =~= pat_bool_t());
            } else {
                assert(s.take(4) =~= pat_bool_f());
                assert(s.take(4) != pat_bool_t());
            }
        },
        FrameModel::Null => {
            assert(s.take(3) =~= pat_null());
        },
        FrameModel::NullArray => {
            assert(s.take(5) =~= pat_null_array());
        },
        FrameModel::NullBulkString => {
            assert(s.take(5) =~= pat_null_bulk());
        },
        FrameModel::BulkString(p) => {
            assert(s.len() >= 6);
            assert(s.take(5)[1] == e[1]);
            assert(s.take(5) != pat_null_bulk());
            let d = dec_digits(p.len());
            assert(s =~= seq![36u8] + d + crlf() + (p + crlf() + rest));
            lemma_parse_length_of_header(36u8, p.len(), p + crlf() + rest);
            let end = 1 + d.len() as int;
            let n = p.len() as int;
            assert(e.len() == end + 4 + n);
            assert(s.subrange(end + 2 + n, end + 4 + n) =~= crlf());
            assert(s.subrange(end + 2, end + 2 + n) =~= p);
        },
        FrameModel::Array(items) => {
            if s.len() >= 5 {
                assert(s.take(5)[1] == e[1]);
                assert(s.take(5) != pat_null_array());
            }
            let d = dec_digits(items.len());
            assert(s =~= seq![42u8] + d + crlf() + (spec_enc_seq(items) + rest));
            lemma_parse_length_of_header(42u8, items.len(), spec_enc_seq(items) + rest);
            let end = 1 + d.len() as int;
            assert(s.skip(end + 2) =~= spec_enc_seq(items) + rest);
            lemma_calc_enc(items, rest);
            lemma_parse_items_enc(items, rest);
            assert(e.len() == end + 2 + spec_enc_seq(items).len());
        },
        FrameModel::SetFrame(items) => {
            let d = dec_digits(items.len());
            assert(s =~= seq![126u8] + d + crlf() + (spec_enc_seq(items) + rest));
            lemma_parse_length_of_header(126u8, items.len(), spec_enc_seq(items) + rest);
            let end = 1 + d.len() as int;
            assert(s.skip(end + 2) =~= spec_enc_seq(items) + rest);
            lemma_calc_enc(items, rest);
            lemma_parse_items_enc(items, rest);
            assert(e.len() == end + 2 + spec_enc_seq(items).len());
        },
        FrameModel::MapFrame(ps) => {
            let d = dec_digits(ps.len());
            assert(s =~= seq![37u8] + d + crlf() + (spec_enc_pairs(ps) + rest));
            lemma_parse_length_of_header(37u8, ps.len(), spec_enc_pairs(ps) + rest);
            let end = 1 + d.len() as int;
            assert(s.skip(end + 2) =~= spec_enc_pairs(ps) + rest);
            lemma_calc_pairs_enc(ps, rest);
            lemma_parse_pairs_enc(ps, rest, Seq::empty());
            assert(Seq::<(Seq<u8>, FrameModel)>::empty() + ps =~= ps);
            assert(e.len() == end + 2 + spec_enc_pairs(ps).len());
        },
    }
}

/// Decoding a row of whole encodings yields the models in order.
pub proof fn lemma_parse_items_enc(items: Seq<FrameModel>, rest: Seq<u8>)
    requires
        wf_seq(items),
    ensures
        spec_parse_items(spec_enc_seq(items) + rest, items.len()) == Ok::<
            (Seq<FrameModel>, nat),
            SpecErr,
        >((items, spec_enc_seq(items).len() as nat)),
    decreases items, 4int,
{
    if items.len() == 0 {
        assert(spec_enc_seq(items) + rest =~= rest);
        assert(spec_enc_seq(items).len() == 0);
        assert(spec_parse_items(rest, 0nat) == Ok::<(Seq<FrameModel>, nat), SpecErr>(
            (Seq::empty(), 0nat),
        ));
        assert(items =~= Seq::<FrameModel>::empty());
    } else {
        let c0 = items[0];
        let e0 = spec_enc(c0);
        let t = spec_enc_seq(items.drop_first());
        let s = spec_enc_seq(items) + rest;
        assert(s =~= e0 + (t + rest));
        lemma_parse_enc(c0, t + rest);
        assert(s.len() == e0.len() + t.len() + rest.len());
        assert(s.skip(e0.len() as int) =~= t + rest);
        lemma_parse_items_enc(items.drop_first(), rest);
        assert(items.drop_first().len() == items.len() - 1);
        assert(seq![c0] + items.drop_first() =~= items);
    }
}

/// Decoding a row of sorted key lines and value encodings rebuilds exactly
/// the pairs, appended after whatever sorted prefix was already at hand.
pub proof fn lemma_parse_pairs_enc(
    ps: Seq<(Seq<u8>, FrameModel)>,
    rest: Seq<u8>,
    acc: Seq<(Seq<u8>, FrameModel)>,
)
    requires
        wf_pairs(ps),
        ps.len() > 0 ==> keys_below(acc, ps[0].0),
    ensures
        spec_parse_pairs(spec_enc_pairs(ps) + rest, ps.len(), acc) == Ok::<
            (Seq<(Seq<u8>, FrameModel)>, nat),
            SpecErr,
        >((acc + ps, spec_enc_pairs(ps).len() as nat)),
    decreases ps, 4int,
{
    if ps.len() == 0 {
        assert(spec_enc_pairs(ps) + rest =~= rest);
        assert(spec_enc_pairs(ps).len() == 0);
        assert(acc + ps =~= acc);
    } else {
        let k0 = ps[0].0;
        let v0 = ps[0].1;
        let e0 = spec_enc(v0);
        let t = spec_enc_pairs(ps.drop_first());
        let s = spec_enc_pairs(ps) + rest;
        let lk = k0.len() as int + 3;
        assert(s =~= seq![43u8] + k0 + crlf() + (e0 + (t + rest)));
        lemma_extract_of_line(43u8, k0, e0 + (t + rest));
        assert(s.subrange(1, 1 + k0.len() as int) =~= k0);
        assert(s.len() == lk + e0.len() + t.len() + rest.len());
        assert(s.skip(lk) =~= e0 + (t + rest));
        lemma_parse_enc(v0, t + rest);
        assert(s.skip(lk + e0.len() as int) =~= t + rest);
        lemma_insert_append(acc, k0, v0);
        let acc2 = acc.push((k0, v0));
        if ps.drop_first().len() > 0 {
            assert(ps.drop_first()[0] == ps[1]);
            assert(bytes_lt(ps[0].0, ps[1].0));
            assert forall|j: int| 0 <= j < acc2.len() implies bytes_lt(
                #[trigger] acc2[j].0,
                ps.drop_first()[0].0,
            ) by {
                if j < acc.len() {
                    assert(bytes_lt(acc[j].0, ps[0].0));
                    lemma_bytes_lt_trans(acc[j].0, ps[0].0, ps[1].0);
                } else {
                    assert(acc2[j] == (k0, v0));
                }
            }
        }
        lemma_parse_pairs_enc(ps.drop_first(), rest, acc2);
        assert(ps.drop_first().len() == ps.len() - 1);
        assert(acc.push((k0, v0)) + ps.drop_first() =~= acc + ps);
        assert(spec_enc_pairs(ps).len() == lk + e0.len() + t.len());
    }
}


/// A strict prefix of any well-formed encoding decodes to "not complete".
#[verifier::rlimit(60)]
pub proof fn lemma_parse_prefix(m: FrameModel, i: int)
    requires
        wf(m),
        0 <= i < spec_enc(m).len(),
    ensures
        spec_parse(spec_enc(m).take(i)) == Err::<(FrameModel, nat), SpecErr>(SpecErr::NotComplete),
    decreases m, 3int,
{
    let e = spec_enc(m);
    let s = e.take(i);
    lemma_enc_head(m);
    if i == 0 {
        return ;
    }
    assert(s[0] == e[0]);
    match m {
        FrameModel::SimpleString(p) => {
            assert(e =~= seq![43u8] + p + crlf() + Seq::<u8>::empty());
            lemma_extract_line_take(43u8, p, Seq::empty(), i);
        },
        FrameModel::SimpleError(p) => {
            assert(e =~= seq![45u8] + p + crlf() + Seq::<u8>::empty());
            lemma_extract_line_take(45u8, p, Seq::empty(), i);
        },
        FrameModel::Integer(v) => {
            lemma_dec_int_no_crlf(v);
            assert(e =~= seq![58u8] + dec_int(v) + crlf() + Seq::<u8>::empty());
            lemma_extract_line_take(58u8, dec_int(v), Seq::empty(), i);
        },
        FrameModel::Double(b) => {
            assert(e =~= seq![44u8] + b + crlf() + Seq::<u8>::empty());
            lemma_extract_line_take(44u8, b, Seq::empty(), i);
        },
        FrameModel::Boolean(_) => {
            assert(s.len() < 4);
        },
        FrameModel::Null => {
            assert(s.len() < 3);
        },
        FrameModel::NullArray => {
            assert(s.len() < 5);
            assert(s =~= pat_null_array().take(i));
            lemma_null_pat_prefix_nc(pat_null_array(), i, 42u8);
        },
        FrameModel::NullBulkString => {
            assert(s.len() < 5);
            assert(s =~= pat_null_bulk().take(i));
            lemma_null_pat_prefix_nc(pat_null_bulk(), i, 36u8);
        },
        FrameModel::BulkString(p) => {
            let d = dec_digits(p.len());
            lemma_dec_digits_digits(p.len());
            lemma_digits_no_crlf(d);
            let end = 1 + d.len() as int;
            if i >= 5 {
                assert(s.take(5)[1] == e[1]);
                assert(s.take(5) != pat_null_bulk());
            }
            assert(e =~= seq![36u8] + d + crlf() + (p + crlf()));
            lemma_extract_line_take(36u8, d, p + crlf(), i);
            if i >= d.len() + 3 {
                lemma_dec_val_of_digits(p.len());
                assert(s.subrange(1, end) =~= d);
                assert(e.len() == end + 4 + p.len());
            }
        },
        FrameModel::Array(items) => {
            let d = dec_digits(items.len());
            lemma_dec_digits_digits(items.len());
            lemma_digits_no_crlf(d);
            let end = 1 + d.len() as int;
            if i >= 5 {
                assert(s.take(5)[1] == e[1]);
                assert(s.take(5) != pat_null_array());
            }
            assert(e =~= seq![42u8] + d + crlf() + spec_enc_seq(items));
            lemma_extract_line_take(42u8, d, spec_enc_seq(items), i);
            if i >= d.len() + 3 {
                lemma_dec_val_of_digits(items.len());
                assert(s.subrange(1, end) =~= d);
                assert(s.skip(end + 2) =~= spec_enc_seq(items).take(i - end - 2));
                lemma_calc_prefix(items, i - end - 2);
            }
        },
        FrameModel::SetFrame(items) => {
            let d = dec_digits(items.len());
            lemma_dec_digits_digits(items.len());
            lemma_digits_no_crlf(d);
            let end = 1 + d.len() as int;
            assert(e =~= seq![126u8] + d + crlf() + spec_enc_seq(items));
            lemma_extract_line_take(126u8, d, spec_enc_seq(items), i);
            if i >= d.len() + 3 {
                lemma_dec_val_of_digits(items.len());
                assert(s.subrange(1, end) =~= d);
                assert(s.skip(end + 2) =~= spec_enc_seq(items).take(i - end - 2));
                lemma_calc_prefix(items, i - end - 2);
            }
        },
        FrameModel::MapFrame(ps) => {
            let d = dec_digits(ps.len());
            lemma_dec_digits_digits(ps.len());
            lemma_digits_no_crlf(d);
            let end = 1 + d.len() as int;
            assert(e =~= seq![37u8] + d + crlf() + spec_enc_pairs(ps));
            lemma_extract_line_take(37u8, d, spec_enc_pairs(ps), i);
            if i >= d.len() + 3 {
                lemma_dec_val_of_digits(ps.len());
                assert(s.subrange(1, end) =~= d);
                assert(s.skip(end + 2) =~= spec_enc_pairs(ps).take(i - end - 2));
                lemma_calc_pairs_prefix(ps, i - end - 2);
            }
        },
    }
}

/// Round trip: decoding the encoding of any well-formed frame model yields
/// that very model and consumes the whole encoding.
pub proof fn lemma_round_trip(m: FrameModel)
    requires
        wf(m),
    ensures
        spec_parse(spec_enc(m)) == Ok::<(FrameModel, nat), SpecErr>(
            (m, spec_enc(m).len() as nat),
        ),
{
    lemma_parse_enc(m, Seq::empty());
    assert(spec_enc(m) + Seq::<u8>::empty() =~= spec_enc(m));
}

/// Incremental decode: a buffer holding any strict prefix of an encoding
/// reports "not complete"; once the remaining bytes arrive, the decode
/// succeeds and leaves exactly what followed the frame.
pub proof fn lemma_incremental_decode(m: FrameModel, i: int, rest: Seq<u8>)
    requires
        wf(m),
        0 <= i < spec_enc(m).len(),
    ensures
        spec_parse(spec_enc(m).take(i)) == Err::<(FrameModel, nat), SpecErr>(SpecErr::NotComplete),
        spec_parse(spec_enc(m).take(i) + (spec_enc(m).skip(i) + rest)) == Ok::<
            (FrameModel, nat),
            SpecErr,
        >((m, spec_enc(m).len() as nat)),
{
    lemma_parse_prefix(m, i);
    lemma_parse_enc(m, rest);
    assert(spec_enc(m).take(i) + (spec_enc(m).skip(i) + rest) =~= spec_enc(m) + rest);
}

/// Decoding frames one after the other from a byte string: `n` rounds.
pub open spec fn spec_decode_all(s: Seq<u8>, n: nat) -> Option<Seq<FrameModel>>
    decreases n,
{
    if n == 0 {
        if s.len() == 0 {
            Some(Seq::empty())
        } else {
            None
        }
    } else {
        match spec_parse(s) {
            Ok((m, used)) => match spec_decode_all(s.skip(used as int), (n - 1) as nat) {
                Some(ms) => Some(seq![m] + ms),
                None => None,
            },
            Err(_) => None,
        }
    }
}

/// Pipelining: decoding applied repeatedly to the concatenation of the
/// encodings of well-formed frames returns exactly those frames, in order,
/// and drains the buffer.
pub proof fn lemma_pipelining(ms: Seq<FrameModel>)
    requires
        wf_seq(ms),
    ensures
        spec_decode_all(spec_enc_seq(ms), ms.len()) == Some(ms),
    decreases ms,
{
    if ms.len() == 0 {
        assert(spec_enc_seq(ms).len() == 0);
        assert(ms =~= Seq::<FrameModel>::empty());
    } else {
        let m0 = ms[0];
        let e0 = spec_enc(m0);
        let t = spec_enc_seq(ms.drop_first());
        assert(spec_enc_seq(ms) =~= e0 + t);
        lemma_parse_enc(m0, t);
        assert((e0 + t).skip(e0.len() as int) =~= t);
        lemma_pipelining(ms.drop_first());
        assert(seq![m0] + ms.drop_first() =~= ms);
    }
}

/// The look-ahead is exact: whenever a decode succeeds, `expect_length` on
/// the same bytes answers precisely the count the decode consumes. Together
/// with its `&[u8]` signature, which cannot write, this is the whole of the
/// look-ahead's determinism.
pub proof fn lemma_expect_matches_parse(s: Seq<u8>)
    ensures
        spec_parse(s) matches Ok(p) ==> spec_expect_frame(s) == Ok::<nat, SpecErr>(p.1),
    decreases s.len(), 7int, 0int,
{
    if s.len() == 0 {
        return ;
    }
    let c = s[0];
    if c == 42u8 || c == 126u8 {
        if c == 42u8 && spec_expect_fixed(s, pat_null_array()) is Ok {
        } else {
            match spec_parse_length(s, c) {
                Ok((end, n)) => {
                    if 1 <= end && end + 2 <= s.len() {
                        let rest = s.skip(end + 2);
                        lemma_kids_used_eq_calc(rest, n as nat, false);
                        match spec_calc_kids(rest, n as nat, false) {
                            Ok(t) => {
                                match spec_parse_items(rest, n as nat) {
                                    Ok(pi) => {
                                        assert(pi.1 == t);
                                    },
                                    Err(_) => {},
                                }
                            },
                            Err(_) => {},
                        }
                    }
                },
                Err(_) => {},
            }
        }
    } else if c == 37u8 {
        match spec_parse_length(s, 37u8) {
            Ok((end, n)) => {
                if 1 <= end && end + 2 <= s.len() {
                    let rest = s.skip(end + 2);
                    lemma_kids_used_eq_calc(rest, n as nat, true);
                    match spec_calc_kids(rest, n as nat, true) {
                        Ok(t) => {
                            match spec_parse_pairs(
                                rest,
                                n as nat,
                                Seq::<(Seq<u8>, FrameModel)>::empty(),
                            ) {
                                Ok(pi) => {
                                    assert(pi.1 == t);
                                },
                                Err(_) => {},
                            }
                        },
                        Err(_) => {},
                    }
                }
            },
            Err(_) => {},
        }
    }
}

/// When both the look-ahead and the decode of `n` children succeed, they
/// account for the same number of bytes.
pub proof fn lemma_kids_used_eq_calc(rest: Seq<u8>, n: nat, pairs: bool)
    ensures
        pairs ==> forall|acc: Seq<(Seq<u8>, FrameModel)>|
            (spec_calc_kids(rest, n, true) is Ok && #[trigger] spec_parse_pairs(rest, n, acc)
                is Ok ==> spec_parse_pairs(rest, n, acc)->Ok_0.1 == spec_calc_kids(
                rest,
                n,
                true,
            )->Ok_0),
        !pairs ==> (spec_calc_kids(rest, n, false) is Ok && spec_parse_items(rest, n) is Ok
            ==> spec_parse_items(rest, n)->Ok_0.1 == spec_calc_kids(rest, n, false)->Ok_0),
    decreases rest.len(), 8int, n,
{
    if n == 0 {
    } else if pairs {
        assert forall|acc: Seq<(Seq<u8>, FrameModel)>|
            (spec_calc_kids(rest, n, true) is Ok && #[trigger] spec_parse_pairs(rest, n, acc)
                is Ok ==> spec_parse_pairs(rest, n, acc)->Ok_0.1 == spec_calc_kids(
                rest,
                n,
                true,
            )->Ok_0) by {
            match spec_calc_kids(rest, n, true) {
                Ok(t) => {
                    match spec_parse_pairs(rest, n, acc) {
                        Ok(p) => {
                            match spec_extract_simple(rest, 43u8) {
                                Ok(end) => {
                                    let key = rest.subrange(1, end);
                                    let lk = end + 2;
                                    assert(1 <= end && lk <= rest.len());
                                    lemma_expect_matches_parse(rest.skip(lk));
                                    match spec_parse(rest.skip(lk)) {
                                        Ok((v, lv)) => {
                                            assert(spec_expect_frame(rest.skip(lk)) == Ok::<
                                                nat,
                                                SpecErr,
                                            >(lv));
                                            assert(lk + lv <= rest.len());
                                            let rest2 = rest.skip(lk + lv as int);
                                            lemma_kids_used_eq_calc(rest2, (n - 1) as nat, true);
                                            let acc2 = sorted_insert_pair(acc, key, v);
                                            match spec_calc_kids(rest2, (n - 1) as nat, true) {
                                                Ok(t2) => {
                                                    match spec_parse_pairs(
                                                        rest2,
                                                        (n - 1) as nat,
                                                        acc2,
                                                    ) {
                                                        Ok(p2) => {
                                                            assert(p2.1 == t2);
                                                            assert(t == (lk + lv + t2) as nat);
                                                            assert(p.1 == (lk + lv + p2.1) as nat);
                                                        },
                                                        Err(_) => {
                                                            assert(false);
                                                        },
                                                    }
                                                },
                                                Err(_) => {
                                                    assert(false);
                                                },
                                            }
                                        },
                                        Err(_) => {
                                            assert(false);
                                        },
                                    }
                                },
                                Err(_) => {
                                    assert(false);
                                },
                            }
                        },
                        Err(_) => {},
                    }
                },
                Err(_) => {},
            }
        }
    } else {
        match spec_calc_kids(rest, n, false) {
            Ok(t) => {
                match spec_parse_items(rest, n) {
                    Ok(p) => {
                        lemma_expect_matches_parse(rest);
                        match spec_parse(rest) {
                            Ok((m0, used)) => {
                                assert(spec_expect_frame(rest) == Ok::<nat, SpecErr>(used));
                                assert(used <= rest.len());
                                let rest2 = rest.skip(used as int);
                                lemma_kids_used_eq_calc(rest2, (n - 1) as nat, false);
                                match spec_calc_kids(rest2, (n - 1) as nat, false) {
                                    Ok(t2) => {
                                        match spec_parse_items(rest2, (n - 1) as nat) {
                                            Ok(p2) => {
                                                assert(p2.1 == t2);
                                                assert(t == (used + t2) as nat);
                                                assert(p.1 == (used + p2.1) as nat);
                                            },
                                            Err(_) => {
                                                assert(false);
                                            },
                                        }
                                    },
                                    Err(_) => {
                                        assert(false);
                                    },
                                }
                            },
                            Err(_) => {
                                assert(false);
                            },
                        }
                    },
                    Err(_) => {},
                }
            },
            Err(_) => {},
        }
    }
}

} // verus!
