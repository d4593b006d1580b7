use vstd::prelude::*;

use crate::resp::frame::{
    dv, dv_pairs, dv_seq, lemma_dv_pairs_index, lemma_dv_pairs_len, lemma_dv_seq_index,
    lemma_dv_seq_len, FrameModel, RespFrame,
};

verus! {

/// Initial capacity for encode buffers of aggregate frames.
pub const BUF_CAP: usize = 4096;

/// The two bytes that end every RESP line.
pub open spec fn crlf() -> Seq<u8> {
    seq![13u8, 10u8]
}

/// Decimal digits of `n`, most significant first, as ASCII bytes.
pub open spec fn dec_digits(n: nat) -> Seq<u8>
    decreases n,
{
    if n < 10 {
        seq![(48 + n) as u8]
    } else {
        dec_digits(n / 10).push((48 + n % 10) as u8)
    }
}

/// Decimal representation of a signed value: a leading `-` only when negative.
pub open spec fn dec_int(n: int) -> Seq<u8> {
    if n < 0 {
        seq![45u8] + dec_digits((-n) as nat)
    } else {
        dec_digits(n as nat)
    }
}

/// The exact bytes a model takes on the wire.
pub open spec fn spec_enc(m: FrameModel) -> Seq<u8>
    decreases m,
{
    match m {
        FrameModel::SimpleString(p) => seq![43u8] + p + crlf(),
        FrameModel::SimpleError(p) => seq![45u8] + p + crlf(),
        FrameModel::Integer(v) => seq![58u8] + dec_int(v) + crlf(),
        FrameModel::BulkString(p) => seq![36u8] + dec_digits(p.len()) + crlf() + p + crlf(),
        FrameModel::NullBulkString => seq![36u8, 45u8, 49u8] + crlf(),
        FrameModel::Array(items) => seq![42u8] + dec_digits(items.len()) + crlf() + spec_enc_seq(
            items,
        ),
        FrameModel::NullArray => seq![42u8, 45u8, 49u8] + crlf(),
        FrameModel::Null => seq![95u8] + crlf(),
        FrameModel::Boolean(b) => seq![35u8, if b {
            116u8
        } else {
            102u8
        }] + crlf(),
        FrameModel::Double(body) => seq![44u8] + body + crlf(),
        FrameModel::MapFrame(ps) => seq![37u8] + dec_digits(ps.len()) + crlf() + spec_enc_pairs(ps),
        FrameModel::SetFrame(items) => seq![126u8] + dec_digits(items.len()) + crlf() + spec_enc_seq(
            items,
        ),
    }
}

/// Concatenated encodings of a sequence of children.
pub open spec fn spec_enc_seq(items: Seq<FrameModel>) -> Seq<u8>
    decreases items,
{
    if items.len() == 0 {
        Seq::empty()
    } else {
        spec_enc(items[0]) + spec_enc_seq(items.drop_first())
    }
}

/// Concatenated encodings of map pairs: each key as a SimpleString frame,
/// then the value frame.
pub open spec fn spec_enc_pairs(ps: Seq<(Seq<u8>, FrameModel)>) -> Seq<u8>
    decreases ps,
{
    if ps.len() == 0 {
        Seq::empty()
    } else {
        seq![43u8] + ps[0].0 + crlf() + spec_enc(ps[0].1) + spec_enc_pairs(ps.drop_first())
    }
}

pub proof fn lemma_enc_seq_take_snoc(items: Seq<FrameModel>, i: int)
    requires
        0 <= i < items.len(),
    ensures
        spec_enc_seq(items.take(i + 1)) == spec_enc_seq(items.take(i)) + spec_enc(items[i]),
    decreases i,
{
    if i == 0 {
        assert(items.take(1).drop_first() =~= Seq::<FrameModel>::empty());
        assert(items.take(1)[0] == items[0]);
        assert(items.take(0) =~= Seq::<FrameModel>::empty());
        assert(spec_enc_seq(items.take(1)) =~= spec_enc_seq(items.take(0)) + spec_enc(items[0]));
    } else {
        lemma_enc_seq_take_snoc(items.drop_first(), i - 1);
        assert(items.take(i + 1).drop_first() =~= items.drop_first().take(i));
        assert(items.take(i).drop_first() =~= items.drop_first().take(i - 1));
        assert(items.take(i + 1)[0] == items[0]);
        assert(items.take(i)[0] == items[0]);
        assert(items.drop_first()[i - 1] == items[i]);
        assert(spec_enc(items[0]) + (spec_enc_seq(items.drop_first().take(i - 1)) + spec_enc(
            items[i],
        )) =~= (spec_enc(items[0]) + spec_enc_seq(items.drop_first().take(i - 1))) + spec_enc(
            items[i],
        ));
    }
}

pub proof fn lemma_enc_pairs_take_snoc(ps: Seq<(Seq<u8>, FrameModel)>, i: int)
    requires
        0 <= i < ps.len(),
    ensures
        spec_enc_pairs(ps.take(i + 1)) == spec_enc_pairs(ps.take(i)) + (seq![43u8] + ps[i].0
            + crlf() + spec_enc(ps[i].1)),
    decreases i,
{
    if i == 0 {
        assert(ps.take(1).drop_first() =~= Seq::<(Seq<u8>, FrameModel)>::empty());
        assert(ps.take(1)[0] == ps[0]);
        assert(ps.take(0) =~= Seq::<(Seq<u8>, FrameModel)>::empty());
        assert(spec_enc_pairs(ps.take(1)) =~= spec_enc_pairs(ps.take(0)) + (seq![43u8] + ps[0].0
            + crlf() + spec_enc(ps[0].1)));
    } else {
        lemma_enc_pairs_take_snoc(ps.drop_first(), i - 1);
        assert(ps.take(i + 1).drop_first() =~= ps.drop_first().take(i));
        assert(ps.take(i).drop_first() =~= ps.drop_first().take(i - 1));
        assert(ps.take(i + 1)[0] == ps[0]);
        assert(ps.take(i)[0] == ps[0]);
        assert(ps.drop_first()[i - 1] == ps[i]);
        assert(spec_enc_pairs(ps.take(i + 1)) =~= spec_enc_pairs(ps.take(i)) + (seq![43u8]
            + ps[i].0 + crlf() + spec_enc(ps[i].1)));
    }
}

/// Appends every byte of `s` to `out`.
pub fn extend_bytes(out: &mut Vec<u8>, s: &[u8])
    ensures
        final(out)@ == old(out)@ + s@,
{
    let mut i: usize = 0;
    while i < s.len()
        invariant
            i <= s.len(),
            out@ == old(out)@ + s@.take(i as int),
        decreases s.len() - i,
    {
        let b = *vstd::slice::slice_index_get(s, i);
        out.push(b);
        proof {
            assert(old(out)@ + s@.take(i + 1) =~= (old(out)@ + s@.take(i as int)).push(
                s@[i as int],
            ));
        }
        i = i + 1;
    }
    proof {
        assert(s@.take(s@.len() as int) =~= s@);
    }
}

/// Writes the decimal digits of `n` in ASCII.
pub fn u64_to_dec(n: u64) -> (r: Vec<u8>)
    ensures
        r@ == dec_digits(n as nat),
    decreases n,
{
    if n < 10 {
        let mut v: Vec<u8> = Vec::new();
        v.push(48 + n as u8);
        proof {
            assert(v@ =~= dec_digits(n as nat));
        }
        v
    } else {
        let mut v = u64_to_dec(n / 10);
        v.push(48 + (n % 10) as u8);
        v
    }
}

pub fn usize_to_dec(n: usize) -> (r: Vec<u8>)
    ensures
        r@ == dec_digits(n as nat),
{
    u64_to_dec(n as u64)
}

pub fn i64_to_dec(n: i64) -> (r: Vec<u8>)
    ensures
        r@ == dec_int(n as int),
{
    if n >= 0 {
        u64_to_dec(n as u64)
    } else {
        let mag: u64 = if n == i64::MIN {
            9223372036854775808u64
        } else {
            (-n) as u64
        };
        assert(mag as nat == (-(n as int)) as nat);
        let mut v: Vec<u8> = Vec::new();
        v.push(45u8);
        let d = u64_to_dec(mag);
        extend_bytes(&mut v, d.as_slice());
        proof {
            assert(v@ =~= dec_int(n as int));
        }
        v
    }
}

/// Encodes one frame, bit-exactly as `spec_enc` of its model says.
#[verifier::loop_isolation(false)]
pub fn encode_frame(f: &RespFrame) -> (r: Vec<u8>)
    ensures
        r@ == spec_enc(dv(*f)),
    decreases *f,
{
    match f {
        RespFrame::SimpleString(s) => {
            let mut out: Vec<u8> = Vec::new();
            out.push(43u8);
            extend_bytes(&mut out, s.0.as_slice());
            out.push(13u8);
            out.push(10u8);
            proof {
                assert(out@ =~= spec_enc(dv(*f)));
            }
            out
        },
        RespFrame::SimpleError(s) => {
            let mut out: Vec<u8> = Vec::new();
            out.push(45u8);
            extend_bytes(&mut out, s.0.as_slice());
            out.push(13u8);
            out.push(10u8);
            proof {
                assert(out@ =~= spec_enc(dv(*f)));
            }
            out
        },
        RespFrame::Integer(n) => {
            let mut out: Vec<u8> = Vec::new();
            out.push(58u8);
            let d = i64_to_dec(*n);
            extend_bytes(&mut out, d.as_slice());
            out.push(13u8);
            out.push(10u8);
            proof {
                assert(out@ =~= spec_enc(dv(*f)));
            }
            out
        },
        RespFrame::BulkString(b) => {
            let mut out: Vec<u8> = Vec::new();
            out.push(36u8);
            let d = usize_to_dec(b.0.len());
            extend_bytes(&mut out, d.as_slice());
            out.push(13u8);
            out.push(10u8);
            extend_bytes(&mut out, b.0.as_slice());
            out.push(13u8);
            out.push(10u8);
            proof {
                assert(out@ =~= spec_enc(dv(*f)));
            }
            out
        },
        RespFrame::NullBulkString(_) => {
            let mut out: Vec<u8> = Vec::new();
            out.push(36u8);
            out.push(45u8);
            out.push(49u8);
            out.push(13u8);
            out.push(10u8);
            proof {
                assert(out@ =~= spec_enc(dv(*f)));
            }
            out
        },
        RespFrame::NullArray(_) => {
            let mut out: Vec<u8> = Vec::new();
            out.push(42u8);
            out.push(45u8);
            out.push(49u8);
            out.push(13u8);
            out.push(10u8);
            proof {
                assert(out@ =~= spec_enc(dv(*f)));
            }
            out
        },
        RespFrame::Null(_) => {
            let mut out: Vec<u8> = Vec::new();
            out.push(95u8);
            out.push(13u8);
            out.push(10u8);
            proof {
                assert(out@ =~= spec_enc(dv(*f)));
            }
            out
        },
        RespFrame::Boolean(b) => {
            let mut out: Vec<u8> = Vec::new();
            out.push(35u8);
            if *b {
                out.push(116u8);
            } else {
                out.push(102u8);
            }
            out.push(13u8);
            out.push(10u8);
            proof {
                assert(out@ =~= spec_enc(dv(*f)));
            }
            out
        },
        RespFrame::Double(d) => {
            let mut out: Vec<u8> = Vec::new();
            out.push(44u8);
            extend_bytes(&mut out, d.0.as_slice());
            out.push(13u8);
            out.push(10u8);
            proof {
                assert(out@ =~= spec_enc(dv(*f)));
            }
            out
        },
        RespFrame::Array(a) => {
            proof {
                assert(decreases_to!(*f => (*f)->Array_0));
                assert((*f)->Array_0 == *a);
                assert(decreases_to!(*a => a.0));
            }
            let out = encode_items(42u8, &a.0);
            proof {
                lemma_dv_seq_len(a.0@);
                assert(out@ =~= spec_enc(dv(*f)));
            }
            out
        },
        RespFrame::SetFrame(s) => {
            proof {
                assert(decreases_to!(*f => (*f)->SetFrame_0));
                assert((*f)->SetFrame_0 == *s);
                assert(decreases_to!(*s => s.0));
            }
            let out = encode_items(126u8, &s.0);
            proof {
                lemma_dv_seq_len(s.0@);
                assert(out@ =~= spec_enc(dv(*f)));
            }
            out
        },
        RespFrame::MapFrame(m) => {
            proof {
                assert(decreases_to!(*f => (*f)->MapFrame_0));
                assert((*f)->MapFrame_0 == *m);
                assert(decreases_to!(*m => m.0));
            }
            let out = encode_pairs(&m.0);
            proof {
                lemma_dv_pairs_len(m.0@);
                assert(out@ =~= spec_enc(dv(*f)));
            }
            out
        },
    }
}

/// Every frame type encodes itself; the result is exactly `spec_enc` of the
/// model the type denotes.
pub trait RespEncode {
    spec fn enc_model(&self) -> FrameModel;

    fn encode(&self) -> (r: Vec<u8>)
        ensures
            r@ == spec_enc(self.enc_model()),
    ;
}

impl RespEncode for RespFrame {
    open spec fn enc_model(&self) -> FrameModel {
        dv(*self)
    }

    fn encode(&self) -> (r: Vec<u8>) {
        encode_frame(self)
    }
}


/// Encodes an aggregate header (`prefix`, count, CRLF) and then every child.
#[verifier::loop_isolation(false)]
pub fn encode_items(prefix: u8, items: &Vec<RespFrame>) -> (r: Vec<u8>)
    ensures
        r@ == seq![prefix] + dec_digits(items@.len() as nat) + crlf() + spec_enc_seq(
            dv_seq(items@),
        ),
    decreases *items,
{
    let mut out: Vec<u8> = Vec::with_capacity(BUF_CAP);
    out.push(prefix);
    let d = usize_to_dec(items.len());
    extend_bytes(&mut out, d.as_slice());
    out.push(13u8);
    out.push(10u8);
    let ghost header: Seq<u8> = out@;
    proof {
        lemma_dv_seq_len(items@);
        assert(header =~= seq![prefix] + dec_digits(items@.len() as nat) + crlf());
    }
    let n = items.len();
    let mut i: usize = 0;
    while i < n
        invariant
            i <= n,
            out@ == header + spec_enc_seq(dv_seq(items@).take(i as int)),
        decreases n - i,
    {
        let child = &items[i];
        proof {
            assert(decreases_to!(*items => items@[i as int]));
        }
        let e = encode_frame(child);
        extend_bytes(&mut out, e.as_slice());
        proof {
            lemma_dv_seq_index(items@, i as int);
            lemma_enc_seq_take_snoc(dv_seq(items@), i as int);
        }
        i = i + 1;
    }
    proof {
        assert(dv_seq(items@).take(n as int) =~= dv_seq(items@));
    }
    out
}

/// Encodes a map header and then each key (as a SimpleString frame) and value.
#[verifier::loop_isolation(false)]
pub fn encode_pairs(pairs: &Vec<(Vec<u8>, RespFrame)>) -> (r: Vec<u8>)
    ensures
        r@ == seq![37u8] + dec_digits(pairs@.len() as nat) + crlf() + spec_enc_pairs(
            dv_pairs(pairs@),
        ),
    decreases *pairs,
{
    let mut out: Vec<u8> = Vec::with_capacity(BUF_CAP);
    out.push(37u8);
    let d = usize_to_dec(pairs.len());
    extend_bytes(&mut out, d.as_slice());
    out.push(13u8);
    out.push(10u8);
    let ghost header: Seq<u8> = out@;
    proof {
        lemma_dv_pairs_len(pairs@);
        assert(header =~= seq![37u8] + dec_digits(pairs@.len() as nat) + crlf());
    }
    let n = pairs.len();
    let mut i: usize = 0;
    while i < n
        invariant
            i <= n,
            out@ == header + spec_enc_pairs(dv_pairs(pairs@).take(i as int)),
        decreases n - i,
    {
        let pair = &pairs[i];
        out.push(43u8);
        extend_bytes(&mut out, pair.0.as_slice());
        out.push(13u8);
        out.push(10u8);
        proof {
            assert(decreases_to!(*pairs => pairs@[i as int]));
            assert(decreases_to!(pairs@[i as int] => pairs@[i as int].1));
        }
        let e = encode_frame(&pair.1);
        extend_bytes(&mut out, e.as_slice());
        proof {
            lemma_dv_pairs_index(pairs@, i as int);
            lemma_enc_pairs_take_snoc(dv_pairs(pairs@), i as int);
            assert(out@ =~= header + spec_enc_pairs(dv_pairs(pairs@).take(i + 1)));
        }
        i = i + 1;
    }
    proof {
        assert(dv_pairs(pairs@).take(n as int) =~= dv_pairs(pairs@));
    }
    out
}

} // verus!
