use vstd::prelude::*;

use crate::resp::array::{RespArray, RespNullArray};
use crate::resp::bulk_string::{BulkString, RespNullBulkString};
use crate::resp::double::{float_body, RespDouble};
use crate::resp::map::{bytes_lt, RespMap};
use crate::resp::null::RespNull;
use crate::resp::set::RespSet;
use crate::resp::simple_error::SimpleError;
use crate::resp::simple_string::SimpleString;

verus! {

/// One complete RESP value, possibly nested.
#[derive(Debug, PartialEq)]
pub enum RespFrame {
    SimpleString(SimpleString),
    SimpleError(SimpleError),
    Integer(i64),
    BulkString(BulkString),
    NullBulkString(RespNullBulkString),
    Array(RespArray),
    NullArray(RespNullArray),
    Null(RespNull),
    Boolean(bool),
    Double(RespDouble),
    MapFrame(RespMap),
    SetFrame(RespSet),
}

/// The mathematical shape of a frame: payloads as byte sequences, aggregates
/// as sequences of child models. Contracts and proofs speak of this type.
pub enum FrameModel {
    SimpleString(Seq<u8>),
    SimpleError(Seq<u8>),
    Integer(int),
    BulkString(Seq<u8>),
    NullBulkString,
    Array(Seq<FrameModel>),
    NullArray,
    Null,
    Boolean(bool),
    Double(Seq<u8>),
    MapFrame(Seq<(Seq<u8>, FrameModel)>),
    SetFrame(Seq<FrameModel>),
}

/// The model a frame denotes.
pub open spec fn dv(f: RespFrame) -> FrameModel
    decreases f,
{
    match f {
        RespFrame::SimpleString(s) => FrameModel::SimpleString(s.0@),
        RespFrame::SimpleError(s) => FrameModel::SimpleError(s.0@),
        RespFrame::Integer(n) => FrameModel::Integer(n as int),
        RespFrame::BulkString(b) => FrameModel::BulkString(b.0@),
        RespFrame::NullBulkString(_) => FrameModel::NullBulkString,
        RespFrame::Array(a) => FrameModel::Array(dv_seq(a.0@)),
        RespFrame::NullArray(_) => FrameModel::NullArray,
        RespFrame::Null(_) => FrameModel::Null,
        RespFrame::Boolean(b) => FrameModel::Boolean(b),
        RespFrame::Double(d) => FrameModel::Double(d.0@),
        RespFrame::MapFrame(m) => FrameModel::MapFrame(dv_pairs(m.0@)),
        RespFrame::SetFrame(s) => FrameModel::SetFrame(dv_seq(s.0@)),
    }
}

pub open spec fn dv_seq(s: Seq<RespFrame>) -> Seq<FrameModel>
    decreases s,
{
    if s.len() == 0 {
        Seq::empty()
    } else {
        seq![dv(s[0])] + dv_seq(s.drop_first())
    }
}

pub open spec fn dv_pairs(s: Seq<(Vec<u8>, RespFrame)>) -> Seq<(Seq<u8>, FrameModel)>
    decreases s,
{
    if s.len() == 0 {
        Seq::empty()
    } else {
        seq![(s[0].0@, dv(s[0].1))] + dv_pairs(s.drop_first())
    }
}

pub broadcast proof fn lemma_dv_seq_len(s: Seq<RespFrame>)
    ensures
        #[trigger] dv_seq(s).len() == s.len(),
    decreases s.len(),
{
    if s.len() > 0 {
        lemma_dv_seq_len(s.drop_first());
    }
}

pub broadcast proof fn lemma_dv_seq_index(s: Seq<RespFrame>, i: int)
    requires
        0 <= i < s.len(),
    ensures
        dv_seq(s).len() == s.len(),
        #[trigger] dv_seq(s)[i] == dv(s[i]),
    decreases s.len(),
{
    lemma_dv_seq_len(s);
    if i > 0 {
        lemma_dv_seq_index(s.drop_first(), i - 1);
    }
}

pub broadcast proof fn lemma_dv_pairs_len(s: Seq<(Vec<u8>, RespFrame)>)
    ensures
        #[trigger] dv_pairs(s).len() == s.len(),
    decreases s.len(),
{
    if s.len() > 0 {
        lemma_dv_pairs_len(s.drop_first());
    }
}

pub broadcast proof fn lemma_dv_pairs_index(s: Seq<(Vec<u8>, RespFrame)>, i: int)
    requires
        0 <= i < s.len(),
    ensures
        dv_pairs(s).len() == s.len(),
        #[trigger] dv_pairs(s)[i] == (s[i].0@, dv(s[i].1)),
    decreases s.len(),
{
    lemma_dv_pairs_len(s);
    if i > 0 {
        lemma_dv_pairs_index(s.drop_first(), i - 1);
    }
}

/// No byte of `s` is CR or LF.
pub open spec fn no_crlf(s: Seq<u8>) -> bool {
    forall|i: int| 0 <= i < s.len() ==> #[trigger] s[i] != 13u8 && s[i] != 10u8
}

/// Well-formed models: what the encoder may be handed. Simple payloads and
/// map keys carry no CR/LF, integers fit a signed 64-bit word, a double body
/// obeys the float grammar, aggregate and payload lengths fit the machine,
/// and map pairs come strictly sorted by key.
pub open spec fn wf(m: FrameModel) -> bool
    decreases m,
{
    match m {
        FrameModel::SimpleString(p) => no_crlf(p),
        FrameModel::SimpleError(p) => no_crlf(p),
        FrameModel::Integer(v) => i64::MIN <= v <= i64::MAX,
        FrameModel::BulkString(p) => p.len() <= usize::MAX,
        FrameModel::NullBulkString => true,
        FrameModel::Array(items) => items.len() <= usize::MAX && wf_seq(items),
        FrameModel::NullArray => true,
        FrameModel::Null => true,
        FrameModel::Boolean(_) => true,
        FrameModel::Double(b) => float_body(b) && no_crlf(b),
        FrameModel::MapFrame(ps) => ps.len() <= usize::MAX && wf_pairs(ps),
        FrameModel::SetFrame(items) => items.len() <= usize::MAX && wf_seq(items),
    }
}

pub open spec fn wf_seq(items: Seq<FrameModel>) -> bool
    decreases items,
{
    if items.len() == 0 {
        true
    } else {
        wf(items[0]) && wf_seq(items.drop_first())
    }
}

/// Keys CR/LF-free, values well formed, and adjacent keys strictly ascending.
pub open spec fn wf_pairs(ps: Seq<(Seq<u8>, FrameModel)>) -> bool
    decreases ps,
{
    if ps.len() == 0 {
        true
    } else {
        no_crlf(ps[0].0) && wf(ps[0].1) && (ps.len() == 1 || bytes_lt(ps[0].0, ps[1].0))
            && wf_pairs(ps.drop_first())
    }
}

pub proof fn lemma_dv_seq_take_snoc(s: Seq<RespFrame>, i: int)
    requires
        0 <= i < s.len(),
    ensures
        dv_seq(s.take(i + 1)) == dv_seq(s.take(i)) + seq![dv(s[i])],
    decreases i,
{
    if i == 0 {
        assert(s.take(1).drop_first() =~= Seq::<RespFrame>::empty());
        assert(s.take(1)[0] == s[0]);
        assert(s.take(0) =~= Seq::<RespFrame>::empty());
        assert(dv_seq(s.take(1)) =~= dv_seq(s.take(0)) + seq![dv(s[0])]);
    } else {
        lemma_dv_seq_take_snoc(s.drop_first(), i - 1);
        assert(s.take(i + 1).drop_first() =~= s.drop_first().take(i));
        assert(s.take(i).drop_first() =~= s.drop_first().take(i - 1));
        assert(s.take(i + 1)[0] == s[0]);
        assert(s.take(i)[0] == s[0]);
        assert(s.drop_first()[i - 1] == s[i]);
        assert(dv_seq(s.take(i + 1)) =~= dv_seq(s.take(i)) + seq![dv(s[i])]);
    }
}

pub proof fn lemma_dv_pairs_take_snoc(s: Seq<(Vec<u8>, RespFrame)>, i: int)
    requires
        0 <= i < s.len(),
    ensures
        dv_pairs(s.take(i + 1)) == dv_pairs(s.take(i)) + seq![(s[i].0@, dv(s[i].1))],
    decreases i,
{
    if i == 0 {
        assert(s.take(1).drop_first() =~= Seq::<(Vec<u8>, RespFrame)>::empty());
        assert(s.take(1)[0] == s[0]);
        assert(s.take(0) =~= Seq::<(Vec<u8>, RespFrame)>::empty());
        assert(dv_pairs(s.take(1)) =~= dv_pairs(s.take(0)) + seq![(s[0].0@, dv(s[0].1))]);
    } else {
        lemma_dv_pairs_take_snoc(s.drop_first(), i - 1);
        assert(s.take(i + 1).drop_first() =~= s.drop_first().take(i));
        assert(s.take(i).drop_first() =~= s.drop_first().take(i - 1));
        assert(s.take(i + 1)[0] == s[0]);
        assert(s.take(i)[0] == s[0]);
        assert(s.drop_first()[i - 1] == s[i]);
        assert(dv_pairs(s.take(i + 1)) =~= dv_pairs(s.take(i)) + seq![(s[i].0@, dv(s[i].1))]);
    }
}

/// Copies a frame; the copy denotes the same model.
pub fn clone_frame(f: &RespFrame) -> (r: RespFrame)
    ensures
        dv(r) == dv(*f),
    decreases *f,
{
    match f {
        RespFrame::SimpleString(s) => RespFrame::SimpleString(SimpleString(s.0.clone())),
        RespFrame::SimpleError(s) => RespFrame::SimpleError(SimpleError(s.0.clone())),
        RespFrame::Integer(n) => RespFrame::Integer(*n),
        RespFrame::BulkString(b) => RespFrame::BulkString(BulkString(b.0.clone())),
        RespFrame::NullBulkString(_) => RespFrame::NullBulkString(RespNullBulkString),
        RespFrame::Array(a) => RespFrame::Array(RespArray(clone_frames(&a.0))),
        RespFrame::NullArray(_) => RespFrame::NullArray(RespNullArray),
        RespFrame::Null(_) => RespFrame::Null(RespNull),
        RespFrame::Boolean(b) => RespFrame::Boolean(*b),
        RespFrame::Double(d) => RespFrame::Double(RespDouble(d.0.clone())),
        RespFrame::MapFrame(m) => RespFrame::MapFrame(RespMap(clone_pairs(&m.0))),
        RespFrame::SetFrame(s) => RespFrame::SetFrame(RespSet(clone_frames(&s.0))),
    }
}

/// Copies a list of frames; the copies denote the same models.
pub fn clone_frames(v: &Vec<RespFrame>) -> (r: Vec<RespFrame>)
    ensures
        r@.len() == v@.len(),
        dv_seq(r@) == dv_seq(v@),
    decreases *v,
{
    let mut out: Vec<RespFrame> = Vec::new();
    let mut i: usize = 0;
    while i < v.len()
        invariant
            i <= v.len(),
            out@.len() == i,
            dv_seq(out@) == dv_seq(v@.take(i as int)),
        decreases v.len() - i,
    {
        let c = clone_frame(&v[i]);
        proof {
            lemma_dv_seq_take_snoc(v@, i as int);
            lemma_dv_seq_take_snoc(out@.push(c), i as int);
            assert(out@.push(c).take(i as int) =~= out@);
            assert(out@.push(c).take(i + 1) =~= out@.push(c));
        }
        out.push(c);
        i = i + 1;
    }
    proof {
        assert(v@.take(v@.len() as int) =~= v@);
    }
    out
}

/// Copies map pairs; the copies denote the same models.
pub fn clone_pairs(v: &Vec<(Vec<u8>, RespFrame)>) -> (r: Vec<(Vec<u8>, RespFrame)>)
    ensures
        r@.len() == v@.len(),
        dv_pairs(r@) == dv_pairs(v@),
    decreases *v,
{
    let mut out: Vec<(Vec<u8>, RespFrame)> = Vec::new();
    let mut i: usize = 0;
    while i < v.len()
        invariant
            i <= v.len(),
            out@.len() == i,
            dv_pairs(out@) == dv_pairs(v@.take(i as int)),
        decreases v.len() - i,
    {
        let k = v[i].0.clone();
        let c = clone_frame(&v[i].1);
        let ghost p = (k, c);
        proof {
            lemma_dv_pairs_take_snoc(v@, i as int);
            lemma_dv_pairs_take_snoc(out@.push(p), i as int);
            assert(out@.push(p).take(i as int) =~= out@);
            assert(out@.push(p).take(i + 1) =~= out@.push(p));
        }
        out.push((k, c));
        i = i + 1;
    }
    proof {
        assert(v@.take(v@.len() as int) =~= v@);
    }
    out
}

impl Clone for RespFrame {
    /// The copy denotes the same model as the original.
    fn clone(&self) -> (r: Self)
        ensures
            dv(r) == dv(*self),
    {
        clone_frame(self)
    }
}

} // verus!
