use vstd::prelude::*;

use crate::resp::frame::{FrameModel, RespFrame};

use bytes::BytesMut;
use crate::resp::decode::{
    calc_total_length, decode_err, decode_ok, err_model, parse_length, parse_map_slice,
    spec_expect_agg, spec_parse_map, RespDecode, SpecErr,
};
use crate::resp::encode::{encode_pairs, spec_enc, RespEncode};
use crate::resp::{bm_advance, bm_bytes, bm_slice, RespError};

verus! {

/// Key/value pairs of a `%<n>\r\n...` frame, held sorted by key so that
/// encoding is deterministic. Keys are the payloads of the SimpleString
/// frames that carry them on the wire.
#[derive(Debug, PartialEq)]
pub struct RespMap(pub Vec<(Vec<u8>, RespFrame)>);

/// Strict lexicographic order on byte strings; the order BTreeMap-style
/// string keys sort in.
pub open spec fn bytes_lt(a: Seq<u8>, b: Seq<u8>) -> bool
    decreases a.len(),
{
    if b.len() == 0 {
        false
    } else if a.len() == 0 {
        true
    } else if a[0] < b[0] {
        true
    } else if a[0] > b[0] {
        false
    } else {
        bytes_lt(a.drop_first(), b.drop_first())
    }
}

/// Insertion into a key-sorted pair list: a later write to an existing key
/// replaces its value, so repeated inserts keep the last write.
pub open spec fn sorted_insert_pair(
    ps: Seq<(Seq<u8>, FrameModel)>,
    k: Seq<u8>,
    v: FrameModel,
) -> Seq<(Seq<u8>, FrameModel)>
    decreases ps.len(),
{
    if ps.len() == 0 {
        seq![(k, v)]
    } else if bytes_lt(k, ps[0].0) {
        seq![(k, v)] + ps
    } else if k == ps[0].0 {
        seq![(k, v)] + ps.drop_first()
    } else {
        seq![ps[0]] + sorted_insert_pair(ps.drop_first(), k, v)
    }
}

impl Clone for RespMap {
    /// The copy holds pairs that denote the same models.
    fn clone(&self) -> (r: Self)
        ensures
            crate::resp::frame::dv_pairs(r.0@) == crate::resp::frame::dv_pairs(self.0@),
    {
        RespMap(crate::resp::frame::clone_pairs(&self.0))
    }
}

impl RespMap {
    pub fn new() -> (r: Self)
        ensures
            r.0@ == Seq::<(Vec<u8>, RespFrame)>::empty(),
    {
        RespMap(Vec::new())
    }
}


/// Any two byte strings compare: below, equal, or above.
pub proof fn lemma_bytes_lt_trichotomy(a: Seq<u8>, b: Seq<u8>)
    ensures
        bytes_lt(a, b) || bytes_lt(b, a) || a == b,
    decreases a.len(),
{
    if a.len() > 0 && b.len() > 0 && a[0] == b[0] {
        lemma_bytes_lt_trichotomy(a.drop_first(), b.drop_first());
        if a.drop_first() == b.drop_first() {
            assert(a.len() == b.len());
            assert forall|i: int| 0 <= i < a.len() implies a[i] == b[i] by {
                if i > 0 {
                    assert(a[i] == a.drop_first()[i - 1]);
                    assert(b[i] == b.drop_first()[i - 1]);
                }
            }
            assert(a =~= b);
        }
    }
}

/// At most one of the three orderings holds.
pub proof fn lemma_bytes_lt_asym(a: Seq<u8>, b: Seq<u8>)
    ensures
        bytes_lt(a, b) ==> !bytes_lt(b, a) && a != b,
    decreases a.len(),
{
    if a.len() > 0 && b.len() > 0 && a[0] == b[0] {
        lemma_bytes_lt_asym(a.drop_first(), b.drop_first());
        if a.drop_first() == b.drop_first() {
            assert(a.len() == b.len());
            assert forall|i: int| 0 <= i < a.len() implies a[i] == b[i] by {
                if i > 0 {
                    assert(a[i] == a.drop_first()[i - 1]);
                    assert(b[i] == b.drop_first()[i - 1]);
                }
            }
            assert(a =~= b);
        }
        if a == b {
            assert(a.drop_first() =~= b.drop_first());
        }
    } else {
        if a == b && a.len() > 0 {
            assert(a[0] == b[0]);
        }
    }
}

pub proof fn lemma_bytes_lt_trans(a: Seq<u8>, b: Seq<u8>, c: Seq<u8>)
    requires
        bytes_lt(a, b),
        bytes_lt(b, c),
    ensures
        bytes_lt(a, c),
    decreases a.len(),
{
    if a.len() > 0 && b.len() > 0 && c.len() > 0 {
        if a[0] == b[0] && b[0] == c[0] {
            lemma_bytes_lt_trans(a.drop_first(), b.drop_first(), c.drop_first());
        }
    }
}

/// Compares two byte strings in lexicographic order.
pub fn bytes_lt_exec(a: &[u8], b: &[u8]) -> (r: bool)
    ensures
        r == bytes_lt(a@, b@),
{
    let ghost aq = a@;
    let ghost bq = b@;
    let mut i: usize = 0;
    proof {
        assert(aq.skip(0) =~= aq);
        assert(bq.skip(0) =~= bq);
    }
    while i < a.len() && i < b.len()
        invariant
            i <= aq.len(),
            i <= bq.len(),
            aq == a@,
            bq == b@,
            bytes_lt(aq, bq) == bytes_lt(aq.skip(i as int), bq.skip(i as int)),
        decreases aq.len() - i,
    {
        let x = *vstd::slice::slice_index_get(a, i);
        let y = *vstd::slice::slice_index_get(b, i);
        proof {
            let sa = aq.skip(i as int);
            let sb = bq.skip(i as int);
            assert(sa[0] == aq[i as int] && sb[0] == bq[i as int]);
            assert(sa.drop_first() =~= aq.skip(i as int + 1));
            assert(sb.drop_first() =~= bq.skip(i as int + 1));
        }
        if x < y {
            return true;
        }
        if x > y {
            return false;
        }
        i = i + 1;
    }
    proof {
        assert(aq.skip(i as int).len() == 0 || bq.skip(i as int).len() == 0);
    }
    i >= a.len() && i < b.len()
}

/// Tests two byte strings for equality.
pub fn bytes_eq(a: &[u8], b: &[u8]) -> (r: bool)
    ensures
        r == (a@ == b@),
{
    if a.len() != b.len() {
        return false;
    }
    let mut i: usize = 0;
    while i < a.len()
        invariant
            i <= a@.len(),
            a@.len() == b@.len(),
            forall|j: int| 0 <= j < i ==> a@[j] == b@[j],
        decreases a@.len() - i,
    {
        let x = *vstd::slice::slice_index_get(a, i);
        let y = *vstd::slice::slice_index_get(b, i);
        if x != y {
            return false;
        }
        i = i + 1;
    }
    proof {
        assert(a@ =~= b@);
    }
    true
}

/// Where a linear scan stops, the recursive insertion lands.
proof fn lemma_sorted_insert_position(
    mps: Seq<(Seq<u8>, FrameModel)>,
    k: Seq<u8>,
    v: FrameModel,
    j: int,
)
    requires
        0 <= j <= mps.len(),
        forall|i: int| 0 <= i < j ==> bytes_lt(#[trigger] mps[i].0, k),
        j < mps.len() ==> !bytes_lt(mps[j].0, k),
    ensures
        sorted_insert_pair(mps, k, v) == if j < mps.len() && mps[j].0 == k {
            mps.update(j, (k, v))
        } else {
            mps.insert(j, (k, v))
        },
    decreases j,
{
    if j == 0 {
        if mps.len() == 0 {
            assert(sorted_insert_pair(mps, k, v) =~= mps.insert(0, (k, v)));
        } else if mps[0].0 == k {
            lemma_bytes_lt_asym(k, mps[0].0);
            assert(seq![(k, v)] + mps.drop_first() =~= mps.update(0, (k, v)));
        } else {
            lemma_bytes_lt_trichotomy(k, mps[0].0);
            assert(bytes_lt(k, mps[0].0));
            assert(seq![(k, v)] + mps =~= mps.insert(0, (k, v)));
        }
    } else {
        assert(bytes_lt(mps[0].0, k));
        lemma_bytes_lt_asym(mps[0].0, k);
        lemma_sorted_insert_position(mps.drop_first(), k, v, j - 1);
        assert(mps.drop_first() =~= mps.subrange(1, mps.len() as int));
        if j < mps.len() && mps[j].0 == k {
            assert(mps.drop_first()[j - 1] == mps[j]);
            assert(seq![mps[0]] + mps.drop_first().update(j - 1, (k, v)) =~= mps.update(j, (k, v)));
        } else {
            assert(seq![mps[0]] + mps.drop_first().insert(j - 1, (k, v)) =~= mps.insert(j, (k, v)));
        }
    }
}

proof fn lemma_dv_pairs_update(s: Seq<(Vec<u8>, RespFrame)>, j: int, p: (Vec<u8>, RespFrame))
    requires
        0 <= j < s.len(),
    ensures
        crate::resp::frame::dv_pairs(s.update(j, p)) == crate::resp::frame::dv_pairs(s).update(
            j,
            (p.0@, crate::resp::frame::dv(p.1)),
        ),
{
    let a = crate::resp::frame::dv_pairs(s.update(j, p));
    let b = crate::resp::frame::dv_pairs(s).update(j, (p.0@, crate::resp::frame::dv(p.1)));
    crate::resp::frame::lemma_dv_pairs_len(s.update(j, p));
    crate::resp::frame::lemma_dv_pairs_len(s);
    assert forall|i: int| 0 <= i < a.len() implies a[i] == b[i] by {
        crate::resp::frame::lemma_dv_pairs_index(s.update(j, p), i);
        crate::resp::frame::lemma_dv_pairs_index(s, i);
    }
    assert(a =~= b);
}

proof fn lemma_dv_pairs_insert(s: Seq<(Vec<u8>, RespFrame)>, j: int, p: (Vec<u8>, RespFrame))
    requires
        0 <= j <= s.len(),
    ensures
        crate::resp::frame::dv_pairs(s.insert(j, p)) == crate::resp::frame::dv_pairs(s).insert(
            j,
            (p.0@, crate::resp::frame::dv(p.1)),
        ),
{
    let a = crate::resp::frame::dv_pairs(s.insert(j, p));
    let b = crate::resp::frame::dv_pairs(s).insert(j, (p.0@, crate::resp::frame::dv(p.1)));
    crate::resp::frame::lemma_dv_pairs_len(s.insert(j, p));
    crate::resp::frame::lemma_dv_pairs_len(s);
    assert forall|i: int| 0 <= i < a.len() implies a[i] == b[i] by {
        crate::resp::frame::lemma_dv_pairs_index(s.insert(j, p), i);
        if i < j {
            crate::resp::frame::lemma_dv_pairs_index(s, i);
        } else if i > j {
            crate::resp::frame::lemma_dv_pairs_index(s, i - 1);
        }
    }
    assert(a =~= b);
}

impl RespMap {
    /// Puts `value` under `key`, keeping the pairs sorted; a later write to
    /// the same key replaces the earlier value.
    pub fn insert(&mut self, key: Vec<u8>, value: RespFrame)
        ensures
            crate::resp::frame::dv_pairs(final(self).0@) == sorted_insert_pair(
                crate::resp::frame::dv_pairs(old(self).0@),
                key@,
                crate::resp::frame::dv(value),
            ),
    {
        let ghost mps = crate::resp::frame::dv_pairs(self.0@);
        proof {
            crate::resp::frame::lemma_dv_pairs_len(self.0@);
        }
        let mut j: usize = 0;
        while j < self.0.len() && bytes_lt_exec(self.0[j].0.as_slice(), key.as_slice())
            invariant
                j <= self.0@.len(),
                mps == crate::resp::frame::dv_pairs(self.0@),
                mps.len() == self.0@.len(),
                forall|i: int| 0 <= i < j ==> bytes_lt(#[trigger] mps[i].0, key@),
            decreases self.0@.len() - j,
        {
            proof {
                crate::resp::frame::lemma_dv_pairs_index(self.0@, j as int);
            }
            j = j + 1;
        }
        proof {
            if j < self.0@.len() {
                crate::resp::frame::lemma_dv_pairs_index(self.0@, j as int);
            }
        }
        if j < self.0.len() && bytes_eq(self.0[j].0.as_slice(), key.as_slice()) {
            proof {
                lemma_sorted_insert_position(mps, key@, crate::resp::frame::dv(value), j as int);
            }
            let ghost pre = self.0@;
            let slot = vstd::std_specs::vec::vec_index_mut(&mut self.0, j);
            *slot = (key, value);
            proof {
                lemma_dv_pairs_update(pre, j as int, (key, value));
            }
        } else {
            proof {
                lemma_sorted_insert_position(mps, key@, crate::resp::frame::dv(value), j as int);
            }
            let ghost pre = self.0@;
            self.0.insert(j, (key, value));
            proof {
                lemma_dv_pairs_insert(pre, j as int, (key, value));
            }
        }
    }
}


impl RespEncode for RespMap {
    open spec fn enc_model(&self) -> FrameModel {
        FrameModel::MapFrame(crate::resp::frame::dv_pairs(self.0@))
    }

    fn encode(&self) -> (r: Vec<u8>) {
        let out = encode_pairs(&self.0);
        proof {
            crate::resp::frame::lemma_dv_pairs_len(self.0@);
            assert(out@ =~= spec_enc(self.enc_model()));
        }
        out
    }
}

impl RespDecode for RespMap {
    /// On success exactly the frame's bytes leave the buffer; on any error,
    /// none do.
    fn decode(buf: &mut BytesMut) -> (r: Result<Self, RespError>)
        ensures
            match r {
                Ok(v) => decode_ok(
                    spec_parse_map(bm_bytes(*old(buf))),
                    FrameModel::MapFrame(crate::resp::frame::dv_pairs(v.0@)),
                    bm_bytes(*old(buf)),
                    bm_bytes(*final(buf)),
                ),
                Err(e) => decode_err(
                    spec_parse_map(bm_bytes(*old(buf))),
                    e,
                    bm_bytes(*old(buf)),
                    bm_bytes(*final(buf)),
                ),
            },
    {
        let s = bm_slice(buf);
        match parse_map_slice(s) {
            Ok((m, n)) => {
                bm_advance(buf, n);
                Ok(m)
            },
            Err(e) => Err(e),
        }
    }

    fn expect_length(buf: &[u8]) -> (r: Result<usize, RespError>)
        ensures
            match r {
                Ok(n) => spec_expect_agg(buf@, 37u8, true) == Ok::<nat, SpecErr>(n as nat),
                Err(e) => spec_expect_agg(buf@, 37u8, true) == Err::<nat, SpecErr>(err_model(e)),
            },
    {
        match parse_length(buf, 37u8) {
            Err(e) => Err(e),
            Ok((end, n)) => calc_total_length(buf, end, n, 37u8),
        }
    }
}

} // verus!
