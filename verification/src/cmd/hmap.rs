use vstd::prelude::*;

use crate::backend::{pairs_model_map, Backend};
use crate::cmd::{
    err_matches, extract_args, flat_pairs, invalid_argument_msg, is_utf8_exec, mkeys_distinct,
    mpairs_map, names_model, pairs_sorted_strict, resp_ok, spec_hget_cmd, spec_hgetall_cmd,
    spec_hset_cmd, validate_command, verb_hget, verb_hget_vec, verb_hgetall, verb_hgetall_vec,
    verb_hset, verb_hset_vec, CmdErr, CommandError, CommandExecutor, HGet, HGetAll, HSet,
};
use crate::resp::array::RespArray;
use crate::resp::bulk_string::BulkString;
use crate::resp::frame::{
    dv, dv_pairs, dv_seq, lemma_dv_pairs_index, lemma_dv_pairs_len, lemma_dv_seq_index,
    lemma_dv_seq_len, lemma_dv_seq_take_snoc, FrameModel, RespFrame,
};
use crate::resp::map::{
    bytes_lt, lemma_bytes_lt_asym, lemma_bytes_lt_trans, sorted_insert_pair, RespMap,
};
use crate::resp::null::RespNull;

verus! {

impl HGet {
    /// Builds an `HGET` from `["hget", key, field]`, matched
    /// case-insensitively, with UTF-8 key and field.
    pub fn try_from(value: RespArray) -> (r: Result<HGet, CommandError>)
        ensures
            match r {
                Ok(h) => spec_hget_cmd(dv_seq(value.0@)) == Ok::<(Seq<u8>, Seq<u8>), CmdErr>(
                    (h.key@, h.field@),
                ),
                Err(e) => spec_hget_cmd(dv_seq(value.0@)) matches Err(ce) && err_matches(e, ce),
            },
    {
        let ghost frames = dv_seq(value.0@);
        proof {
            lemma_dv_seq_len(value.0@);
        }
        let mut names: Vec<Vec<u8>> = Vec::new();
        names.push(verb_hget_vec());
        proof {
            assert(names_model(names@) =~= seq![verb_hget()]);
        }
        match validate_command(&value, names.as_slice(), 2) {
            Err(e) => {
                return Err(e);
            },
            Ok(_) => {},
        }
        let mut args = match extract_args(value, 1) {
            Ok(a) => a,
            Err(e) => {
                proof {
                    assert(false);
                }
                return Err(e);
            },
        };
        proof {
            lemma_dv_seq_index(value.0@, 1);
            lemma_dv_seq_index(value.0@, 2);
        }
        let first = args.remove(0);
        let second = args.remove(0);
        match (first, second) {
            (RespFrame::BulkString(k), RespFrame::BulkString(f)) => {
                if !is_utf8_exec(k.0.as_slice()) {
                    return Err(CommandError::Utf8Error);
                }
                if !is_utf8_exec(f.0.as_slice()) {
                    return Err(CommandError::Utf8Error);
                }
                Ok(HGet { key: k.0, field: f.0 })
            },
            _ => Err(CommandError::InvalidArgument(invalid_argument_msg())),
        }
    }
}

impl HSet {
    /// Builds an `HSET` from `["hset", key, field, value]`, matched
    /// case-insensitively, with UTF-8 key and field; the value is any frame.
    pub fn try_from(value: RespArray) -> (r: Result<HSet, CommandError>)
        ensures
            match r {
                Ok(h) => spec_hset_cmd(dv_seq(value.0@)) == Ok::<
                    (Seq<u8>, Seq<u8>, FrameModel),
                    CmdErr,
                >((h.key@, h.field@, dv(h.value))),
                Err(e) => spec_hset_cmd(dv_seq(value.0@)) matches Err(ce) && err_matches(e, ce),
            },
    {
        let ghost frames = dv_seq(value.0@);
        proof {
            lemma_dv_seq_len(value.0@);
        }
        let mut names: Vec<Vec<u8>> = Vec::new();
        names.push(verb_hset_vec());
        proof {
            assert(names_model(names@) =~= seq![verb_hset()]);
        }
        match validate_command(&value, names.as_slice(), 3) {
            Err(e) => {
                return Err(e);
            },
            Ok(_) => {},
        }
        let mut args = match extract_args(value, 1) {
            Ok(a) => a,
            Err(e) => {
                proof {
                    assert(false);
                }
                return Err(e);
            },
        };
        proof {
            lemma_dv_seq_index(value.0@, 1);
            lemma_dv_seq_index(value.0@, 2);
            lemma_dv_seq_index(value.0@, 3);
        }
        let first = args.remove(0);
        let second = args.remove(0);
        let third = args.remove(0);
        match (first, second) {
            (RespFrame::BulkString(k), RespFrame::BulkString(f)) => {
                if !is_utf8_exec(k.0.as_slice()) {
                    return Err(CommandError::Utf8Error);
                }
                if !is_utf8_exec(f.0.as_slice()) {
                    return Err(CommandError::Utf8Error);
                }
                Ok(HSet { key: k.0, field: f.0, value: third })
            },
            _ => Err(CommandError::InvalidArgument(invalid_argument_msg())),
        }
    }
}

impl HGetAll {
    /// Builds an `HGETALL` from `["hgetall", key]`, matched
    /// case-insensitively, with a UTF-8 key; replies are not sorted.
    pub fn try_from(value: RespArray) -> (r: Result<HGetAll, CommandError>)
        ensures
            match r {
                Ok(h) => spec_hgetall_cmd(dv_seq(value.0@)) == Ok::<Seq<u8>, CmdErr>(h.key@)
                    && h.sort == false,
                Err(e) => spec_hgetall_cmd(dv_seq(value.0@)) matches Err(ce) && err_matches(e, ce),
            },
    {
        let ghost frames = dv_seq(value.0@);
        proof {
            lemma_dv_seq_len(value.0@);
        }
        let mut names: Vec<Vec<u8>> = Vec::new();
        names.push(verb_hgetall_vec());
        proof {
            assert(names_model(names@) =~= seq![verb_hgetall()]);
        }
        match validate_command(&value, names.as_slice(), 1) {
            Err(e) => {
                return Err(e);
            },
            Ok(_) => {},
        }
        let mut args = match extract_args(value, 1) {
            Ok(a) => a,
            Err(e) => {
                proof {
                    assert(false);
                }
                return Err(e);
            },
        };
        proof {
            lemma_dv_seq_index(value.0@, 1);
        }
        let first = args.remove(0);
        match first {
            RespFrame::BulkString(k) => {
                if is_utf8_exec(k.0.as_slice()) {
                    Ok(HGetAll { key: k.0, sort: false })
                } else {
                    Err(CommandError::Utf8Error)
                }
            },
            _ => Err(CommandError::InvalidArgument(invalid_argument_msg())),
        }
    }
}

impl CommandExecutor for HGet {
    /// Replies with the stored frame under key and field, or Null on a miss;
    /// the store is only read.
    fn execute(self, backend: &mut Backend) -> (r: Result<RespFrame, CommandError>)
        ensures
            final(backend).kv() == old(backend).kv(),
            final(backend).hkv() == old(backend).hkv(),
            r matches Ok(f) && dv(f) == (if old(backend).hkv().contains_key(self.key@) && old(
                backend,
            ).hkv()[self.key@].contains_key(self.field@) {
                old(backend).hkv()[self.key@][self.field@]
            } else {
                FrameModel::Null
            }),
    {
        match backend.hget(self.key.as_slice(), self.field.as_slice()) {
            Some(f) => Ok(f),
            None => Ok(RespFrame::Null(RespNull)),
        }
    }
}

impl CommandExecutor for HSet {
    /// Stores the value under key and field, creating the inner map when the
    /// key is new, and replies `+OK\r\n`.
    fn execute(self, backend: &mut Backend) -> (r: Result<RespFrame, CommandError>)
        ensures
            final(backend).kv() == old(backend).kv(),
            final(backend).hkv() == old(backend).hkv().insert(
                self.key@,
                (if old(backend).hkv().contains_key(self.key@) {
                    old(backend).hkv()[self.key@]
                } else {
                    Map::empty()
                }).insert(self.field@, dv(self.value)),
            ),
            r matches Ok(f) && dv(f) == FrameModel::SimpleString(seq![79u8, 75u8]),
    {
        backend.hset(self.key, self.field, self.value);
        Ok(resp_ok())
    }
}


pub open spec fn pairs_has_key(ps: Seq<(Seq<u8>, FrameModel)>, k: Seq<u8>) -> bool {
    exists|i: int| 0 <= i < ps.len() && (#[trigger] ps[i].0) == k
}

/// Prepending a pair whose key is fresh adds exactly that entry to the map
/// reading.
proof fn lemma_mpairs_prepend_fresh(p: (Seq<u8>, FrameModel), ps: Seq<(Seq<u8>, FrameModel)>)
    requires
        forall|i: int| 0 <= i < ps.len() ==> (#[trigger] ps[i].0) != p.0,
    ensures
        mpairs_map(seq![p] + ps) == mpairs_map(ps).insert(p.0, p.1),
    decreases ps.len(),
{
    let q = seq![p] + ps;
    if ps.len() == 0 {
        assert(q =~= seq![p]);
        assert(q.len() == 1 && q.last() == p);
        assert(q.drop_last() =~= Seq::<(Seq<u8>, FrameModel)>::empty());
        assert(ps =~= Seq::<(Seq<u8>, FrameModel)>::empty());
        assert(mpairs_map(q) == mpairs_map(q.drop_last()).insert(p.0, p.1));
        assert(mpairs_map(q) =~= mpairs_map(ps).insert(p.0, p.1));
    } else {
        assert(q.drop_last() =~= seq![p] + ps.drop_last());
        assert(q.last() == ps.last());
        assert forall|i: int| 0 <= i < ps.drop_last().len() implies (#[trigger] ps.drop_last()[i].0)
            != p.0 by {
            assert(ps.drop_last()[i] == ps[i]);
        }
        lemma_mpairs_prepend_fresh(p, ps.drop_last());
        assert(ps.last().0 != p.0);
        assert(mpairs_map(ps.drop_last()).insert(p.0, p.1).insert(ps.last().0, ps.last().1)
            =~= mpairs_map(ps.drop_last()).insert(ps.last().0, ps.last().1).insert(p.0, p.1));
    }
}

/// In a strictly sorted pair list, every earlier key sorts below every later
/// key.
proof fn lemma_sorted_chain(ps: Seq<(Seq<u8>, FrameModel)>, i: int, j: int)
    requires
        pairs_sorted_strict(ps),
        0 <= i < j < ps.len(),
    ensures
        bytes_lt(ps[i].0, ps[j].0),
    decreases j - i,
{
    if j == i + 1 {
    } else {
        lemma_sorted_chain(ps, i, j - 1);
        lemma_bytes_lt_trans(ps[i].0, ps[j - 1].0, ps[j].0);
    }
}

/// Inserting into a strictly sorted pair list keeps it sorted, keeps the
/// keys distinct, updates the map reading by exactly one entry, and adds no
/// key but the inserted one.
#[verifier::rlimit(100)]
proof fn lemma_sorted_insert_props(ps: Seq<(Seq<u8>, FrameModel)>, k: Seq<u8>, v: FrameModel)
    requires
        pairs_sorted_strict(ps),
    ensures
        pairs_sorted_strict(sorted_insert_pair(ps, k, v)),
        mpairs_map(sorted_insert_pair(ps, k, v)) == mpairs_map(ps).insert(k, v),
        forall|j: int|
            0 <= j < sorted_insert_pair(ps, k, v).len() ==> (#[trigger] sorted_insert_pair(
                ps,
                k,
                v,
            )[j].0) == k || pairs_has_key(ps, sorted_insert_pair(ps, k, v)[j].0),
    decreases ps.len(),
{
    let r = sorted_insert_pair(ps, k, v);
    if ps.len() == 0 {
        assert(r =~= seq![(k, v)]);
        assert(r.len() == 1 && r.last() == (k, v));
        assert(r.drop_last() =~= Seq::<(Seq<u8>, FrameModel)>::empty());
        assert(mpairs_map(r) == mpairs_map(r.drop_last()).insert(k, v));
        assert(mpairs_map(r) =~= mpairs_map(ps).insert(k, v));
    } else {
        let p0 = ps[0];
        let dps = ps.drop_first();
        assert forall|i: int| 0 <= i < dps.len() - 1 implies bytes_lt(
            #[trigger] dps[i].0,
            dps[i + 1].0,
        ) by {
            assert(dps[i] == ps[i + 1] && dps[i + 1] == ps[i + 2]);
        }
        assert forall|i: int| 0 <= i < dps.len() implies bytes_lt(p0.0, #[trigger] dps[i].0) by {
            assert(dps[i] == ps[i + 1]);
            lemma_sorted_chain(ps, 0, i + 1);
        }
        if bytes_lt(k, p0.0) {
            assert(r == seq![(k, v)] + ps);
            assert forall|i: int| 0 <= i < ps.len() implies (#[trigger] ps[i].0) != k by {
                if i == 0 {
                    lemma_bytes_lt_asym(k, p0.0);
                } else {
                    lemma_sorted_chain(ps, 0, i);
                    lemma_bytes_lt_trans(k, ps[0].0, ps[i].0);
                    lemma_bytes_lt_asym(k, ps[i].0);
                }
            }
            lemma_mpairs_prepend_fresh((k, v), ps);
            assert forall|i: int| 0 <= i < r.len() - 1 implies bytes_lt(
                #[trigger] r[i].0,
                r[i + 1].0,
            ) by {
                if i > 0 {
                    assert(r[i] == ps[i - 1] && r[i + 1] == ps[i]);
                }
            }
        } else if k == p0.0 {
            assert(r == seq![(k, v)] + dps);
            assert forall|i: int| 0 <= i < dps.len() implies (#[trigger] dps[i].0) != k by {
                lemma_bytes_lt_asym(p0.0, dps[i].0);
            }
            lemma_mpairs_prepend_fresh((k, v), dps);
            // the old reading also folds through p0, whose key k is then
            // overridden
            assert(ps =~= seq![p0] + dps);
            lemma_mpairs_prepend_fresh(p0, dps);
            assert(mpairs_map(dps).insert(p0.0, p0.1).insert(k, v) =~= mpairs_map(dps).insert(
                k,
                v,
            ));
            assert forall|i: int| 0 <= i < r.len() - 1 implies bytes_lt(
                #[trigger] r[i].0,
                r[i + 1].0,
            ) by {
                if i == 0 {
                    assert(r[1] == dps[0]);
                } else {
                    assert(r[i] == dps[i - 1] && r[i + 1] == dps[i]);
                }
            }
        } else {
            crate::resp::map::lemma_bytes_lt_trichotomy(k, p0.0);
            assert(bytes_lt(p0.0, k));
            lemma_sorted_insert_props(dps, k, v);
            let rec = sorted_insert_pair(dps, k, v);
            assert(r == seq![p0] + rec);
            assert forall|i: int| 0 <= i < rec.len() implies (#[trigger] rec[i].0) != p0.0 by {
                assert(rec[i].0 == k || pairs_has_key(dps, rec[i].0));
                if rec[i].0 == k {
                    lemma_bytes_lt_asym(p0.0, k);
                } else {
                    let w = choose|w: int| 0 <= w < dps.len() && (#[trigger] dps[w].0) == rec[i].0;
                    lemma_bytes_lt_asym(p0.0, dps[w].0);
                }
            }
            lemma_mpairs_prepend_fresh(p0, rec);
            assert(ps =~= seq![p0] + dps);
            assert forall|i: int| 0 <= i < dps.len() implies (#[trigger] dps[i].0) != p0.0 by {
                lemma_bytes_lt_asym(p0.0, dps[i].0);
            }
            lemma_mpairs_prepend_fresh(p0, dps);
            lemma_bytes_lt_asym(p0.0, k);
            assert(mpairs_map(dps).insert(k, v).insert(p0.0, p0.1) =~= mpairs_map(dps).insert(
                p0.0,
                p0.1,
            ).insert(k, v));
            assert forall|i: int| 0 <= i < r.len() - 1 implies bytes_lt(
                #[trigger] r[i].0,
                r[i + 1].0,
            ) by {
                if i == 0 {
                    assert(r[1] == rec[0]);
                    assert(rec[0].0 == k || pairs_has_key(dps, rec[0].0));
                    if rec[0].0 != k {
                        let w = choose|w: int|
                            0 <= w < dps.len() && (#[trigger] dps[w].0) == rec[0].0;
                    }
                } else {
                    assert(r[i] == rec[i - 1] && r[i + 1] == rec[i]);
                }
            }
            assert forall|j: int|
                0 <= j < r.len() implies (#[trigger] r[j].0) == k || pairs_has_key(ps, r[j].0) by {
                if j == 0 {
                    assert(ps[0].0 == r[0].0);
                } else {
                    assert(r[j] == rec[j - 1]);
                    if rec[j - 1].0 != k {
                        let w = choose|w: int|
                            0 <= w < dps.len() && (#[trigger] dps[w].0) == rec[j - 1].0;
                        assert(ps[w + 1].0 == r[j].0);
                    }
                }
            }
        }
    }
}

/// The exec-pair reading and the model-pair reading of the same list agree.
proof fn lemma_model_map_dv(s: Seq<(Vec<u8>, RespFrame)>)
    ensures
        mpairs_map(dv_pairs(s)) == pairs_model_map(s),
    decreases s.len(),
{
    lemma_dv_pairs_len(s);
    if s.len() > 0 {
        lemma_model_map_dv(s.drop_last());
        let m = dv_pairs(s);
        assert forall|i: int| 0 <= i < s.len() - 1 implies m.drop_last()[i] == dv_pairs(
            s.drop_last(),
        )[i] by {
            lemma_dv_pairs_index(s, i);
            lemma_dv_pairs_index(s.drop_last(), i);
        }
        lemma_dv_pairs_len(s.drop_last());
        assert(m.drop_last() =~= dv_pairs(s.drop_last()));
        lemma_dv_pairs_index(s, s.len() - 1 as int);
        assert(m.last() == (s.last().0@, dv(s.last().1)));
    }
}

/// Sorts field/frame pairs into strictly ascending field order, keeping
/// exactly the same field-to-frame reading.
#[verifier::loop_isolation(false)]
fn sort_pairs(input: Vec<(Vec<u8>, RespFrame)>) -> (r: Vec<(Vec<u8>, RespFrame)>)
    ensures
        pairs_sorted_strict(dv_pairs(r@)),
        mpairs_map(dv_pairs(r@)) == mpairs_map(dv_pairs(input@)),
        mkeys_distinct(dv_pairs(r@)),
    decreases input@.len(),
{
    let ghost all = dv_pairs(input@);
    proof {
        lemma_dv_pairs_len(input@);
    }
    let mut rest = input;
    let mut m = RespMap::new();
    let mut j: usize = 0;
    let n0 = rest.len();
    proof {
        assert(dv_pairs(m.0@) =~= Seq::<(Seq<u8>, FrameModel)>::empty());
        assert(all.take(0) =~= Seq::<(Seq<u8>, FrameModel)>::empty());
        assert(mpairs_map(dv_pairs(m.0@)) =~= mpairs_map(all.take(0)));
        assert(all.skip(0) =~= all);
    }
    while rest.len() > 0
        invariant
            n0 == input@.len(),
            j + rest@.len() == input@.len(),
            dv_pairs(rest@) == all.skip(j as int),
            pairs_sorted_strict(dv_pairs(m.0@)),
            mpairs_map(dv_pairs(m.0@)) == mpairs_map(all.take(j as int)),
        decreases rest@.len(),
    {
        let ghost pre = rest@;
        proof {
            assert(dv_pairs(pre) == all.skip(j as int));
        }
        let p = rest.remove(0);
        proof {
            lemma_dv_pairs_len(pre);
            lemma_dv_pairs_index(pre, 0);
            assert(pre.remove(0) =~= pre.drop_first());
            assert forall|i: int| 0 <= i < pre.len() - 1 implies dv_pairs(pre.drop_first())[i]
                == dv_pairs(pre)[i + 1] by {
                lemma_dv_pairs_index(pre.drop_first(), i);
                lemma_dv_pairs_index(pre, i + 1);
            }
            lemma_dv_pairs_len(pre.drop_first());
            assert(dv_pairs(pre.drop_first()) =~= dv_pairs(pre).drop_first());
            assert(dv_pairs(pre).drop_first() =~= all.skip(j as int + 1));
            assert(dv_pairs(pre)[0] == all[j as int]);
            assert((p.0@, dv(p.1)) == all[j as int]);
            lemma_sorted_insert_props(dv_pairs(m.0@), p.0@, dv(p.1));
            // the consumed prefix grows by the pair just taken
            assert(all.take(j as int + 1).drop_last() =~= all.take(j as int));
            assert(all.take(j + 1).last() == all[j as int]);
        }
        m.insert(p.0, p.1);
        j = j + 1;
    }
    proof {
        assert(all.take(input@.len() as int) =~= all);
        lemma_sorted_distinct(dv_pairs(m.0@));
    }
    m.0
}

/// Strictly sorted pair lists carry distinct keys.
proof fn lemma_sorted_distinct(ps: Seq<(Seq<u8>, FrameModel)>)
    requires
        pairs_sorted_strict(ps),
    ensures
        mkeys_distinct(ps),
{
    assert forall|i: int, j: int| 0 <= i < j < ps.len() implies (#[trigger] ps[i].0) != (
    #[trigger] ps[j].0) by {
        lemma_sorted_chain(ps, i, j);
        lemma_bytes_lt_asym(ps[i].0, ps[j].0);
    }
}

/// The flattening of one more pair appends its field frame and value frame.
proof fn lemma_flat_take_snoc(ps: Seq<(Seq<u8>, FrameModel)>, i: int)
    requires
        0 <= i < ps.len(),
    ensures
        flat_pairs(ps.take(i + 1)) == flat_pairs(ps.take(i)) + seq![
            FrameModel::BulkString(ps[i].0),
            ps[i].1,
        ],
    decreases i,
{
    if i == 0 {
        assert(ps.take(1).drop_first() =~= Seq::<(Seq<u8>, FrameModel)>::empty());
        assert(ps.take(1)[0] == ps[0]);
        assert(ps.take(0) =~= Seq::<(Seq<u8>, FrameModel)>::empty());
        assert(flat_pairs(ps.take(1)) =~= flat_pairs(ps.take(0)) + seq![
            FrameModel::BulkString(ps[0].0),
            ps[0].1,
        ]);
    } else {
        lemma_flat_take_snoc(ps.drop_first(), i - 1);
        assert(ps.take(i + 1).drop_first() =~= ps.drop_first().take(i));
        assert(ps.take(i).drop_first() =~= ps.drop_first().take(i - 1));
        assert(ps.take(i + 1)[0] == ps[0]);
        assert(ps.take(i)[0] == ps[0]);
        assert(ps.drop_first()[i - 1] == ps[i]);
        assert(flat_pairs(ps.take(i + 1)) =~= flat_pairs(ps.take(i)) + seq![
            FrameModel::BulkString(ps[i].0),
            ps[i].1,
        ]);
    }
}

/// Turns field/frame pairs into the alternating reply items.
#[verifier::loop_isolation(false)]
fn flatten_pairs(input: Vec<(Vec<u8>, RespFrame)>) -> (r: Vec<RespFrame>)
    ensures
        dv_seq(r@) == flat_pairs(dv_pairs(input@)),
{
    let ghost all = dv_pairs(input@);
    proof {
        lemma_dv_pairs_len(input@);
    }
    let mut rest = input;
    let mut out: Vec<RespFrame> = Vec::new();
    let mut j: usize = 0;
    let n0 = rest.len();
    proof {
        assert(dv_seq(out@) =~= Seq::<FrameModel>::empty());
        assert(all.take(0) =~= Seq::<(Seq<u8>, FrameModel)>::empty());
        assert(flat_pairs(all.take(0)) =~= Seq::<FrameModel>::empty());
        assert(all.skip(0) =~= all);
    }
    while rest.len() > 0
        invariant
            n0 == input@.len(),
            j + rest@.len() == input@.len(),
            dv_pairs(rest@) == all.skip(j as int),
            dv_seq(out@) == flat_pairs(all.take(j as int)),
        decreases rest@.len(),
    {
        let ghost pre = rest@;
        proof {
            assert(dv_pairs(pre) == all.skip(j as int));
        }
        let p = rest.remove(0);
        proof {
            lemma_dv_pairs_len(pre);
            lemma_dv_pairs_index(pre, 0);
            assert(pre.remove(0) =~= pre.drop_first());
            assert forall|i: int| 0 <= i < pre.len() - 1 implies dv_pairs(pre.drop_first())[i]
                == dv_pairs(pre)[i + 1] by {
                lemma_dv_pairs_index(pre.drop_first(), i);
                lemma_dv_pairs_index(pre, i + 1);
            }
            lemma_dv_pairs_len(pre.drop_first());
            assert(dv_pairs(pre.drop_first()) =~= dv_pairs(pre).drop_first());
            assert(dv_pairs(pre).drop_first() =~= all.skip(j as int + 1));
            assert(dv_pairs(pre)[0] == all[j as int]);
            assert((p.0@, dv(p.1)) == all[j as int]);
        }
        let kf = RespFrame::BulkString(BulkString(p.0));
        proof {
            lemma_dv_seq_take_snoc(out@.push(kf), out@.len() as int);
            assert(out@.push(kf).take(out@.len() as int) =~= out@);
            assert(out@.push(kf).take(out@.len() as int + 1) =~= out@.push(kf));
        }
        out.push(kf);
        proof {
            lemma_dv_seq_take_snoc(out@.push(p.1), out@.len() as int);
            assert(out@.push(p.1).take(out@.len() as int) =~= out@);
            assert(out@.push(p.1).take(out@.len() as int + 1) =~= out@.push(p.1));
            lemma_flat_take_snoc(all, j as int);
            assert(flat_pairs(all.take(j as int)) + seq![
                FrameModel::BulkString(all[j as int].0),
                all[j as int].1,
            ] =~= flat_pairs(all.take(j as int)).push(FrameModel::BulkString(all[j as int].0)).push(
                all[j as int].1,
            ));
        }
        out.push(p.1);
        j = j + 1;
    }
    proof {
        assert(all.take(input@.len() as int) =~= all);
    }
    out
}

impl CommandExecutor for HGetAll {
    /// Replies with the alternating field/value items of the key's inner map,
    /// in ascending field order when sorting was asked for, or an empty array
    /// on a miss; the store is only read.
    fn execute(self, backend: &mut Backend) -> (r: Result<RespFrame, CommandError>)
        ensures
            final(backend).kv() == old(backend).kv(),
            final(backend).hkv() == old(backend).hkv(),
            r matches Ok(f) && (if old(backend).hkv().contains_key(self.key@) {
                crate::cmd::hgetall_reply(dv(f), old(backend).hkv()[self.key@], self.sort)
            } else {
                dv(f) == FrameModel::Array(Seq::<FrameModel>::empty())
            }),
    {
        match backend.hgetall(self.key.as_slice()) {
            None => {
                let empty: Vec<RespFrame> = Vec::new();
                proof {
                    assert(dv_seq(empty@) =~= Seq::<FrameModel>::empty());
                }
                Ok(RespFrame::Array(RespArray(empty)))
            },
            Some(pairs) => {
                let ghost stored = old(backend).hkv()[self.key@];
                let ghost raw = dv_pairs(pairs@);
                proof {
                    lemma_model_map_dv(pairs@);
                    lemma_dv_pairs_len(pairs@);
                    assert forall|i: int, j: int| 0 <= i < j < raw.len() implies (
                    #[trigger] raw[i].0) != (#[trigger] raw[j].0) by {
                        lemma_dv_pairs_index(pairs@, i);
                        lemma_dv_pairs_index(pairs@, j);
                    }
                }
                let data = if self.sort {
                    sort_pairs(pairs)
                } else {
                    pairs
                };
                let ghost ps = dv_pairs(data@);
                proof {
                    assert(mpairs_map(ps) == stored);
                    assert(mkeys_distinct(ps));
                    assert(self.sort ==> pairs_sorted_strict(ps));
                }
                let items = flatten_pairs(data);
                proof {
                    assert(dv_seq(items@) == flat_pairs(ps));
                    assert(crate::cmd::hgetall_reply(
                        FrameModel::Array(flat_pairs(ps)),
                        stored,
                        self.sort,
                    ));
                }
                Ok(RespFrame::Array(RespArray(items)))
            },
        }
    }
}

} // verus!
