use vstd::prelude::*;

use dashmap::DashMap;

use crate::resp::frame::{dv, FrameModel, RespFrame};

verus! {

#[verifier::external_type_specification]
#[verifier::external_body]
#[verifier::reject_recursive_types(K)]
#[verifier::reject_recursive_types(V)]
#[verifier::reject_recursive_types(S)]
pub struct ExDashMap<K, V, S = std::collections::hash_map::RandomState>(DashMap<K, V, S>);

/// What the flat keyspace holds: each stored key's frame, as its model.
pub uninterp spec fn kv_model(m: DashMap<Vec<u8>, RespFrame>) -> Map<Seq<u8>, FrameModel>;

/// What the hash-of-hash keyspace holds: for each outer key, the inner
/// field-to-frame mapping, as models.
pub uninterp spec fn hkv_model(m: DashMap<Vec<u8>, DashMap<Vec<u8>, RespFrame>>) -> Map<
    Seq<u8>,
    Map<Seq<u8>, FrameModel>,
>;

/// The empty flat keyspace.
pub open spec fn empty_kv() -> Map<Seq<u8>, FrameModel> {
    Map::empty()
}

/// The empty hash keyspace.
pub open spec fn empty_hkv() -> Map<Seq<u8>, Map<Seq<u8>, FrameModel>> {
    Map::empty()
}

/// Relies on dashmap::DashMap::new: a fresh map holds nothing.
#[verifier::external_body]
fn new_kv() -> (r: DashMap<Vec<u8>, RespFrame>)
    ensures
        kv_model(r) == empty_kv(),
{
    DashMap::new()
}

/// Relies on dashmap::DashMap::new: a fresh map holds nothing.
#[verifier::external_body]
fn new_hkv() -> (r: DashMap<Vec<u8>, DashMap<Vec<u8>, RespFrame>>)
    ensures
        hkv_model(r) == empty_hkv(),
{
    DashMap::new()
}

/// Relies on dashmap::DashMap::insert: afterwards the value stands under the
/// key; nothing else moves.
#[verifier::external_body]
fn kv_insert(m: &mut DashMap<Vec<u8>, RespFrame>, key: Vec<u8>, value: RespFrame)
    ensures
        kv_model(*final(m)) == kv_model(*old(m)).insert(key@, dv(value)),
{
    m.insert(key, value);
}

/// Relies on dashmap::DashMap::get: the frame under the key, copied out, or
/// nothing when the key is absent.
#[verifier::external_body]
fn kv_get(m: &DashMap<Vec<u8>, RespFrame>, key: &[u8]) -> (r: Option<RespFrame>)
    ensures
        match r {
            Some(f) => kv_model(*m).contains_key(key@) && dv(f) == kv_model(*m)[key@],
            None => !kv_model(*m).contains_key(key@),
        },
{
    match m.get(key) {
        Some(v) => Some(v.value().clone()),
        None => None,
    }
}

/// Relies on dashmap::DashMap::entry, Entry::or_default and insert: one
/// atomic step that creates the inner map when the outer key is new and
/// stores the value under the field.
#[verifier::external_body]
fn hkv_insert(
    m: &mut DashMap<Vec<u8>, DashMap<Vec<u8>, RespFrame>>,
    key: Vec<u8>,
    field: Vec<u8>,
    value: RespFrame,
)
    ensures
        ({
            let prev = if hkv_model(*old(m)).contains_key(key@) {
                hkv_model(*old(m))[key@]
            } else {
                Map::<Seq<u8>, FrameModel>::empty()
            };
            hkv_model(*final(m)) == hkv_model(*old(m)).insert(key@, prev.insert(field@, dv(value)))
        }),
{
    m.entry(key).or_default().insert(field, value);
}

/// Relies on dashmap::DashMap::get twice: the frame under the outer key and
/// field, copied out, or nothing when either is absent.
#[verifier::external_body]
fn hkv_get(m: &DashMap<Vec<u8>, DashMap<Vec<u8>, RespFrame>>, key: &[u8], field: &[u8]) -> (r:
    Option<RespFrame>)
    ensures
        match r {
            Some(f) => hkv_model(*m).contains_key(key@) && hkv_model(*m)[key@].contains_key(field@)
                && dv(f) == hkv_model(*m)[key@][field@],
            None => !hkv_model(*m).contains_key(key@) || !hkv_model(*m)[key@].contains_key(field@),
        },
{
    match m.get(key) {
        None => None,
        Some(inner) => match inner.get(field) {
            None => None,
            Some(v) => Some(v.value().clone()),
        },
    }
}

/// The field/frame pairs read as a mapping from field to frame model: later
/// pairs win, though callers always hand in distinct keys.
pub open spec fn pairs_model_map(s: Seq<(Vec<u8>, RespFrame)>) -> Map<Seq<u8>, FrameModel>
    decreases s.len(),
{
    if s.len() == 0 {
        Map::empty()
    } else {
        pairs_model_map(s.drop_last()).insert(s.last().0@, dv(s.last().1))
    }
}

pub open spec fn pair_keys_distinct(s: Seq<(Vec<u8>, RespFrame)>) -> bool {
    forall|i: int, j: int| 0 <= i < j < s.len() ==> (#[trigger] s[i].0@) != (#[trigger] s[j].0@)
}

/// Relies on dashmap::DashMap::get and iteration over the inner map: a
/// point-in-time copy of every field/frame pair under the key. The iteration
/// order is whatever the map yields; only the set of pairs is promised.
#[verifier::external_body]
fn hkv_get_all(m: &DashMap<Vec<u8>, DashMap<Vec<u8>, RespFrame>>, key: &[u8]) -> (r: Option<
    Vec<(Vec<u8>, RespFrame)>,
>)
    ensures
        match r {
            Some(v) => hkv_model(*m).contains_key(key@) && pair_keys_distinct(v@)
                && pairs_model_map(v@) == hkv_model(*m)[key@],
            None => !hkv_model(*m).contains_key(key@),
        },
{
    match m.get(key) {
        None => None,
        Some(inner) => {
            let mut out: Vec<(Vec<u8>, RespFrame)> = Vec::new();
            for item in inner.iter() {
                out.push((item.key().clone(), item.value().clone()));
            }
            Some(out)
        },
    }
}

/// The two concurrent keyspaces: a flat byte-key to frame map, and a map of
/// byte keys to inner field-to-frame maps.
#[derive(Debug)]
pub struct BackendInner {
    pub map: DashMap<Vec<u8>, RespFrame>,
    pub hmap: DashMap<Vec<u8>, DashMap<Vec<u8>, RespFrame>>,
}

/// The process-wide store every connection executes against.
#[derive(Debug)]
pub struct Backend(pub BackendInner);

impl Backend {
    /// The flat keyspace, as a mathematical map of models.
    pub open spec fn kv(&self) -> Map<Seq<u8>, FrameModel> {
        kv_model(self.0.map)
    }

    /// The hash keyspace, as a mathematical map of maps of models.
    pub open spec fn hkv(&self) -> Map<Seq<u8>, Map<Seq<u8>, FrameModel>> {
        hkv_model(self.0.hmap)
    }

    pub fn new() -> (r: Self)
        ensures
            r.kv() == Map::<Seq<u8>, FrameModel>::empty(),
            r.hkv() == Map::<Seq<u8>, Map<Seq<u8>, FrameModel>>::empty(),
    {
        Backend(BackendInner { map: new_kv(), hmap: new_hkv() })
    }

    /// The frame stored under `key`, or nothing.
    pub fn get(&self, key: &[u8]) -> (r: Option<RespFrame>)
        ensures
            match r {
                Some(f) => self.kv().contains_key(key@) && dv(f) == self.kv()[key@],
                None => !self.kv().contains_key(key@),
            },
    {
        kv_get(&self.0.map, key)
    }

    /// Stores `value` under `key`; the hash keyspace is untouched.
    pub fn set(&mut self, key: Vec<u8>, value: RespFrame)
        ensures
            final(self).kv() == old(self).kv().insert(key@, dv(value)),
            final(self).hkv() == old(self).hkv(),
    {
        kv_insert(&mut self.0.map, key, value);
    }

    /// The frame stored under `key` and `field`, or nothing.
    pub fn hget(&self, key: &[u8], field: &[u8]) -> (r: Option<RespFrame>)
        ensures
            match r {
                Some(f) => self.hkv().contains_key(key@) && self.hkv()[key@].contains_key(field@)
                    && dv(f) == self.hkv()[key@][field@],
                None => !self.hkv().contains_key(key@) || !self.hkv()[key@].contains_key(field@),
            },
    {
        hkv_get(&self.0.hmap, key, field)
    }

    /// Stores `value` under `key` and `field`, creating the inner map when
    /// the key is new; the flat keyspace is untouched.
    pub fn hset(&mut self, key: Vec<u8>, field: Vec<u8>, value: RespFrame)
        ensures
            ({
                let prev = if old(self).hkv().contains_key(key@) {
                    old(self).hkv()[key@]
                } else {
                    Map::<Seq<u8>, FrameModel>::empty()
                };
                final(self).hkv() == old(self).hkv().insert(key@, prev.insert(field@, dv(value)))
            }),
            final(self).kv() == old(self).kv(),
    {
        hkv_insert(&mut self.0.hmap, key, field, value);
    }

    /// A point-in-time copy of all field/frame pairs under `key`, in no
    /// promised order, or nothing when the key is absent.
    pub fn hgetall(&self, key: &[u8]) -> (r: Option<Vec<(Vec<u8>, RespFrame)>>)
        ensures
            match r {
                Some(v) => self.hkv().contains_key(key@) && pair_keys_distinct(v@)
                    && pairs_model_map(v@) == self.hkv()[key@],
                None => !self.hkv().contains_key(key@),
            },
    {
        hkv_get_all(&self.0.hmap, key)
    }
}

impl Default for Backend {
    /// A fresh, empty store.
    fn default() -> (r: Self)
        ensures
            r.kv() == Map::<Seq<u8>, FrameModel>::empty(),
            r.hkv() == Map::<Seq<u8>, Map<Seq<u8>, FrameModel>>::empty(),
    {
        Backend::new()
    }
}

} // verus!
