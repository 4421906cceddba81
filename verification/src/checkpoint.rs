//! Map checkpoints and the ordered index that holds them.

use vstd::prelude::*;
use indexmap::IndexMap;
use crate::codec::{enc_hash, enc_u64};
use crate::hash::{bytes_clone, digest_of, AnyHash, HashAlg, HashValue};
use crate::table::Plain;
use crate::wire::{put_hash, put_u64};

verus! {

/// The pair that the transparency map holds for a published record.
#[derive(Clone, Debug, PartialEq, Eq)]
pub struct LogLeaf {
    pub log_id: AnyHash,
    pub record_id: AnyHash,
}

/// The mathematical value of a [`LogLeaf`].
pub ghost struct LeafValue {
    pub log_id: HashValue,
    pub record_id: HashValue,
}

impl View for LogLeaf {
    type V = LeafValue;

    open spec fn view(&self) -> LeafValue {
        LeafValue { log_id: self.log_id@, record_id: self.record_id@ }
    }
}

impl Plain for LogLeaf {
    fn copy(&self) -> (r: LogLeaf) {
        LogLeaf { log_id: self.log_id.copy(), record_id: self.record_id.copy() }
    }
}

/// The roots of the map of logs and of the log of all records at one point in
/// time.
#[derive(Clone, Debug, PartialEq, Eq)]
pub struct MapCheckpoint {
    pub log_root: AnyHash,
    pub map_root: AnyHash,
    pub log_length: u64,
}

/// A map checkpoint with the operator's signature over it.
#[derive(Clone, Debug, PartialEq, Eq)]
pub struct SignedCheckpoint {
    pub checkpoint: MapCheckpoint,
    pub key_id: AnyHash,
    pub signature: Vec<u8>,
}

/// The mathematical value of a [`SignedCheckpoint`].
pub ghost struct CheckpointValue {
    pub log_root: HashValue,
    pub map_root: HashValue,
    pub log_length: u64,
    pub key_id: HashValue,
    pub signature: Seq<u8>,
}

impl View for SignedCheckpoint {
    type V = CheckpointValue;

    open spec fn view(&self) -> CheckpointValue {
        CheckpointValue {
            log_root: self.checkpoint.log_root@,
            map_root: self.checkpoint.map_root@,
            log_length: self.checkpoint.log_length,
            key_id: self.key_id@,
            signature: self.signature@,
        }
    }
}

impl Plain for SignedCheckpoint {
    fn copy(&self) -> (r: SignedCheckpoint) {
        SignedCheckpoint {
            checkpoint: MapCheckpoint {
                log_root: self.checkpoint.log_root.copy(),
                map_root: self.checkpoint.map_root.copy(),
                log_length: self.checkpoint.log_length,
            },
            key_id: self.key_id.copy(),
            signature: bytes_clone(&self.signature),
        }
    }
}

/// The identifier of a checkpoint: the digest of its two roots and its length,
/// each in its encoding.
pub open spec fn checkpoint_id_spec(alg: HashAlg, c: CheckpointValue) -> HashValue {
    HashValue {
        alg,
        bytes: digest_of(alg, enc_hash(c.log_root) + (enc_hash(c.map_root) + enc_u64(c.log_length))),
    }
}

impl SignedCheckpoint {
    /// The identifier of the checkpoint under the given algorithm.
    pub fn id(&self, alg: HashAlg) -> (id: AnyHash)
        ensures
            id@ == checkpoint_id_spec(alg, self@),
    {
        let mut material: Vec<u8> = Vec::new();
        put_hash(&mut material, &self.checkpoint.log_root);
        put_hash(&mut material, &self.checkpoint.map_root);
        put_u64(&mut material, self.checkpoint.log_length);
        assert(material@ =~= enc_hash(self@.log_root) + (enc_hash(self@.map_root) + enc_u64(
            self@.log_length,
        )));
        AnyHash::digest(alg, material.as_slice())
    }
}

/// The value of an optional checkpoint.
pub open spec fn optional_checkpoint_value(c: Option<SignedCheckpoint>) -> Option<CheckpointValue> {
    match c {
        Some(c) => Some(c@),
        None => None,
    }
}

#[verifier::external_type_specification]
#[verifier::external_body]
#[verifier::reject_recursive_types(K)]
#[verifier::reject_recursive_types(V)]
#[verifier::reject_recursive_types(S)]
pub struct ExIndexMap<K, V, S>(IndexMap<K, V, S>);

/// The keys and values an `indexmap::IndexMap` holds, in its order.
pub uninterp spec fn index_entries(m: IndexMap<Vec<u8>, SignedCheckpoint>) -> Seq<
    (Seq<u8>, CheckpointValue),
>;

/// Whether some entry has the key.
pub open spec fn has_entry(entries: Seq<(Seq<u8>, CheckpointValue)>, key: Seq<u8>) -> bool {
    exists|i: int| 0 <= i < entries.len() && (#[trigger] entries[i]).0 == key
}

/// Whether no two entries have the same key.
pub open spec fn distinct_entries(entries: Seq<(Seq<u8>, CheckpointValue)>) -> bool {
    forall|i: int, j: int|
        0 <= i < j < entries.len() ==> (#[trigger] entries[i]).0 != (#[trigger] entries[j]).0
}

/// The position of the entry with the key.
pub open spec fn entry_position(entries: Seq<(Seq<u8>, CheckpointValue)>, key: Seq<u8>) -> Option<
    int,
> {
    if has_entry(entries, key) {
        Some(choose|i: int| 0 <= i < entries.len() && (#[trigger] entries[i]).0 == key)
    } else {
        None
    }
}

/// Among distinct keys, an entry with the key is at the position of the key.
pub proof fn lemma_entry_position(entries: Seq<(Seq<u8>, CheckpointValue)>, key: Seq<u8>, p: int)
    requires
        distinct_entries(entries),
        0 <= p < entries.len(),
        entries[p].0 == key,
    ensures
        entry_position(entries, key) == Some(p),
{
    let q = choose|i: int| 0 <= i < entries.len() && (#[trigger] entries[i]).0 == key;
    if q < p {
        assert(entries[q].0 != entries[p].0);
    } else if p < q {
        assert(entries[p].0 != entries[q].0);
    }
}

/// Appending an entry under a key that no entry has keeps the keys distinct.
pub proof fn lemma_distinct_push(
    entries: Seq<(Seq<u8>, CheckpointValue)>,
    key: Seq<u8>,
    value: CheckpointValue,
)
    requires
        distinct_entries(entries),
        !has_entry(entries, key),
    ensures
        distinct_entries(entries.push((key, value))),
{
    let t = entries.push((key, value));
    assert forall|i: int, j: int| 0 <= i < j < t.len() implies (#[trigger] t[i]).0 != (
    #[trigger] t[j]).0 by {
        if j == entries.len() {
            assert(entries[i].0 != key);
        } else {
            assert(entries[i].0 != entries[j].0);
        }
    }
}

/// Calls `IndexMap::new`: a map that holds nothing.
#[verifier::external_body]
fn index_new() -> (m: IndexMap<Vec<u8>, SignedCheckpoint>)
    ensures
        index_entries(m) == Seq::<(Seq<u8>, CheckpointValue)>::empty(),
{
    IndexMap::new()
}

/// Calls `IndexMap::len`: the number of entries.
#[verifier::external_body]
fn index_len(m: &IndexMap<Vec<u8>, SignedCheckpoint>) -> (n: usize)
    ensures
        n == index_entries(*m).len(),
{
    m.len()
}

/// Calls `IndexMap::get_index_of`: the position of the entry with the key, or
/// `None` when no entry has it.
#[verifier::external_body]
fn index_position(m: &IndexMap<Vec<u8>, SignedCheckpoint>, key: &Vec<u8>) -> (r: Option<usize>)
    ensures
        r matches Some(i) ==> i < index_entries(*m).len() && index_entries(*m)[i as int].0 == key@,
        r is None ==> !has_entry(index_entries(*m), key@),
{
    m.get_index_of(key)
}

/// Calls `IndexMap::get_index`: the value at the position, or `None` when the
/// position is past the end.
#[verifier::external_body]
fn index_value(m: &IndexMap<Vec<u8>, SignedCheckpoint>, i: usize) -> (r: Option<&SignedCheckpoint>)
    ensures
        r is Some <==> i < index_entries(*m).len(),
        r matches Some(c) ==> c@ == index_entries(*m)[i as int].1,
{
    m.get_index(i).map(|(_, value)| value)
}

/// Calls `IndexMap::insert_full`. A key that the map holds keeps its place and
/// gets the new value; a key that it does not hold is appended with the value.
/// The position of the key is returned.
#[verifier::external_body]
fn index_insert(m: &mut IndexMap<Vec<u8>, SignedCheckpoint>, key: Vec<u8>, value: SignedCheckpoint) -> (i:
    usize)
    ensures
        has_entry(index_entries(*old(m)), key@) ==> i < index_entries(*old(m)).len()
            && index_entries(*old(m))[i as int].0 == key@ && index_entries(*final(m))
            == index_entries(*old(m)).update(i as int, (key@, value@)),
        !has_entry(index_entries(*old(m)), key@) ==> i == index_entries(*old(m)).len()
            && index_entries(*final(m)) == index_entries(*old(m)).push((key@, value@)),
{
    m.insert_full(key, value).0
}

/// The key under which a checkpoint's identifier is filed.
pub fn index_key(id: &AnyHash) -> (key: Vec<u8>)
    ensures
        key@ == enc_hash(id@),
{
    let mut key: Vec<u8> = Vec::new();
    put_hash(&mut key, id);
    assert(key@ =~= enc_hash(id@));
    key
}

/// The checkpoints of a registry in the order they were stored, each filed
/// under the encoding of its identifier.
pub struct Checkpoints {
    index: IndexMap<Vec<u8>, SignedCheckpoint>,
}

impl View for Checkpoints {
    type V = Seq<(Seq<u8>, CheckpointValue)>;

    closed spec fn view(&self) -> Seq<(Seq<u8>, CheckpointValue)> {
        index_entries(self.index)
    }
}

impl Checkpoints {
    /// No checkpoint.
    pub fn new() -> (c: Checkpoints)
        ensures
            c@ == Seq::<(Seq<u8>, CheckpointValue)>::empty(),
    {
        Checkpoints { index: index_new() }
    }

    /// The number of checkpoints.
    pub fn len(&self) -> (n: usize)
        ensures
            n == self@.len(),
    {
        index_len(&self.index)
    }

    /// The position of the checkpoint with the identifier.
    pub fn position(&self, id: &AnyHash) -> (r: Option<usize>)
        ensures
            r matches Some(i) ==> i < self@.len() && self@[i as int].0 == enc_hash(id@),
            r is None ==> !has_entry(self@, enc_hash(id@)),
    {
        let key = index_key(id);
        index_position(&self.index, &key)
    }

    /// The checkpoint at the position.
    pub fn get(&self, i: usize) -> (r: Option<&SignedCheckpoint>)
        ensures
            r is Some <==> i < self@.len(),
            r matches Some(c) ==> c@ == self@[i as int].1,
    {
        index_value(&self.index, i)
    }

    /// Files the checkpoint under the identifier, last in order, and returns
    /// its position; `None`, with nothing changed, when a checkpoint is filed
    /// under the identifier already.
    pub fn add(&mut self, id: &AnyHash, checkpoint: SignedCheckpoint) -> (r: Option<usize>)
        ensures
            r is None <==> has_entry(old(self)@, enc_hash(id@)),
            r is None ==> final(self)@ == old(self)@,
            r matches Some(i) ==> i == old(self)@.len() && final(self)@ == old(self)@.push(
                (enc_hash(id@), checkpoint@),
            ),
    {
        let key = index_key(id);
        match index_position(&self.index, &key) {
            Some(_) => None,
            None => Some(index_insert(&mut self.index, key, checkpoint)),
        }
    }
}

} // verus!
