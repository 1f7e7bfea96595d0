//! The ordered collections in which chunks, layout states and glyph ids are kept.

use std::collections::{BTreeMap, BTreeSet, HashMap};
use std::sync::Arc;
use crate::manager::DanmakuTimeChunk;
use vstd::prelude::*;
use vstd::std_specs::iter::IteratorSpec;

verus! {

/// `Arc::clone`: one more handle to the same value.
#[verifier::external_body]
pub(crate) fn share<T>(value: &Arc<T>) -> (shared: Arc<T>)
    ensures
        shared == *value,
{
    Arc::clone(value)
}

/// Takes the entry at `index` out of the map, if there is one.
pub(crate) fn take_entry<V>(map: &mut BTreeMap<u32, V>, index: u32) -> (entry: Option<V>)
    ensures
        final(map)@ == old(map)@.remove(index),
        entry == if old(map)@.contains_key(index) {
            Some(old(map)@[index])
        } else {
            None
        },
{
    broadcast use vstd::laws_cmp::group_laws_cmp;
    broadcast use vstd::std_specs::btree::group_btree_axioms;

    map.remove(&index)
}

/// Puts `value` at `index`, in place of what was there.
pub(crate) fn keep_entry<V>(map: &mut BTreeMap<u32, V>, index: u32, value: V)
    ensures
        final(map)@ == old(map)@.insert(index, value),
{
    broadcast use vstd::laws_cmp::group_laws_cmp;
    broadcast use vstd::std_specs::btree::group_btree_axioms;

    map.insert(index, value);
}

/// The entry at `index`, if there is one.
pub(crate) fn entry_at<V>(map: &BTreeMap<u32, V>, index: u32) -> (entry: Option<&V>)
    ensures
        match entry {
            Some(value) => map@.contains_key(index) && *value == map@[index],
            None => !map@.contains_key(index),
        },
{
    broadcast use vstd::laws_cmp::group_laws_cmp;
    broadcast use vstd::std_specs::btree::group_btree_axioms;

    map.get(&index)
}

/// Adds a glyph id to the set.
pub(crate) fn add_glyph_id(ids: &mut BTreeSet<u64>, id: u64)
    ensures
        final(ids)@ == old(ids)@.insert(id),
{
    broadcast use vstd::laws_cmp::group_laws_cmp;
    broadcast use vstd::std_specs::btree::group_btree_axioms;

    ids.insert(id);
}

/// The entry of a glyph, if there is one.
pub(crate) fn glyph_at<V>(map: &HashMap<u64, V>, key: u64) -> (entry: Option<&V>)
    ensures
        match entry {
            Some(value) => map@.contains_key(key) && *value == map@[key],
            None => !map@.contains_key(key),
        },
{
    broadcast use vstd::std_specs::hash::group_hash_axioms;

    map.get(&key)
}

/// Puts `value` under `key`, in place of what was there.
pub(crate) fn keep_glyph<V>(map: &mut HashMap<u64, V>, key: u64, value: V)
    ensures
        final(map)@ == old(map)@.insert(key, value),
{
    broadcast use vstd::std_specs::hash::group_hash_axioms;

    map.insert(key, value);
}

/// A sequence is the sequence of all its elements.
proof fn lemma_take_all<T>(all: Seq<T>)
    ensures
        all.take(all.len() as int) == all,
{
    assert(all.take(all.len() as int) =~= all);
}

/// The glyph ids of a chunk in ascending order.
pub(crate) fn glyph_ids_of_chunk(chunk: &DanmakuTimeChunk) -> (ids: Vec<u64>)
    ensures
        ids@.to_set() == chunk@.glyph_ids,
        ids@.no_duplicates(),
{
    broadcast use vstd::laws_cmp::group_laws_cmp;
    broadcast use vstd::std_specs::btree::group_btree_axioms;
    broadcast use vstd::std_specs::btree::axiom_spec_btree_keys_iter;

    let set = chunk.glyph_ids();
    let mut ids: Vec<u64> = Vec::new();
    for id in iter: set.iter()
        invariant
            ids@ == iter.seq().take(iter.index()).unref(),
            iter.seq() == vstd::std_specs::btree::spec_btree_keys_iter(set).remaining(),
    {
        ids.push(*id);
    }
    proof {
        let all = vstd::std_specs::btree::spec_btree_keys_iter(set).remaining();
        lemma_take_all(all);
        assert(ids@ == all.unref());
        assert forall|i: int, j: int| 0 <= i < j < ids@.len() implies ids@[i] != ids@[j] by {
            assert(all[i] != all[j]);
        }
    }
    ids
}

} // verus!
