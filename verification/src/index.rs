//! The in-memory index: for each live key, where its latest record lies in
//! the log.
//!
//! The index is a `crossbeam_skiplist::SkipMap` from key to the pair of the
//! record's offset and length. Nothing in this module is proved: each
//! function states what the map's own method does to the entries it holds,
//! for a map that no other thread is changing at the same time (which the
//! exclusive borrow of the changing methods guarantees).

use crossbeam_skiplist::SkipMap;
use vstd::prelude::*;

verus! {

#[verifier::external_type_specification]
#[verifier::external_body]
#[verifier::reject_recursive_types(K)]
#[verifier::reject_recursive_types(V)]
pub struct ExSkipMap<K, V>(SkipMap<K, V>);

/// The entries that an index holds: for each key, the offset and the length
/// of a record.
pub uninterp spec fn index_entries(index: SkipMap<String, (u64, u64)>) -> Map<Seq<char>, (u64, u64)>;

/// The entries of an index that holds none.
pub open spec fn empty_index() -> Map<Seq<char>, (u64, u64)> {
    Map::empty()
}

/// `SkipMap::new`: a new map holds no entry.
#[verifier::external_body]
pub(crate) fn index_new() -> (index: SkipMap<String, (u64, u64)>)
    ensures
        index_entries(index) == empty_index(),
{
    SkipMap::new()
}

/// `SkipMap::insert`: the key maps to the new span afterwards, in place of
/// any span it had; the other entries stay.
#[verifier::external_body]
pub(crate) fn index_insert(index: &mut SkipMap<String, (u64, u64)>, key: String, span: (u64, u64))
    ensures
        index_entries(*final(index)) == index_entries(*old(index)).insert(key@, span),
{
    index.insert(key, span);
}

/// `SkipMap::get`, then `Entry::value`: the span that the key maps to, if it
/// has an entry.
#[verifier::external_body]
pub(crate) fn index_get(index: &SkipMap<String, (u64, u64)>, key: &String) -> (out: Option<(u64, u64)>)
    ensures
        out == if index_entries(*index).contains_key(key@) {
            Some(index_entries(*index)[key@])
        } else {
            None
        },
{
    index.get(key).map(|entry| *entry.value())
}

/// `SkipMap::contains_key`: whether the key has an entry.
#[verifier::external_body]
pub(crate) fn index_contains_key(index: &SkipMap<String, (u64, u64)>, key: &String) -> (out: bool)
    ensures
        out == index_entries(*index).contains_key(key@),
{
    index.contains_key(key)
}

/// `SkipMap::remove`: the key has no entry afterwards; the other entries
/// stay.
#[verifier::external_body]
pub(crate) fn index_remove(index: &mut SkipMap<String, (u64, u64)>, key: &String)
    ensures
        index_entries(*final(index)) == index_entries(*old(index)).remove(key@),
{
    index.remove(key);
}

/// `SkipMap::clear`: no entry is left.
#[verifier::external_body]
pub(crate) fn index_clear(index: &mut SkipMap<String, (u64, u64)>)
    ensures
        index_entries(*final(index)) == empty_index(),
{
    index.clear();
}

} // verus!
