//! The hash map that holds the chunks, and what is taken on trust about it.
use crate::cell::BGMCell;
use ahash::AHashMap;
use vstd::prelude::*;

verus! {

#[verifier::external_type_specification]
#[verifier::external_body]
#[verifier::reject_recursive_types(K)]
#[verifier::reject_recursive_types(V)]
#[verifier::reject_recursive_types(S)]
pub struct ExAHashMap<K, V, S>(AHashMap<K, V, S>);

#[verifier::external_type_specification]
#[verifier::external_body]
pub struct ExAHashRandomState(ahash::RandomState);

/// The map from chunk key to chunk.
pub type ChunkMap = AHashMap<u64, BGMCell>;

/// The chunks that a map holds, by key.
pub uninterp spec fn chunk_map(m: ChunkMap) -> Map<u64, BGMCell>;

/// `AHashMap::new`: a map that holds nothing.
#[verifier::external_body]
pub(crate) fn chunk_map_new() -> (m: ChunkMap)
    ensures
        chunk_map(m).dom() == Set::<u64>::empty(),
{
    AHashMap::new()
}

/// `AHashMap::get`: the chunk stored under `key`, if there is one.
#[verifier::external_body]
pub(crate) fn chunk_map_get<'a>(m: &'a ChunkMap, key: u64) -> (r: Option<
    &'a BGMCell,
>)
    ensures
        r is Some == chunk_map(*m).dom().contains(key),
        r is Some ==> *r.unwrap() == chunk_map(*m)[key],
{
    m.get(&key)
}

/// `AHashMap::get_mut`: the chunk stored under `key`, if there is one, for
/// change in place. No other entry changes, and none is added or removed.
#[verifier::external_body]
pub(crate) fn chunk_map_get_mut<'a>(m: &'a mut ChunkMap, key: u64) -> (r: Option<
    &'a mut BGMCell,
>)
    ensures
        r is Some == chunk_map(*old(m)).dom().contains(key),
        r is Some ==> *r.unwrap() == chunk_map(*old(m))[key] && chunk_map(*final(m)) == chunk_map(
            *old(m),
        ).insert(key, *final(r.unwrap())),
        r is None ==> chunk_map(*final(m)) == chunk_map(*old(m)),
{
    m.get_mut(&key)
}

/// `AHashMap::insert`: afterwards `key` maps to `cell`, and every other key
/// to what it mapped to before.
#[verifier::external_body]
pub(crate) fn chunk_map_insert(m: &mut ChunkMap, key: u64, cell: BGMCell)
    ensures
        chunk_map(*final(m)) == chunk_map(*old(m)).insert(key, cell),
{
    m.insert(key, cell);
}

/// The keys of the map, each once, in the order in which the map's iterator
/// yields them. That order is not fixed.
#[verifier::external_body]
pub(crate) fn chunk_map_keys(m: &ChunkMap) -> (keys: Vec<u64>)
    ensures
        keys@.no_duplicates(),
        keys@.to_set() == chunk_map(*m).dom(),
{
    m.keys().copied().collect()
}

} // verus!
