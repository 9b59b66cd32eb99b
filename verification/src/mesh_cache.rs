//! The hash map that holds the meshes last built, and what is taken on trust
//! about it.
use crate::model::Model;
use ahash::AHashMap;
use std::rc::Rc;
use vstd::prelude::*;

verus! {

/// The map from chunk key to the mesh last built for the chunk.
pub type MeshMap = AHashMap<u64, Rc<Model>>;

/// The meshes that a map holds, by key.
pub uninterp spec fn mesh_map(m: MeshMap) -> Map<u64, Rc<Model>>;

/// `AHashMap::new`: a map that holds nothing.
#[verifier::external_body]
pub(crate) fn mesh_map_new() -> (m: MeshMap)
    ensures
        mesh_map(m).dom() == Set::<u64>::empty(),
{
    AHashMap::new()
}

/// `AHashMap::get`: the mesh stored under `key`, if there is one.
#[verifier::external_body]
pub(crate) fn mesh_map_get<'a>(m: &'a MeshMap, key: u64) -> (r: Option<&'a Rc<Model>>)
    ensures
        r is Some == mesh_map(*m).dom().contains(key),
        r is Some ==> *r.unwrap() == mesh_map(*m)[key],
{
    m.get(&key)
}

/// `AHashMap::insert`: afterwards `key` maps to `model`, and every other key
/// to what it mapped to before.
#[verifier::external_body]
pub(crate) fn mesh_map_insert(m: &mut MeshMap, key: u64, model: Rc<Model>)
    ensures
        mesh_map(*final(m)) == mesh_map(*old(m)).insert(key, model),
{
    m.insert(key, model);
}

/// `AHashMap::remove`: afterwards `key` maps to nothing, and every other key
/// to what it mapped to before.
#[verifier::external_body]
pub(crate) fn mesh_map_remove(m: &mut MeshMap, key: u64)
    ensures
        mesh_map(*final(m)) == mesh_map(*old(m)).remove(key),
{
    m.remove(&key);
}

/// `HashMap::clear`, reached through the map's `DerefMut`: afterwards the
/// map holds nothing.
#[verifier::external_body]
pub(crate) fn mesh_map_clear(m: &mut MeshMap)
    ensures
        mesh_map(*final(m)).dom() == Set::<u64>::empty(),
{
    m.clear();
}

} // verus!
