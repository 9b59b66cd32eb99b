//! Which chunks need a new mesh, and the meshes last built.
use crate::cell::CELL_SIZE_BITS;
use crate::chunk_key::{cell_idx, chunk_idx, chunk_key};
use crate::key_set::{
    key_set, key_set_clear, key_set_contains, key_set_insert, key_set_new, key_set_remove, KeySet,
};
use crate::marks::{
    axis_step, chunk_coord_key, forget_all, lemma_chunk_coord_key, mark_all,
    marks_of, neighbor_key,
};
use crate::mesh_cache::{
    mesh_map, mesh_map_clear, mesh_map_get, mesh_map_insert, mesh_map_new, mesh_map_remove, MeshMap,
};
use crate::model::{unique_push, Model};
use crate::voxelidx::VoxelIdx;
use std::rc::Rc;
use vstd::prelude::*;

verus! {

/// `s` without `key`, where `s` holds no value twice.
pub open spec fn without(s: Seq<u64>, key: u64) -> Seq<u64> {
    if s.contains(key) {
        s.remove(s.index_of(key))
    } else {
        s
    }
}

/// `s` without every key of `keys`.
pub open spec fn without_all(s: Seq<u64>, keys: Seq<u64>) -> Seq<u64>
    decreases keys.len(),
{
    if keys.len() == 0 {
        s
    } else {
        without(without_all(s, keys.drop_last()), keys.last())
    }
}

/// Removing a key from a sequence without duplicates removes that key and
/// nothing else.
pub proof fn lemma_without(s: Seq<u64>, key: u64)
    requires
        s.no_duplicates(),
    ensures
        without(s, key).no_duplicates(),
        !without(s, key).contains(key),
        forall|k: u64| k != key ==> without(s, key).contains(k) == s.contains(k),
{
    if s.contains(key) {
        let i = s.index_of(key);
        let t = s.remove(i);
        assert forall|a: int, b: int| 0 <= a < t.len() && 0 <= b < t.len() && a != b implies t[a]
            != t[b] by {
            let a2 = if a < i {
                a
            } else {
                a + 1
            };
            let b2 = if b < i {
                b
            } else {
                b + 1
            };
            assert(t[a] == s[a2] && t[b] == s[b2]);
        }
        assert forall|k: u64| k != key implies t.contains(k) == s.contains(k) by {
            if s.contains(k) {
                let j = s.index_of(k);
                if j < i {
                    assert(t[j] == k);
                } else {
                    assert(t[j - 1] == k);
                }
            }
            if t.contains(k) {
                let j = t.index_of(k);
                if j < i {
                    assert(s[j] == k);
                } else {
                    assert(s[j + 1] == k);
                }
            }
        }
        if t.contains(key) {
            let j = t.index_of(key);
            if j < i {
                assert(s[j] == key);
            } else {
                assert(s[j + 1] == key);
            }
        }
    }
}

/// `Rc::clone`: another handle to the same model.
#[verifier::external_body]
pub(crate) fn share(model: &Rc<Model>) -> (r: Rc<Model>)
    ensures
        r == *model,
{
    model.clone()
}

/// The keys of the chunks whose mesh is stale, in the order in which they
/// became stale, and the mesh last built for every other chunk that has one.
pub struct DirtyTracker {
    order: Vec<u64>,
    members: KeySet,
    cache: MeshMap,
}

impl DirtyTracker {
    /// The stale keys, oldest first.
    pub closed spec fn dirty(&self) -> Seq<u64> {
        self.order@
    }

    /// The cached meshes by chunk key.
    pub closed spec fn cache(&self) -> Map<u64, Rc<Model>> {
        mesh_map(self.cache)
    }

    /// The set that answers whether a key is stale agrees with the list.
    pub closed spec fn members_agree(&self) -> bool {
        key_set(self.members) == self.order@.to_set()
    }

    /// No key is stale twice, and no stale key has a cached mesh.
    pub open spec fn wf(&self) -> bool {
        &&& self.members_agree()
        &&& self.dirty().no_duplicates()
        &&& forall|k: u64| self.dirty().contains(k) ==> !self.cache().dom().contains(k)
    }

    /// A tracker with nothing stale and nothing cached.
    pub fn new() -> (r: DirtyTracker)
        ensures
            r.wf(),
            r.dirty().len() == 0,
            r.cache().dom() == Set::<u64>::empty(),
    {
        let r = DirtyTracker { order: Vec::new(), members: key_set_new(), cache: mesh_map_new() };
        assert(r.order@.to_set() =~= Set::<u64>::empty());
        r
    }

    /// Marks the mesh of chunk `key` as stale and forgets its cached mesh.
    /// Marking a stale key again changes nothing.
    pub fn mark(&mut self, key: u64)
        requires
            old(self).wf(),
        ensures
            final(self).wf(),
            final(self).dirty() == unique_push(old(self).dirty(), key),
            final(self).cache() == old(self).cache().remove(key),
    {
        if key_set_insert(&mut self.members, key) {
            self.order.push(key);
            mesh_map_remove(&mut self.cache, key);
            proof {
                crate::model::lemma_unique_push(old(self).order@, key);
                assert(self.order@.to_set() =~= old(self).order@.to_set().insert(key)) by {
                    assert forall|k: u64| self.order@.to_set().contains(k) == old(
                        self,
                    ).order@.to_set().insert(key).contains(k) by {
                        if old(self).order@.contains(k) {
                            let j = old(self).order@.index_of(k);
                            assert(self.order@[j] == k);
                        }
                        if k == key {
                            assert(self.order@[old(self).order@.len() as int] == k);
                        }
                    }
                }
                assert(!old(self).order@.contains(key));
                assert(self.order@ == unique_push(old(self).order@, key));
                assert(self.members_agree());
                assert(self.dirty().no_duplicates());
                assert forall|k: u64| self.dirty().contains(k) implies !self.cache().dom().contains(
                    k,
                ) by {
                    if k != key {
                        let j = self.order@.index_of(k);
                        assert(old(self).order@[j] == k);
                        assert(old(self).dirty().contains(k));
                    }
                }
            }
        } else {
            proof {
                assert(old(self).order@.to_set().contains(key));
                assert(key_set(self.members) =~= key_set(old(self).members));
                assert(mesh_map(self.cache) =~= mesh_map(old(self).cache).remove(key));
            }
        }
    }

    /// Marks the chunk with the given chunk coordinates as stale and forgets
    /// its cached mesh.
    pub fn mark_chunk(&mut self, coord_dirty: VoxelIdx)
        requires
            old(self).wf(),
        ensures
            final(self).wf(),
            final(self).dirty() == unique_push(old(self).dirty(), chunk_coord_key(coord_dirty)),
            final(self).cache() == old(self).cache().remove(chunk_coord_key(coord_dirty)),
    {
        let coord = coord_dirty.shift_up(CELL_SIZE_BITS);
        self.mark(chunk_idx(coord));
    }

    /// Marks the chunk beyond the face of the chunk `coord_dirty` on which a
    /// cell with the position `slot` along the axis lies, if it lies on one.
    fn mark_beyond(&mut self, coord_dirty: VoxelIdx, slot: usize, axis: u8)
        requires
            old(self).wf(),
            axis < 3,
        ensures
            final(self).wf(),
            slot == 0 ==> final(self).dirty() == unique_push(
                old(self).dirty(),
                chunk_coord_key(coord_dirty.spec_offset(axis_step(axis as int, -1))),
            ) && final(self).cache() == old(self).cache().remove(
                chunk_coord_key(coord_dirty.spec_offset(axis_step(axis as int, -1))),
            ),
            slot == 31 ==> final(self).dirty() == unique_push(
                old(self).dirty(),
                chunk_coord_key(coord_dirty.spec_offset(axis_step(axis as int, 1))),
            ) && final(self).cache() == old(self).cache().remove(
                chunk_coord_key(coord_dirty.spec_offset(axis_step(axis as int, 1))),
            ),
            slot != 0 && slot != 31 ==> final(self).dirty() == old(self).dirty() && final(self).cache() == old(self).cache(),
    {
        if slot == 0 {
            let step = if axis == 0 {
                VoxelIdx { x: -1, y: 0, z: 0 }
            } else if axis == 1 {
                VoxelIdx { x: 0, y: -1, z: 0 }
            } else {
                VoxelIdx { x: 0, y: 0, z: -1 }
            };
            self.mark_chunk(coord_dirty.offset(step));
        } else if slot == 31 {
            let step = if axis == 0 {
                VoxelIdx { x: 1, y: 0, z: 0 }
            } else if axis == 1 {
                VoxelIdx { x: 0, y: 1, z: 0 }
            } else {
                VoxelIdx { x: 0, y: 0, z: 1 }
            };
            self.mark_chunk(coord_dirty.offset(step));
        }
    }

    /// Records a write to the cell `coord`: its chunk becomes stale, and so
    /// does the chunk beyond every face of that chunk on which the cell
    /// lies, on the axes x, y, z in turn. The cached mesh of every chunk
    /// that becomes stale is forgotten.
    pub fn mark_write(&mut self, coord: VoxelIdx)
        requires
            old(self).wf(),
        ensures
            final(self).wf(),
            final(self).dirty() == mark_all(old(self).dirty(), marks_of(coord)),
            final(self).cache() == forget_all(old(self).cache(), marks_of(coord)),
    {
        let coord_dirty = coord.shift_down(CELL_SIZE_BITS);
        proof {
            lemma_chunk_coord_key(coord);
        }
        let ghost d0 = self.dirty();
        let ghost c0 = self.cache();
        let ghost m0 = seq![chunk_key(coord)];
        self.mark_chunk(coord_dirty);
        proof {
            reveal_with_fuel(mark_all, 2);
            reveal_with_fuel(forget_all, 2);
            assert(m0.drop_last() =~= Seq::<u64>::empty());
            assert(self.dirty() == mark_all(d0, m0));
            assert(self.cache() == forget_all(c0, m0));
        }
        let p = cell_idx(coord);
        self.mark_beyond(coord_dirty, p[0], 0);
        let ghost m1 = if p@[0] == 0 {
            m0.push(neighbor_key(coord, 0, -1))
        } else if p@[0] == 31 {
            m0.push(neighbor_key(coord, 0, 1))
        } else {
            m0
        };
        proof {
            assert(m1.len() > m0.len() ==> m1.drop_last() == m0);
            assert(self.dirty() == mark_all(d0, m1));
            assert(self.cache() == forget_all(c0, m1));
        }
        self.mark_beyond(coord_dirty, p[1], 1);
        let ghost m2 = if p@[1] == 0 {
            m1.push(neighbor_key(coord, 1, -1))
        } else if p@[1] == 31 {
            m1.push(neighbor_key(coord, 1, 1))
        } else {
            m1
        };
        proof {
            assert(m2.len() > m1.len() ==> m2.drop_last() == m1);
            assert(self.dirty() == mark_all(d0, m2));
            assert(self.cache() == forget_all(c0, m2));
        }
        self.mark_beyond(coord_dirty, p[2], 2);
        let ghost m3 = if p@[2] == 0 {
            m2.push(neighbor_key(coord, 2, -1))
        } else if p@[2] == 31 {
            m2.push(neighbor_key(coord, 2, 1))
        } else {
            m2
        };
        proof {
            assert(m3.len() > m2.len() ==> m3.drop_last() == m2);
            assert(self.dirty() == mark_all(d0, m3));
            assert(self.cache() == forget_all(c0, m3));
            assert(m3 == marks_of(coord));
        }
    }

    /// Whether the mesh of chunk `key` is stale.
    pub fn is_dirty(&self, key: u64) -> (r: bool)
        requires
            self.wf(),
        ensures
            r == self.dirty().contains(key),
    {
        key_set_contains(&self.members, key)
    }

    /// The stale keys, oldest first.
    pub fn dirty_list(&self) -> (r: Vec<u64>)
        ensures
            r@ == self.dirty(),
    {
        self.order.clone()
    }

    /// The number of stale keys.
    pub fn dirty_count(&self) -> (r: usize)
        ensures
            r == self.dirty().len(),
    {
        self.order.len()
    }

    /// Hands out the stale keys, oldest first, and forgets them: afterwards
    /// nothing is stale. The cache is left as it is; it holds none of them.
    pub fn drain(&mut self) -> (keys: Vec<u64>)
        requires
            old(self).wf(),
        ensures
            final(self).wf(),
            keys@ == old(self).dirty(),
            final(self).dirty().len() == 0,
            final(self).cache() == old(self).cache(),
    {
        let mut keys: Vec<u64> = Vec::new();
        std::mem::swap(&mut keys, &mut self.order);
        key_set_clear(&mut self.members);
        assert(self.order@.to_set() =~= Set::<u64>::empty());
        keys
    }

    /// The mesh cached for chunk `key`, if there is one.
    pub fn cache_get(&self, key: u64) -> (r: Option<Rc<Model>>)
        ensures
            r is Some == self.cache().dom().contains(key),
            r is Some ==> r.unwrap() == self.cache()[key],
    {
        match mesh_map_get(&self.cache, key) {
            Some(model) => Some(share(model)),
            None => None,
        }
    }

    /// Installs a fresh mesh for chunk `key`; the key is stale no longer.
    pub fn cache_put(&mut self, key: u64, model: Rc<Model>)
        requires
            old(self).wf(),
        ensures
            final(self).wf(),
            final(self).dirty() == without(old(self).dirty(), key),
            final(self).cache() == old(self).cache().insert(key, model),
    {
        proof {
            lemma_without(self.order@, key);
        }
        if key_set_remove(&mut self.members, key) {
            let mut i: usize = 0;
            while i < self.order.len()
                invariant
                    self.order@ == old(self).order@,
                    i <= self.order@.len(),
                    self.order@.contains(key),
                    self.order@.no_duplicates(),
                    forall|j: int| 0 <= j < i ==> self.order@[j] != key,
                ensures
                    i < self.order@.len(),
                    self.order@[i as int] == key,
                    self.order@ == old(self).order@,
                decreases self.order@.len() - i,
            {
                if self.order[i] == key {
                    break ;
                }
                i = i + 1;
            }
            assert(old(self).order@.index_of(key) == i);
            self.order.remove(i);
        }
        mesh_map_insert(&mut self.cache, key, model);
        proof {
            assert(self.order@ == without(old(self).order@, key));
            assert forall|k: u64| key_set(self.members).contains(k) == self.order@.to_set().contains(
                k,
            ) by {
                if k != key {
                    assert(key_set(old(self).members).contains(k) == old(self).order@.contains(k));
                }
            }
            assert(key_set(self.members) =~= self.order@.to_set());
            assert forall|k: u64| self.dirty().contains(k) implies !self.cache().dom().contains(
                k,
            ) by {
                assert(k != key);
                assert(old(self).dirty().contains(k));
            }
        }
    }

    /// Forgets every cached mesh.
    pub fn cache_clear(&mut self)
        requires
            old(self).wf(),
        ensures
            final(self).wf(),
            final(self).dirty() == old(self).dirty(),
            final(self).cache().dom() == Set::<u64>::empty(),
    {
        mesh_map_clear(&mut self.cache);
    }

    /// Forgets every cached mesh and every stale key.
    pub fn clear(&mut self)
        ensures
            final(self).wf(),
            final(self).dirty().len() == 0,
            final(self).cache().dom() == Set::<u64>::empty(),
    {
        mesh_map_clear(&mut self.cache);
        key_set_clear(&mut self.members);
        self.order.clear();
        assert(self.order@.to_set() =~= Set::<u64>::empty());
    }
}

} // verus!
