//! The greedy backend: a chunked store whose chunks are meshed into quads,
//! with the record of which chunks changed.
use crate::bounding_box::BoundingBox;
use crate::cell::{BGMCell, CS_P3};
use crate::chunk_key::{chunk_base, chunk_key, chunk_origin};
use crate::chunked_base::{present, slot_of, ChunkedBase};
use crate::dirty::{share, without_all, DirtyTracker};
use crate::marks::{chunk_coord_key, forget_all, lemma_forget_all, mark_all, marks_of};
use crate::mesher::{greedy_quads, with_sides};
use crate::model::{unique_push, Model, ModelView};
use crate::stream::{
    greedy_binary_payload, greedy_chunks_bytes, greedy_dirty_payload, len_u32, write_cell,
};
use crate::void_closure::solid_padded;
use crate::voxel::{StreamingVoxel, Voxel, WriteOptions};
use crate::voxelidx::VoxelIdx;
use crate::wire::put_u32;
use std::rc::Rc;
use vstd::prelude::*;

verus! {

/// A model that holds nothing, placed at `offset`.
pub open spec fn empty_model(id: u64, offset: VoxelIdx) -> ModelView {
    ModelView {
        id: id,
        offset: offset,
        vertices: Seq::empty(),
        faces: Seq::empty(),
        raw_vertices: Seq::empty(),
        raw_triangles: Seq::empty(),
        raw_normals: Seq::empty(),
    }
}

/// The quad mesh of a chunk: placed at the chunk's origin, with the faces
/// that the greedy mesher yields for the chunk with its voids closed.
pub open spec fn chunk_model(key: u64, cell: Set<(int, int, int)>) -> ModelView {
    with_sides(empty_model(0, chunk_origin(key)), greedy_quads(solid_padded(cell)), 6)
}

/// A chunked store with greedy quad meshing.
pub struct ChunkedVoxel {
    base: ChunkedBase,
    ro: WriteOptions,
    tracker: DirtyTracker,
}

impl ChunkedVoxel {
    /// The cells of the store.
    pub closed spec fn base(&self) -> ChunkedBase {
        self.base
    }

    /// How chunks are post-processed before they are written.
    pub closed spec fn options(&self) -> WriteOptions {
        self.ro
    }

    /// The record of stale and cached meshes.
    pub closed spec fn tracker(&self) -> DirtyTracker {
        self.tracker
    }

    /// The keys of the chunks that changed since the last drain, oldest first.
    pub open spec fn dirty(&self) -> Seq<u64> {
        self.tracker().dirty()
    }

    /// The chunks by key.
    pub open spec fn chunks(&self) -> Map<u64, BGMCell> {
        self.base().chunks()
    }

    /// The store's invariant: the cells and the record are well formed;
    /// every cached mesh belongs to a chunk, and is the mesh of its chunk as
    /// the chunk is now. A stale key need not have a chunk: a write on the
    /// face of a chunk marks the chunk beyond it, filled or not.
    pub open spec fn inv(&self) -> bool {
        &&& self.base().wf()
        &&& self.tracker().wf()
        &&& forall|k: u64| #[trigger]
            self.tracker().cache().dom().contains(k) ==> self.chunks().dom().contains(k) && (
            *self.tracker().cache()[k])@ == chunk_model(k, self.chunks()[k]@)
    }

    /// An empty store that writes its chunks as they are.
    pub fn new() -> (r: ChunkedVoxel)
        ensures
            r.inv(),
            r.dirty().len() == 0,
            r.options() == WriteOptions::Raw,
            r.chunks().dom() == Set::<u64>::empty(),
            r.base().slots() == Set::<(u64, int, int, int)>::empty(),
            r.base().added() == Set::<VoxelIdx>::empty(),
            r.base().spec_bounding_box().spec_count() == 0,
    {
        ChunkedVoxel { base: ChunkedBase::new(), ro: WriteOptions::Raw, tracker: DirtyTracker::new() }
    }

    /// The keys of the chunks that changed since the last drain, oldest first.
    pub fn dirty_keys(&self) -> (r: Vec<u64>)
        ensures
            r@ == self.dirty(),
    {
        self.tracker.dirty_list()
    }

    /// How chunks are post-processed before they are written.
    pub fn write_options(&self) -> (r: WriteOptions)
        ensures
            r == self.options(),
    {
        self.ro
    }

    /// Forgets every cached mesh, so that the next request for a mesh builds
    /// it anew. What is stale stays stale.
    pub fn invalidate_cache(&mut self)
        requires
            old(self).inv(),
        ensures
            final(self).inv(),
            final(self).base() == old(self).base(),
            final(self).options() == old(self).options(),
            final(self).dirty() == old(self).dirty(),
            final(self).tracker().cache().dom() == Set::<u64>::empty(),
    {
        self.tracker.cache_clear();
    }

    /// Marks the chunk with the given chunk coordinates as changed and
    /// forgets its cached mesh, whether or not the chunk exists.
    pub fn setdirty(&mut self, coord_dirty: VoxelIdx)
        requires
            old(self).inv(),
        ensures
            final(self).inv(),
            final(self).base() == old(self).base(),
            final(self).options() == old(self).options(),
            final(self).dirty() == unique_push(old(self).dirty(), chunk_coord_key(coord_dirty)),
            final(self).tracker().cache() == old(self).tracker().cache().remove(
                chunk_coord_key(coord_dirty),
            ),
    {
        self.tracker.mark_chunk(coord_dirty);
    }

    /// Meshes every chunk and returns the meshes, one per chunk, in the
    /// order in which the store's map yields its chunks. A chunk whose mesh
    /// is cached is not meshed again. Afterwards every chunk has a cached
    /// mesh and no chunk is stale: of the stale keys those stay that have no
    /// chunk, in their order.
    pub fn to_model(&mut self) -> (r: Vec<Rc<Model>>)
        requires
            old(self).inv(),
        ensures
            final(self).inv(),
            final(self).base() == old(self).base(),
            final(self).options() == old(self).options(),
            final(self).tracker().cache().dom() == final(self).chunks().dom(),
            forall|k: u64|
                #[trigger] final(self).dirty().contains(k) == (old(self).dirty().contains(k)
                    && !old(self).chunks().dom().contains(k)),
            exists|order: Seq<u64>|
                {
                    &&& order.no_duplicates()
                    &&& order.to_set() == final(self).chunks().dom()
                    &&& #[trigger] order.len() == r@.len()
                    &&& final(self).dirty() == without_all(old(self).dirty(), order)
                    &&& forall|i: int|
                        0 <= i < r@.len() ==> (*#[trigger] r@[i])@ == chunk_model(
                            order[i],
                            final(self).chunks()[order[i]]@,
                        )
                },
    {
        let mut models: Vec<Rc<Model>> = Vec::new();
        let mut voxels = [0u16; CS_P3];
        let keys = self.base.chunk_keys();
        let mut i: usize = 0;
        while i < keys.len()
            invariant
                i <= keys@.len(),
                self.inv(),
                self.base() == old(self).base(),
                self.options() == old(self).options(),
                keys@.no_duplicates(),
                keys@.to_set() == self.chunks().dom(),
                models@.len() == i,
                forall|j: int|
                    0 <= j < i ==> (*#[trigger] models@[j])@ == chunk_model(
                        keys@[j],
                        self.chunks()[keys@[j]]@,
                    ),
                self.dirty() == without_all(old(self).dirty(), keys@.subrange(0, i as int)),
                forall|k: u64|
                    #[trigger] self.dirty().contains(k) == (old(self).dirty().contains(k)
                        && !keys@.subrange(0, i as int).contains(k)),
                forall|k: u64|
                    #[trigger] self.tracker().cache().dom().contains(k) == (old(
                        self,
                    ).tracker().cache().dom().contains(k) || keys@.subrange(0, i as int).contains(
                        k,
                    )),
            decreases keys@.len() - i,
        {
            let idx = keys[i];
            assert(keys@.to_set().contains(idx));
            let ghost before = self.tracker();
            let ghost head = keys@.subrange(0, i as int);
            let ghost next = keys@.subrange(0, i as int + 1);
            proof {
                assert(next.drop_last() == head);
                assert(next.last() == idx);
                crate::dirty::lemma_without(self.tracker.dirty(), idx);
            }
            match self.tracker.cache_get(idx) {
                Some(model) => {
                    models.push(model);
                },
                None => {
                    let base = chunk_base(idx);
                    let mut model = Model::default();
                    model.set_offset(base);
                    assert(model@ == empty_model(0, chunk_origin(idx))) by {
                        assert(model@.vertices =~= Seq::empty());
                        assert(model@.faces =~= Seq::empty());
                        assert(model@.raw_vertices =~= Seq::empty());
                        assert(model@.raw_triangles =~= Seq::empty());
                        assert(model@.raw_normals =~= Seq::empty());
                    }
                    match self.base.chunk(idx) {
                        Some(cell) => {
                            cell.to_model(&mut voxels, &mut model);
                        },
                        None => {},
                    }
                    let model = Rc::new(model);
                    self.tracker.cache_put(idx, share(&model));
                    models.push(model);
                },
            }
            proof {
                assert(self.dirty() == crate::dirty::without(before.dirty(), idx));
                assert forall|k: u64|
                    #[trigger] self.dirty().contains(k) == (old(self).dirty().contains(k)
                        && !next.contains(k)) by {
                    if next.contains(k) && k != idx {
                        let j = next.index_of(k);
                        assert(head[j] == k);
                    }
                    if head.contains(k) {
                        let j = head.index_of(k);
                        assert(next[j] == k);
                    }
                    if k == idx {
                        assert(next[i as int] == k);
                    }
                }
                assert forall|k: u64|
                    #[trigger] self.tracker().cache().dom().contains(k) == (old(
                        self,
                    ).tracker().cache().dom().contains(k) || next.contains(k)) by {
                    if next.contains(k) && k != idx {
                        let j = next.index_of(k);
                        assert(head[j] == k);
                    }
                    if head.contains(k) {
                        let j = head.index_of(k);
                        assert(next[j] == k);
                    }
                    if k == idx {
                        assert(next[i as int] == k);
                    }
                }
            }
            i = i + 1;
        }
        proof {
            assert(keys@.subrange(0, keys@.len() as int) == keys@);
            assert(keys@.len() == models@.len());
            assert forall|k: u64| keys@.contains(k) == self.chunks().dom().contains(k) by {
                assert(keys@.to_set().contains(k) == keys@.contains(k));
            }
            assert(self.tracker().cache().dom() =~= self.chunks().dom());
        }
        models
    }
}

impl Default for ChunkedVoxel {
    fn default() -> (r: ChunkedVoxel)
        ensures
            r.inv(),
            r.dirty().len() == 0,
            r.options() == WriteOptions::Raw,
            r.chunks().dom() == Set::<u64>::empty(),
            r.base().slots() == Set::<(u64, int, int, int)>::empty(),
            r.base().added() == Set::<VoxelIdx>::empty(),
            r.base().spec_bounding_box().spec_count() == 0,
    {
        ChunkedVoxel::new()
    }
}

impl Voxel for ChunkedVoxel {
    open spec fn wf(&self) -> bool {
        self.inv()
    }

    open spec fn filled(&self, c: VoxelIdx) -> bool {
        self.base().filled(c)
    }

    open spec fn same_cell(a: VoxelIdx, b: VoxelIdx) -> bool {
        slot_of(a) == slot_of(b)
    }

    open spec fn accepts(c: VoxelIdx) -> bool {
        true
    }

    open spec fn tracks_changes() -> bool {
        true
    }

    open spec fn spec_bounding_box(&self) -> BoundingBox {
        self.base().spec_bounding_box()
    }

    fn ranges(&self) -> (r: usize)
        ensures
            r == 0,
    {
        0
    }

    fn bounding_box(&self) -> (r: &BoundingBox) {
        self.base.bounding_box()
    }

    fn occupied(&self, coord: VoxelIdx) -> (r: bool) {
        self.base.occupied(coord)
    }

    /// Fills the cell at `coord`. Where the cell was empty, its chunk
    /// becomes stale, and so does the chunk beyond every face of its chunk
    /// on which the cell lies. The cached mesh of every chunk that becomes
    /// stale is forgotten.
    fn add(&mut self, coord: VoxelIdx) -> (r: bool)
        ensures
            r == !old(self).filled(coord),
            final(self).options() == old(self).options(),
            final(self).base().slots() == old(self).base().slots().insert(slot_of(coord)),
            r ==> final(self).base().added() == old(self).base().added().insert(coord),
            r ==> final(self).dirty() == mark_all(old(self).dirty(), marks_of(coord)),
            r ==> final(self).tracker().cache() == forget_all(
                old(self).tracker().cache(),
                marks_of(coord),
            ),
            !r ==> *final(self) == *old(self),
    {
        let added = self.base.add(coord);
        if !added {
            return false;
        }
        self.tracker.mark_write(coord);
        proof {
            let marks = marks_of(coord);
            lemma_forget_all(old(self).tracker().cache(), marks);
            assert(marks[0] == chunk_key(coord));
            assert forall|k: u64| #[trigger]
                self.tracker().cache().dom().contains(k) implies self.chunks().dom().contains(k)
                && (*self.tracker().cache()[k])@ == chunk_model(k, self.chunks()[k]@) by {
                assert(old(self).tracker().cache().dom().contains(k));
                assert(k != chunk_key(coord));
                assert(old(self).chunks().dom().contains(k));
            }
        }
        true
    }

    /// Appends the binary form of the store: backend id 2, the number of
    /// chunks, and every chunk in the greedy layout, in the order in which
    /// the store's map yields its chunks.
    fn write_binary(&mut self, writer: &mut Vec<u8>)
        ensures
            *final(self) == *old(self),
            exists|order: Seq<u64>|
                {
                    &&& order.no_duplicates()
                    &&& order.to_set() == old(self).chunks().dom()
                    &&& final(writer)@ == old(writer)@ + #[trigger] greedy_binary_payload(
                        old(self).chunks(),
                        old(self).options(),
                        order,
                    )
                },
    {
        // type
        put_u32(writer, 2);
        let keys = self.base.chunk_keys();
        put_u32(writer, len_u32(keys.len()));
        let ghost head = writer@;
        self.write_chunks(&keys, writer);
        proof {
            assert(writer@ =~= old(writer)@ + greedy_binary_payload(
                self.chunks(),
                self.options(),
                keys@,
            ));
        }
    }

    /// The stale chunks are handed out by the drain, so none is counted here.
    fn debug1(&mut self) -> (r: usize)
        ensures
            r == 0,
            *final(self) == *old(self),
    {
        0
    }

    /// Sets how chunks are post-processed. Where the options change, every
    /// cached mesh and every stale key is forgotten.
    fn set_options(&mut self, options: WriteOptions)
        ensures
            final(self).base() == old(self).base(),
            final(self).options() == options,
            options == old(self).options() ==> *final(self) == *old(self),
            options != old(self).options() ==> final(self).dirty().len() == 0 && final(self).tracker().cache().dom() == Set::<u64>::empty(),
    {
        if options != self.ro {
            self.ro = options;
            self.tracker.clear();
        }
    }
}

impl StreamingVoxel for ChunkedVoxel {
    /// Appends the payload of a drain: backend id 2, the unit, the number of
    /// stale chunks that exist, and every one of them in the greedy layout,
    /// oldest first. A stale key without a chunk is dropped. Afterwards
    /// nothing is stale.
    fn write_dirty(&mut self, unit_bits: u32, writer: &mut Vec<u8>)
        ensures
            final(self).base() == old(self).base(),
            final(self).options() == old(self).options(),
            final(self).tracker().cache() == old(self).tracker().cache(),
            final(self).dirty().len() == 0,
            final(writer)@ == old(writer)@ + greedy_dirty_payload(
                unit_bits,
                old(self).chunks(),
                old(self).options(),
                present(old(self).chunks(), old(self).dirty()),
            ),
    {
        put_u32(writer, 2);
        put_u32(writer, unit_bits);
        let dirty = self.tracker.drain();
        let keys = self.base.existing(&dirty);
        put_u32(writer, len_u32(keys.len()));
        self.write_chunks(&keys, writer);
        proof {
            assert(writer@ =~= old(writer)@ + greedy_dirty_payload(
                unit_bits,
                self.chunks(),
                self.options(),
                keys@,
            ));
        }
    }
}

impl ChunkedVoxel {
    /// Appends the chunks with the given keys in the greedy layout.
    fn write_chunks(&self, keys: &Vec<u64>, writer: &mut Vec<u8>)
        requires
            forall|j: int| 0 <= j < keys@.len() ==> self.chunks().dom().contains(#[trigger] keys@[j]),
        ensures
            final(writer)@ == old(writer)@ + greedy_chunks_bytes(
                self.chunks(),
                self.options(),
                keys@,
            ),
    {
        let mut i: usize = 0;
        assert(writer@ =~= old(writer)@ + greedy_chunks_bytes(
            self.chunks(),
            self.options(),
            keys@.subrange(0, 0),
        ));
        while i < keys.len()
            invariant
                i <= keys@.len(),
                forall|j: int|
                    0 <= j < keys@.len() ==> self.chunks().dom().contains(#[trigger] keys@[j]),
                writer@ == old(writer)@ + greedy_chunks_bytes(
                    self.chunks(),
                    self.options(),
                    keys@.subrange(0, i as int),
                ),
            decreases keys@.len() - i,
        {
            let idx = keys[i];
            proof {
                let s = keys@.subrange(0, i as int + 1);
                assert(s.drop_last() == keys@.subrange(0, i as int));
                assert(s.last() == idx);
                assert(self.chunks().dom().contains(keys@[i as int]));
            }
            match self.base.chunk(idx) {
                Some(cell) => {
                    write_cell(idx, cell, writer, self.ro);
                },
                None => {},
            }
            proof {
                assert(writer@ =~= old(writer)@ + greedy_chunks_bytes(
                    self.chunks(),
                    self.options(),
                    keys@.subrange(0, i as int + 1),
                ));
            }
            i = i + 1;
        }
        proof {
            assert(keys@.subrange(0, keys@.len() as int) == keys@);
        }
    }
}

} // verus!
