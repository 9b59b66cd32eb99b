//! The sparse store: chunks by key, and the bounding box of what was added.
use crate::bounding_box::{saturated, BoundingBox};
use crate::cell::BGMCell;
use crate::chunk_key::{cell_idx, cell_slot, chunk_idx, chunk_key};
use crate::chunk_map::{
    chunk_map, chunk_map_get, chunk_map_get_mut, chunk_map_insert, chunk_map_keys, chunk_map_new,
    ChunkMap,
};
use crate::voxelidx::VoxelIdx;
use vstd::prelude::*;

verus! {

/// The place of a cell in a store: the key of its chunk and its position
/// inside the chunk.
pub open spec fn slot_of(c: VoxelIdx) -> (u64, int, int, int) {
    (chunk_key(c), cell_slot(c).0, cell_slot(c).1, cell_slot(c).2)
}

/// The keys of `keys` that have a chunk, in order.
pub open spec fn present(chunks: Map<u64, BGMCell>, keys: Seq<u64>) -> Seq<u64> {
    keys.filter(|k: u64| chunks.dom().contains(k))
}

/// A mapping from chunk key to chunk, with the bounding box of the cells
/// that were added.
pub struct ChunkedBase {
    chunks: ChunkMap,
    bb: BoundingBox,
    added: Ghost<Set<VoxelIdx>>,
}

impl ChunkedBase {
    /// The chunks of the store, by key.
    pub closed spec fn chunks(&self) -> Map<u64, BGMCell> {
        chunk_map(self.chunks)
    }

    /// The bounding box of the store.
    pub closed spec fn spec_bounding_box(&self) -> BoundingBox {
        self.bb
    }

    /// The coordinates whose `add` filled a cell.
    pub closed spec fn added(&self) -> Set<VoxelIdx> {
        self.added@
    }

    /// The filled places of the store.
    pub open spec fn slots(&self) -> Set<(u64, int, int, int)> {
        Set::new(
            |s: (u64, int, int, int)|
                self.chunks().dom().contains(s.0) && self.chunks()[s.0]@.contains((s.1, s.2, s.3)),
        )
    }

    /// Whether the place of `c` is filled.
    pub open spec fn filled(&self, c: VoxelIdx) -> bool {
        self.slots().contains(slot_of(c))
    }

    /// The store's invariant: a chunk exists only if one of its cells is
    /// filled; the filled places are exactly the places of the added
    /// coordinates, one coordinate per place; the box holds every added
    /// coordinate and counts them.
    pub open spec fn wf(&self) -> bool {
        &&& forall|k: u64| #[trigger]
            self.chunks().dom().contains(k) ==> self.chunks()[k]@ != Set::<(int, int, int)>::empty()
        &&& self.slots().finite()
        &&& self.added().finite()
        &&& self.added().len() == self.slots().len()
        &&& forall|c: VoxelIdx| #[trigger] self.added().contains(c) ==> self.filled(c)
        &&& forall|p: (u64, int, int, int)| #[trigger]
            self.slots().contains(p) ==> exists|a: VoxelIdx| #[trigger]
                self.added().contains(a) && slot_of(a) == p
        &&& forall|c: VoxelIdx| #[trigger]
            self.added().contains(c) ==> self.spec_bounding_box().covers(c)
        &&& self.spec_bounding_box().spec_count() == saturated(self.slots().len() as int)
        &&& self.spec_bounding_box().wf()
    }

    /// An empty store.
    pub fn new() -> (r: ChunkedBase)
        ensures
            r.wf(),
            r.chunks().dom() == Set::<u64>::empty(),
            r.slots() == Set::<(u64, int, int, int)>::empty(),
            r.added() == Set::<VoxelIdx>::empty(),
            r.spec_bounding_box().spec_count() == 0,
    {
        let r = ChunkedBase {
            chunks: chunk_map_new(),
            bb: BoundingBox::default(),
            added: Ghost(Set::empty()),
        };
        assert(r.slots() =~= Set::<(u64, int, int, int)>::empty());
        r
    }

    pub fn bounding_box(&self) -> (r: &BoundingBox)
        ensures
            *r == self.spec_bounding_box(),
    {
        &self.bb
    }

    /// The chunk stored under `key`, if there is one.
    pub fn chunk(&self, key: u64) -> (r: Option<&BGMCell>)
        ensures
            r is Some == self.chunks().dom().contains(key),
            r is Some ==> *r.unwrap() == self.chunks()[key],
    {
        chunk_map_get(&self.chunks, key)
    }

    /// The keys of the chunks, each once, in no fixed order.
    pub fn chunk_keys(&self) -> (keys: Vec<u64>)
        ensures
            keys@.no_duplicates(),
            keys@.to_set() == self.chunks().dom(),
    {
        chunk_map_keys(&self.chunks)
    }

    /// The keys of `keys` that have a chunk, in order.
    pub fn existing(&self, keys: &Vec<u64>) -> (r: Vec<u64>)
        ensures
            r@ == present(self.chunks(), keys@),
            forall|j: int| 0 <= j < r@.len() ==> self.chunks().dom().contains(#[trigger] r@[j]),
    {
        let mut out: Vec<u64> = Vec::new();
        let ghost pred = |k: u64| self.chunks().dom().contains(k);
        let mut i: usize = 0;
        proof {
            assert(keys@.subrange(0, 0).filter(pred) =~= Seq::<u64>::empty()) by {
                reveal(Seq::filter);
            }
        }
        while i < keys.len()
            invariant
                i <= keys@.len(),
                pred == (|k: u64| self.chunks().dom().contains(k)),
                out@ == keys@.subrange(0, i as int).filter(pred),
                forall|j: int|
                    0 <= j < out@.len() ==> self.chunks().dom().contains(#[trigger] out@[j]),
            decreases keys@.len() - i,
        {
            let idx = keys[i];
            proof {
                let s = keys@.subrange(0, i as int + 1);
                assert(s.drop_last() == keys@.subrange(0, i as int));
                assert(s.last() == idx);
                reveal(Seq::filter);
            }
            match chunk_map_get(&self.chunks, idx) {
                Some(_) => {
                    out.push(idx);
                },
                None => {},
            }
            i = i + 1;
        }
        proof {
            assert(keys@.subrange(0, keys@.len() as int) == keys@);
        }
        out
    }

    /// Whether the cell at `coord` is filled.
    pub fn occupied(&self, coord: VoxelIdx) -> (r: bool)
        ensures
            r == self.filled(coord),
    {
        let idx = chunk_idx(coord);
        match chunk_map_get(&self.chunks, idx) {
            Some(cell) => {
                let p = cell_idx(coord);
                cell.get(p[0], p[1], p[2])
            },
            None => false,
        }
    }

    /// Fills the cell at `coord`. Returns whether the cell was empty before;
    /// only then does anything change: the cell is filled, its chunk is
    /// created if it did not exist, and the bounding box grows to hold
    /// `coord` and counts it.
    pub fn add(&mut self, coord: VoxelIdx) -> (r: bool)
        requires
            old(self).wf(),
        ensures
            final(self).wf(),
            r == !old(self).filled(coord),
            final(self).slots() == old(self).slots().insert(slot_of(coord)),
            r ==> final(self).added() == old(self).added().insert(coord),
            !r ==> *final(self) == *old(self),
            final(self).chunks().dom() == old(self).chunks().dom().insert(chunk_key(coord)),
            forall|k: u64|
                k != chunk_key(coord) && old(self).chunks().dom().contains(k) ==> final(self).chunks()[k] == old(self).chunks()[k],
            final(self).spec_bounding_box().spec_count() == saturated(
                old(self).spec_bounding_box().spec_count() + if r {
                    1int
                } else {
                    0int
                },
            ),
            r ==> final(self).spec_bounding_box().covers(coord),
            r ==> final(self).spec_bounding_box().grew_from(old(self).spec_bounding_box(), coord),
    {
        let idx = chunk_idx(coord);
        let p = cell_idx(coord);
        let x = p[0];
        let y = p[1];
        let z = p[2];
        if self.occupied(coord) {
            assert(old(self).slots().insert(slot_of(coord)) =~= old(self).slots());
            return false;
        }
        match chunk_map_get_mut(&mut self.chunks, idx) {
            Some(cell) => {
                cell.set(x, y, z);
            },
            None => {
                let mut cell = BGMCell::default();
                cell.set(x, y, z);
                chunk_map_insert(&mut self.chunks, idx, cell);
            },
        }
        self.bb.add(coord);
        self.added = Ghost(self.added@.insert(coord));
        proof {
            let s = slot_of(coord);
            assert(self.chunks()[idx]@.contains((s.1, s.2, s.3)));
            assert(self.slots() =~= old(self).slots().insert(s));
            assert(!old(self).added().contains(coord));
            assert forall|k: u64| #[trigger] self.chunks().dom().contains(k) implies self.chunks()[k]@
                != Set::<(int, int, int)>::empty() by {
                if k == idx {
                    assert(self.chunks()[k]@.contains((s.1, s.2, s.3)));
                }
            }
            assert forall|c: VoxelIdx| #[trigger] self.added().contains(c) implies self.filled(
                c,
            ) by {
                if c != coord {
                    assert(old(self).filled(c));
                }
            }
            assert forall|p: (u64, int, int, int)| #[trigger]
                self.slots().contains(p) implies exists|a: VoxelIdx| #[trigger]
                self.added().contains(a) && slot_of(a) == p by {
                if p == s {
                    assert(self.added().contains(coord) && slot_of(coord) == p);
                } else {
                    assert(old(self).slots().contains(p));
                    let a = choose|a: VoxelIdx| #[trigger]
                        old(self).added().contains(a) && slot_of(a) == p;
                    assert(self.added().contains(a) && slot_of(a) == p);
                }
            }
        }
        true
    }
}

/// What one call of `add(c)` with the result `r` makes of a store.
pub open spec fn add_step(before: ChunkedBase, after: ChunkedBase, c: VoxelIdx, r: bool) -> bool {
    &&& before.wf()
    &&& after.wf()
    &&& r == !before.filled(c)
    &&& after.slots() == before.slots().insert(slot_of(c))
    &&& r ==> after.added() == before.added().insert(c)
    &&& !r ==> after == before
}

/// After `add(c)` the cell is occupied, and a second `add(c)` reports no
/// change and changes nothing. The first `add` of an empty cell reports a
/// change.
pub proof fn lemma_add_twice(
    s0: ChunkedBase,
    s1: ChunkedBase,
    s2: ChunkedBase,
    c: VoxelIdx,
    r1: bool,
    r2: bool,
)
    requires
        add_step(s0, s1, c, r1),
        add_step(s1, s2, c, r2),
    ensures
        s1.filled(c),
        !r2,
        s2 == s1,
        !s0.filled(c) ==> r1,
{
}

/// In every store the bounding box encloses every coordinate that was
/// added, and its count is the number of coordinates added, which is the
/// number of filled places (up to the largest `usize`).
pub proof fn lemma_bounding_box(s: ChunkedBase)
    requires
        s.wf(),
    ensures
        forall|c: VoxelIdx| #[trigger]
            s.added().contains(c) ==> c.within(
                s.spec_bounding_box().spec_min(),
                s.spec_bounding_box().spec_max(),
            ),
        s.spec_bounding_box().spec_count() == saturated(s.added().len() as int),
        s.spec_bounding_box().spec_count() == saturated(s.slots().len() as int),
{
}

/// Inside the range that chunk keys can represent, a store tells all
/// coordinates apart: a filled cell is a coordinate that was added.
pub proof fn lemma_filled_was_added(s: ChunkedBase, c: VoxelIdx)
    requires
        s.wf(),
        s.filled(c),
        crate::chunk_key::in_key_range(c),
        forall|a: VoxelIdx| #[trigger] s.added().contains(a) ==> crate::chunk_key::in_key_range(a),
    ensures
        s.added().contains(c),
{
    assert(s.slots().contains(slot_of(c)));
    let a = choose|a: VoxelIdx| #[trigger] s.added().contains(a) && slot_of(a) == slot_of(c);
    crate::chunk_key::lemma_slot_injective(a, c);
}

} // verus!
