//! Which chunks a write makes stale: the chunk of the cell, and the chunk
//! beyond every face of that chunk on which the cell lies, because a mesher
//! reads one cell beyond the edge of a chunk.
use crate::chunk_key::{cell_slot, chunk_key};
use crate::model::{lemma_unique_push, unique_push};
use crate::voxelidx::VoxelIdx;
use vstd::prelude::*;

verus! {

/// The key of the chunk with the given chunk coordinates.
pub open spec fn chunk_coord_key(coord_dirty: VoxelIdx) -> u64 {
    chunk_key(
        VoxelIdx {
            x: coord_dirty.x.wrapping_shl(5),
            y: coord_dirty.y.wrapping_shl(5),
            z: coord_dirty.z.wrapping_shl(5),
        },
    )
}

proof fn lemma_shift_round(c: i32)
    by (bit_vector)
    ensures
        ((c >> 5u32) << 5u32) / 32 == c / 32,
{
}

/// The chunk coordinates of a cell lead back to the key of its chunk.
pub proof fn lemma_chunk_coord_key(c: VoxelIdx)
    ensures
        chunk_coord_key(VoxelIdx { x: c.x >> 5u32, y: c.y >> 5u32, z: c.z >> 5u32 }) == chunk_key(
            c,
        ),
{
    lemma_shift_round(c.x);
    lemma_shift_round(c.y);
    lemma_shift_round(c.z);
}

/// The keys in `keys` marked one after the other in the list `dirty`.
pub open spec fn mark_all(dirty: Seq<u64>, keys: Seq<u64>) -> Seq<u64>
    decreases keys.len(),
{
    if keys.len() == 0 {
        dirty
    } else {
        unique_push(mark_all(dirty, keys.drop_last()), keys.last())
    }
}

/// The chunk coordinates of a cell.
pub open spec fn chunk_coord(c: VoxelIdx) -> VoxelIdx {
    VoxelIdx { x: c.x >> 5u32, y: c.y >> 5u32, z: c.z >> 5u32 }
}

/// `step` along the axis (0, 1, 2 for x, y, z) and nothing along the others.
pub open spec fn axis_step(axis: int, step: int) -> VoxelIdx {
    if axis == 0 {
        VoxelIdx { x: step as i32, y: 0, z: 0 }
    } else if axis == 1 {
        VoxelIdx { x: 0, y: step as i32, z: 0 }
    } else {
        VoxelIdx { x: 0, y: 0, z: step as i32 }
    }
}

/// The key of the chunk next to the chunk of `c`, one chunk further along
/// the given axis (0, 1, 2 for x, y, z) in the given direction (-1 or 1).
pub open spec fn neighbor_key(c: VoxelIdx, axis: int, step: int) -> u64 {
    chunk_coord_key(chunk_coord(c).spec_offset(axis_step(axis, step)))
}

/// The keys that a write to the cell `c` marks: the key of its chunk and,
/// for every axis on which `c` lies on the face of its chunk, the key of the
/// chunk beyond that face, in the order x, y, z.
pub open spec fn marks_of(c: VoxelIdx) -> Seq<u64> {
    let s = cell_slot(c);
    let own = seq![chunk_key(c)];
    let mx = if s.0 == 0 {
        own.push(neighbor_key(c, 0, -1))
    } else if s.0 == 31 {
        own.push(neighbor_key(c, 0, 1))
    } else {
        own
    };
    let my = if s.1 == 0 {
        mx.push(neighbor_key(c, 1, -1))
    } else if s.1 == 31 {
        mx.push(neighbor_key(c, 1, 1))
    } else {
        mx
    };
    if s.2 == 0 {
        my.push(neighbor_key(c, 2, -1))
    } else if s.2 == 31 {
        my.push(neighbor_key(c, 2, 1))
    } else {
        my
    }
}

/// A key that was marked is in the list, and the list stays free of
/// duplicates.
pub proof fn lemma_mark_all(dirty: Seq<u64>, keys: Seq<u64>)
    requires
        dirty.no_duplicates(),
    ensures
        mark_all(dirty, keys).no_duplicates(),
        forall|k: u64| dirty.contains(k) ==> mark_all(dirty, keys).contains(k),
        forall|j: int| 0 <= j < keys.len() ==> mark_all(dirty, keys).contains(#[trigger] keys[j]),
        forall|k: u64|
            mark_all(dirty, keys).contains(k) ==> dirty.contains(k) || keys.contains(k),
    decreases keys.len(),
{
    if keys.len() > 0 {
        let head = keys.drop_last();
        lemma_mark_all(dirty, head);
        let m = mark_all(dirty, head);
        lemma_unique_push(m, keys.last());
        let r = unique_push(m, keys.last());
        assert forall|k: u64| m.contains(k) implies r.contains(k) by {
            let j = m.index_of(k);
            assert(r[j] == k);
        }
        assert forall|j: int| 0 <= j < keys.len() implies r.contains(#[trigger] keys[j]) by {
            if j < head.len() {
                assert(head[j] == keys[j]);
                assert(m.contains(head[j]));
            }
        }
        assert forall|k: u64| r.contains(k) implies dirty.contains(k) || keys.contains(k) by {
            if m.contains(k) {
                if !dirty.contains(k) {
                    let j = head.index_of(k);
                    assert(keys[j] == k);
                }
            } else {
                let j = r.index_of(k);
                assert(j == m.len());
                assert(keys[keys.len() - 1] == k);
            }
        }
    }
}

/// The cache without the entries of the keys in `keys`.
pub open spec fn forget_all<T>(cache: Map<u64, T>, keys: Seq<u64>) -> Map<u64, T>
    decreases keys.len(),
{
    if keys.len() == 0 {
        cache
    } else {
        forget_all(cache, keys.drop_last()).remove(keys.last())
    }
}

/// Forgetting keys removes their entries and leaves every other entry as it
/// was.
pub proof fn lemma_forget_all<T>(cache: Map<u64, T>, keys: Seq<u64>)
    ensures
        forall|k: u64|
            #[trigger] forget_all(cache, keys).dom().contains(k) == (cache.dom().contains(k)
                && !keys.contains(k)),
        forall|k: u64|
            forget_all(cache, keys).dom().contains(k) ==> #[trigger] forget_all(cache, keys)[k]
                == cache[k],
    decreases keys.len(),
{
    if keys.len() > 0 {
        let head = keys.drop_last();
        let last = keys.last();
        lemma_forget_all(cache, head);
        assert(forget_all(cache, keys) == forget_all(cache, head).remove(last));
        assert forall|k: u64|
            #[trigger] forget_all(cache, keys).dom().contains(k) == (cache.dom().contains(k)
                && !keys.contains(k)) by {
            assert(forget_all(cache, head).dom().contains(k) == (cache.dom().contains(k)
                && !head.contains(k)));
            if keys.contains(k) && k != last {
                let j = keys.index_of(k);
                assert(head[j] == k);
            }
            if head.contains(k) {
                let j = head.index_of(k);
                assert(keys[j] == k);
            }
            if k == last {
                assert(keys[keys.len() - 1] == k);
            }
        }
        assert forall|k: u64| forget_all(cache, keys).dom().contains(k) implies #[trigger] forget_all(
            cache,
            keys,
        )[k] == cache[k] by {
            assert(forget_all(cache, head).dom().contains(k));
            assert(forget_all(cache, head)[k] == cache[k]);
        }
    }
}

/// A write to a cell on the low or high face of its chunk marks the chunk
/// beyond that face, on every axis.
pub proof fn lemma_boundary_marks(dirty: Seq<u64>, c: VoxelIdx)
    requires
        dirty.no_duplicates(),
    ensures
        mark_all(dirty, marks_of(c)).contains(chunk_key(c)),
        cell_slot(c).0 == 0 ==> mark_all(dirty, marks_of(c)).contains(neighbor_key(c, 0, -1)),
        cell_slot(c).0 == 31 ==> mark_all(dirty, marks_of(c)).contains(neighbor_key(c, 0, 1)),
        cell_slot(c).1 == 0 ==> mark_all(dirty, marks_of(c)).contains(neighbor_key(c, 1, -1)),
        cell_slot(c).1 == 31 ==> mark_all(dirty, marks_of(c)).contains(neighbor_key(c, 1, 1)),
        cell_slot(c).2 == 0 ==> mark_all(dirty, marks_of(c)).contains(neighbor_key(c, 2, -1)),
        cell_slot(c).2 == 31 ==> mark_all(dirty, marks_of(c)).contains(neighbor_key(c, 2, 1)),
        forall|k: u64|
            mark_all(dirty, marks_of(c)).contains(k) ==> dirty.contains(k) || marks_of(c).contains(
                k,
            ),
{
    lemma_mark_all(dirty, marks_of(c));
    let m = marks_of(c);
    let s = cell_slot(c);
    let own = seq![chunk_key(c)];
    let mx = if s.0 == 0 {
        own.push(neighbor_key(c, 0, -1))
    } else if s.0 == 31 {
        own.push(neighbor_key(c, 0, 1))
    } else {
        own
    };
    let my = if s.1 == 0 {
        mx.push(neighbor_key(c, 1, -1))
    } else if s.1 == 31 {
        mx.push(neighbor_key(c, 1, 1))
    } else {
        mx
    };
    assert(m[0] == chunk_key(c));
    if s.0 == 0 || s.0 == 31 {
        assert(m[1] == mx[1]);
    }
    if s.1 == 0 || s.1 == 31 {
        assert(m[my.len() - 1] == my[my.len() - 1]);
    }
    if s.2 == 0 || s.2 == 31 {
        assert(m[m.len() - 1] == m.last());
    }
}

} // verus!
