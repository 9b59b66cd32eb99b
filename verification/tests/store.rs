use tdp_tl::{chunk_idx, BoundingBox, ChunkedBase, ChunkedVoxel, DirtyTracker, Model, StreamingVoxel, Voxel, VoxelIdx, WriteOptions};
use std::rc::Rc;

#[test]
fn add_then_occupied() {
    let mut store = ChunkedVoxel::default();
    let c = VoxelIdx::new([1, 2, 3]);
    assert!(!store.occupied(c));
    assert!(store.add(c));
    assert!(store.occupied(c));
    assert!(!store.add(c));
    assert!(store.occupied(c));
    assert_eq!(store.bounding_box().count(), 1);
}

#[test]
fn base_store_add_and_occupied() {
    let mut store = ChunkedBase::new();
    let cells = [[0, 0, 0], [31, 31, 31], [32, 0, 0], [-1, -1, -1], [-33, 40, 1000], [0, 0, 0], [31, 31, 31]];
    let mut results = Vec::new();
    for c in cells {
        results.push(store.add(VoxelIdx::new(c)));
    }
    assert_eq!(results, vec![true, true, true, true, true, false, false]);
    for c in cells {
        assert!(store.occupied(VoxelIdx::new(c)));
    }
    assert!(!store.occupied(VoxelIdx::new([1, 0, 0])));
    assert!(!store.occupied(VoxelIdx::new([-32, 40, 1000])));
    assert_eq!(store.bounding_box().count(), 5);
    let mut keys = store.chunk_keys();
    keys.sort();
    let mut expected: Vec<u64> = cells.iter().map(|c| chunk_idx(VoxelIdx::new(*c))).collect();
    expected.sort();
    expected.dedup();
    assert_eq!(keys, expected);
    assert!(store.chunk(chunk_idx(VoxelIdx::new([32, 0, 0]))).unwrap().get(0, 0, 0));
    assert!(store.chunk(chunk_idx(VoxelIdx::new([64, 0, 0]))).is_none());
}

#[test]
fn bounding_box_encloses_every_added_cell() {
    let mut store = ChunkedVoxel::default();
    assert_eq!(store.bounding_box().count(), 0);
    let cells = [[5, -7, 9], [-50, 3, 2], [40, 40, -40], [5, -7, 9], [0, 100, 0], [-50, 3, 2]];
    for c in cells {
        store.add(VoxelIdx::new(c));
    }
    let bb = store.bounding_box();
    assert_eq!(bb.count(), 4);
    assert_eq!(bb.min(), VoxelIdx::new([-50, -7, -40]));
    assert_eq!(bb.max(), VoxelIdx::new([40, 100, 9]));
    for c in cells {
        for i in 0..3 {
            assert!(bb.min().to_array()[i] <= c[i] && c[i] <= bb.max().to_array()[i]);
        }
    }
}

#[test]
fn bounding_box_starts_at_the_first_cell() {
    let mut bb = BoundingBox::default();
    assert_eq!(bb.count(), 0);
    bb.add(VoxelIdx::new([3, 4, 5]));
    assert_eq!(bb.count(), 1);
    assert_eq!(bb.min(), VoxelIdx::new([3, 4, 5]));
    assert_eq!(bb.max(), VoxelIdx::new([3, 4, 5]));
    bb.add(VoxelIdx::new([-3, 40, 5]));
    assert_eq!(bb.count(), 2);
    assert_eq!(bb.min(), VoxelIdx::new([-3, 4, 5]));
    assert_eq!(bb.max(), VoxelIdx::new([3, 40, 5]));
}

#[test]
fn greedy_store_marks_the_chunk_and_the_chunks_beyond_its_faces() {
    let key = |x: i32, y: i32, z: i32| chunk_idx(VoxelIdx::new([x, y, z]));
    let mut store = ChunkedVoxel::default();
    assert!(store.dirty_keys().is_empty());
    store.add(VoxelIdx::new([0, 0, 0]));
    assert_eq!(
        store.dirty_keys(),
        vec![key(0, 0, 0), key(-32, 0, 0), key(0, -32, 0), key(0, 0, -32)]
    );
    store.add(VoxelIdx::new([31, 0, 0]));
    assert_eq!(
        store.dirty_keys(),
        vec![key(0, 0, 0), key(-32, 0, 0), key(0, -32, 0), key(0, 0, -32), key(32, 0, 0)]
    );
    store.add(VoxelIdx::new([1, 1, 1]));
    assert_eq!(store.dirty_keys().len(), 5);
    // a failed add marks nothing
    let mut other = ChunkedVoxel::default();
    other.add(VoxelIdx::new([100, 100, 100]));
    let mut sink = Vec::new();
    other.write_dirty(0, &mut sink);
    assert!(other.dirty_keys().is_empty());
    assert!(!other.add(VoxelIdx::new([100, 100, 100])));
    assert!(other.dirty_keys().is_empty());
}

#[test]
fn greedy_store_marks_one_chunk_for_an_inner_cell() {
    let mut store = ChunkedVoxel::default();
    store.add(VoxelIdx::new([15, 15, 15]));
    assert_eq!(store.dirty_keys(), vec![chunk_idx(VoxelIdx::new([15, 15, 15]))]);
}

#[test]
fn greedy_store_marks_both_chunks_of_a_shared_face() {
    let mut store = ChunkedVoxel::default();
    store.add(VoxelIdx::new([0, 0, 0]));
    store.add(VoxelIdx::new([31, 0, 0]));
    let keys = store.dirty_keys();
    assert!(keys.contains(&chunk_idx(VoxelIdx::new([0, 0, 0]))));
    assert!(keys.contains(&chunk_idx(VoxelIdx::new([32, 0, 0]))));
}

#[test]
fn greedy_drain_writes_only_the_chunks_that_exist() {
    let mut store = ChunkedVoxel::default();
    store.add(VoxelIdx::new([0, 0, 31]));
    store.add(VoxelIdx::new([0, 0, 32]));
    assert_eq!(store.dirty_keys().len(), 6);
    let mut out = Vec::new();
    store.write_dirty(3, &mut out);
    assert_eq!(&out[0..12], &[2, 0, 0, 0, 3, 0, 0, 0, 2, 0, 0, 0]);
    let first = u64::from_le_bytes(out[12..20].try_into().unwrap());
    assert_eq!(first, chunk_idx(VoxelIdx::new([0, 0, 0])));
    assert!(store.dirty_keys().is_empty());
}

#[test]
fn a_write_forgets_the_mesh_of_the_chunk_beyond_the_face() {
    let mut store = ChunkedVoxel::default();
    store.add(VoxelIdx::new([40, 5, 5]));
    store.add(VoxelIdx::new([5, 5, 5]));
    let first = store.to_model();
    assert!(store.dirty_keys().is_empty());
    // the cell lies on the high x face of the chunk at the origin
    store.add(VoxelIdx::new([31, 6, 6]));
    assert_eq!(
        store.dirty_keys(),
        vec![chunk_idx(VoxelIdx::new([0, 0, 0])), chunk_idx(VoxelIdx::new([32, 0, 0]))]
    );
    let second = store.to_model();
    assert_eq!(second.len(), 2);
    assert!(second.iter().all(|m| first.iter().all(|f| !Rc::ptr_eq(m, f))));
    assert!(store.dirty_keys().is_empty());
}

#[test]
fn setdirty_takes_chunk_coordinates() {
    let mut store = ChunkedVoxel::default();
    store.add(VoxelIdx::new([-40, 70, 5]));
    let mut sink = Vec::new();
    store.write_dirty(0, &mut sink);
    assert!(store.dirty_keys().is_empty());
    store.setdirty(VoxelIdx::new([-2, 2, 0]));
    assert_eq!(store.dirty_keys(), vec![chunk_idx(VoxelIdx::new([-40, 70, 5]))]);
    store.setdirty(VoxelIdx::new([-2, 2, 0]));
    assert_eq!(store.dirty_keys().len(), 1);
}

#[test]
fn setdirty_on_a_chunk_that_does_not_exist_is_dropped_by_the_drain() {
    let mut store = ChunkedVoxel::default();
    store.setdirty(VoxelIdx::new([7, 7, 7]));
    assert_eq!(store.dirty_keys(), vec![chunk_idx(VoxelIdx::new([224, 224, 224]))]);
    let mut out = Vec::new();
    store.write_dirty(1, &mut out);
    assert_eq!(out, vec![2, 0, 0, 0, 1, 0, 0, 0, 0, 0, 0, 0]);
    assert!(store.dirty_keys().is_empty());
}

#[test]
fn bounding_box_grows_by_componentwise_minimum_and_maximum() {
    let mut store = ChunkedVoxel::default();
    store.add(VoxelIdx::new([5, -2, 9]));
    store.add(VoxelIdx::new([-7, 3, 9]));
    store.add(VoxelIdx::new([0, 0, 40]));
    assert_eq!(store.bounding_box().min(), VoxelIdx::new([-7, -2, 9]));
    assert_eq!(store.bounding_box().max(), VoxelIdx::new([5, 3, 40]));
    assert_eq!(store.bounding_box().count(), 3);
    // a cell that is filled already leaves the box as it is
    assert!(!store.add(VoxelIdx::new([5, -2, 9])));
    assert_eq!(store.bounding_box().min(), VoxelIdx::new([-7, -2, 9]));
    assert_eq!(store.bounding_box().max(), VoxelIdx::new([5, 3, 40]));
    assert_eq!(store.bounding_box().count(), 3);
}

#[test]
fn tracker_mark_is_idempotent() {
    let mut t = DirtyTracker::new();
    t.mark(7);
    t.mark(9);
    t.mark(7);
    assert_eq!(t.dirty_list(), vec![7, 9]);
    assert_eq!(t.dirty_count(), 2);
    assert!(t.is_dirty(7));
    assert!(!t.is_dirty(8));
}

#[test]
fn tracker_drain_is_destructive() {
    let mut t = DirtyTracker::new();
    t.mark(3);
    t.mark(1);
    t.mark(2);
    assert_eq!(t.drain(), vec![3, 1, 2]);
    assert_eq!(t.drain(), Vec::<u64>::new());
    assert_eq!(t.dirty_count(), 0);
    assert!(!t.is_dirty(3));
    t.mark(3);
    assert_eq!(t.drain(), vec![3]);
}

#[test]
fn tracker_cache_follows_marks() {
    let mut t = DirtyTracker::new();
    let mut m = Model::default();
    m.set_id(42);
    t.mark(5);
    t.mark(6);
    assert!(t.cache_get(5).is_none());
    t.cache_put(5, Rc::new(m));
    // a rebuilt key is stale no longer
    assert_eq!(t.dirty_list(), vec![6]);
    assert_eq!(t.cache_get(5).unwrap().id(), 42);
    assert!(t.cache_get(6).is_none());
    // marking it again forgets the mesh
    t.mark(5);
    assert!(t.cache_get(5).is_none());
    assert_eq!(t.dirty_list(), vec![6, 5]);
    let mut n = Model::default();
    n.set_id(1);
    t.cache_put(9, Rc::new(n));
    t.cache_clear();
    assert!(t.cache_get(9).is_none());
    assert_eq!(t.dirty_list(), vec![6, 5]);
    t.clear();
    assert_eq!(t.dirty_count(), 0);
}

#[test]
fn set_options_forgets_meshes_only_on_change() {
    let mut store = ChunkedVoxel::default();
    assert_eq!(store.write_options(), WriteOptions::Raw);
    assert_eq!(WriteOptions::default(), WriteOptions::Raw);
    store.add(VoxelIdx::new([1, 1, 1]));
    store.set_options(WriteOptions::Raw);
    assert_eq!(store.dirty_keys().len(), 1);
    store.set_options(WriteOptions::Simplify);
    assert_eq!(store.write_options(), WriteOptions::Simplify);
    assert!(store.dirty_keys().is_empty());
    assert!(store.occupied(VoxelIdx::new([1, 1, 1])));
    assert_eq!(store.ranges(), 0);
    assert_eq!(store.debug1(), 0);
}

#[test]
fn invalidate_cache_keeps_stale_keys() {
    let mut store = ChunkedVoxel::default();
    store.add(VoxelIdx::new([1, 1, 1]));
    let first = store.to_model();
    store.add(VoxelIdx::new([40, 1, 1]));
    store.invalidate_cache();
    assert_eq!(store.dirty_keys(), vec![chunk_idx(VoxelIdx::new([40, 1, 1]))]);
    let second = store.to_model();
    assert_eq!(second.len(), 2);
    // nothing of the first build is handed out again
    assert!(second.iter().all(|m| !Rc::ptr_eq(m, &first[0])));
}

#[test]
fn flags_pick_the_write_options() {
    assert_eq!(WriteOptions::from_flags(0), Some(WriteOptions::Raw));
    assert_eq!(WriteOptions::from_flags(1), Some(WriteOptions::Simplify));
    assert_eq!(WriteOptions::from_flags(2), None);
    assert_eq!(WriteOptions::from_flags(u32::MAX), None);
}

#[test]
fn payload_is_handed_out_for_its_exact_length() {
    let payload = vec![1u8, 2, 3];
    assert_eq!(tdp_tl::stream::payload_for(&payload, 3), Some(&payload[..]));
    assert_eq!(tdp_tl::stream::payload_for(&payload, 2), None);
    assert_eq!(tdp_tl::stream::payload_for(&payload, 4), None);
    assert_eq!(tdp_tl::stream::payload_for(&Vec::new(), 0), Some(&[][..]));
}

#[test]
fn tracker_records_a_write_on_three_faces() {
    let key = |x: i32, y: i32, z: i32| chunk_idx(VoxelIdx::new([x, y, z]));
    let mut t = DirtyTracker::new();
    t.cache_put(key(0, 0, 0), Rc::new(Model::default()));
    t.cache_put(key(32, 0, 0), Rc::new(Model::default()));
    t.cache_put(key(64, 0, 0), Rc::new(Model::default()));
    t.mark_write(VoxelIdx::new([31, 31, 0]));
    assert_eq!(t.dirty_list(), vec![key(0, 0, 0), key(32, 0, 0), key(0, 32, 0), key(0, 0, -32)]);
    assert!(t.cache_get(key(0, 0, 0)).is_none());
    assert!(t.cache_get(key(32, 0, 0)).is_none());
    assert!(t.cache_get(key(64, 0, 0)).is_some());
    t.mark_chunk(VoxelIdx::new([2, 0, 0]));
    assert!(t.cache_get(key(64, 0, 0)).is_none());
    assert_eq!(t.dirty_count(), 5);
}
