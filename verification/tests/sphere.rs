use tdp_tl::{ChunkedVoxel, StreamingVoxel, Voxel, VoxelIdx};

#[test]
fn sphere_of_radius_100() {
    let size = 100i32;
    let mut store = ChunkedVoxel::default();
    let mut added = 0usize;
    for z in -size..=size {
        for y in -size..=size {
            for x in -size..=size {
                if x * x + y * y + z * z < size * size {
                    if store.add(VoxelIdx::new([x, y, z])) {
                        added += 1;
                    }
                }
            }
        }
    }
    // the number of lattice points strictly inside the sphere
    assert_eq!(added, 4187707);
    assert_eq!(store.bounding_box().count(), 4187707);
    assert_eq!(store.bounding_box().min(), VoxelIdx::new([-99, -99, -99]));
    assert_eq!(store.bounding_box().max(), VoxelIdx::new([99, 99, 99]));

    let mut payload = Vec::new();
    store.write_dirty(0, &mut payload);
    let word = |at: usize| u32::from_le_bytes([payload[at], payload[at + 1], payload[at + 2], payload[at + 3]]);
    assert_eq!(word(0), 2);
    let chunks = word(8) as usize;
    // chunks -4..=3 on every axis, less those that the sphere misses
    assert!(chunks > 0 && chunks <= 512);
    let mut at = 12;
    let mut per_side = [0usize; 6];
    for _ in 0..chunks {
        at += 8 + 12;
        for side in 0..6 {
            let n = word(at) as usize;
            per_side[side] += n;
            at += 4 + 4 * n;
        }
    }
    assert_eq!(at, payload.len());
    for side in 0..6 {
        assert!(per_side[side] > 0);
    }
}
