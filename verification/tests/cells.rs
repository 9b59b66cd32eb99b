use tdp_tl::{cell_neighbors, BGMCell, VoxelIdx, CS_P, CS_P2, CS_P3};

fn pad(x: usize, y: usize, z: usize) -> usize {
    (z + 1) + (x + 1) * CS_P + (y + 1) * CS_P2
}

#[test]
fn get_set_clear() {
    let mut cell = BGMCell::default();
    assert!(!cell.get(0, 0, 0));
    cell.set(0, 0, 0);
    cell.set(31, 31, 31);
    cell.set(5, 6, 7);
    assert!(cell.get(0, 0, 0));
    assert!(cell.get(31, 31, 31));
    assert!(cell.get(5, 6, 7));
    assert!(!cell.get(7, 6, 5));
    assert!(!cell.get(5, 6, 8));
    cell.clear(5, 6, 7);
    assert!(!cell.get(5, 6, 7));
    assert!(cell.get(0, 0, 0));
    // setting twice and clearing an empty cell change nothing
    cell.set(0, 0, 0);
    cell.clear(1, 1, 1);
    assert!(cell.get(0, 0, 0));
    assert!(!cell.get(1, 1, 1));
}

#[test]
fn clone_keeps_the_cells() {
    let mut cell = BGMCell::default();
    cell.set(1, 2, 3);
    let copy = cell.clone();
    cell.clear(1, 2, 3);
    assert!(copy.get(1, 2, 3));
    assert!(!cell.get(1, 2, 3));
}

#[test]
fn fill_bgm_copies_bits_and_keeps_the_halo() {
    let mut cell = BGMCell::default();
    cell.set(0, 0, 0);
    cell.set(31, 0, 0);
    cell.set(3, 4, 5);
    let mut voxels = [7u16; CS_P3];
    cell.fill_bgm(&mut voxels, 0);
    assert_eq!(voxels[pad(0, 0, 0)], 1);
    assert_eq!(voxels[pad(31, 0, 0)], 1);
    assert_eq!(voxels[pad(3, 4, 5)], 1);
    assert_eq!(voxels[pad(5, 4, 3)], 0);
    // halo untouched
    assert_eq!(voxels[0], 7);
    assert_eq!(voxels[CS_P3 - 1], 7);
    assert_eq!(voxels[pad(0, 0, 0) - 1], 7);
    let ones = voxels.iter().filter(|v| **v == 1).count();
    let zeros = voxels.iter().filter(|v| **v == 0).count();
    assert_eq!(ones, 3);
    assert_eq!(zeros, 32 * 32 * 32 - 3);
}

#[test]
fn fill_bgm_applies_the_xor_mask() {
    let mut cell = BGMCell::default();
    cell.set(1, 1, 1);
    let mut voxels = [0u16; CS_P3];
    cell.fill_bgm(&mut voxels, 2);
    assert_eq!(voxels[pad(1, 1, 1)], 3);
    assert_eq!(voxels[pad(1, 1, 2)], 2);
    assert_eq!(voxels[0], 0);
}

fn hollow_box() -> BGMCell {
    let mut cell = BGMCell::default();
    for x in 10..15 {
        for y in 10..15 {
            for z in 10..15 {
                let inside = (11..14).contains(&x) && (11..14).contains(&y) && (11..14).contains(&z);
                if !inside {
                    cell.set(x, y, z);
                }
            }
        }
    }
    cell
}

#[test]
fn fill_solid_closes_enclosed_voids() {
    let cell = hollow_box();
    assert!(!cell.get(12, 12, 12));
    let mut voxels = [9u16; CS_P3];
    cell.fill_bgm_solid(&mut voxels);
    // shell and enclosed void are solid, the rest is empty
    let ones = voxels.iter().filter(|v| **v == 1).count();
    let zeros = voxels.iter().filter(|v| **v == 0).count();
    assert_eq!(ones, 125);
    assert_eq!(zeros, CS_P3 - 125);
    assert_eq!(voxels[pad(12, 12, 12)], 1);
    assert_eq!(voxels[pad(10, 10, 10)], 1);
    assert_eq!(voxels[pad(9, 12, 12)], 0);
    assert_eq!(voxels[0], 0);
    assert_eq!(voxels[CS_P3 - 1], 0);
}

#[test]
fn fill_solid_leaves_open_cavities_open() {
    let mut cell = hollow_box();
    // drill a hole through the wall
    cell.clear(12, 12, 14);
    let mut voxels = [0u16; CS_P3];
    cell.fill_bgm_solid(&mut voxels);
    let ones = voxels.iter().filter(|v| **v == 1).count();
    assert_eq!(ones, 125 - 27 - 1);
    assert_eq!(voxels[pad(12, 12, 12)], 0);
}

#[test]
fn fill_solid_twice_gives_the_same_buffer() {
    let cell = hollow_box();
    let mut once = [0u16; CS_P3];
    cell.fill_bgm_solid(&mut once);
    let mut twice = once;
    cell.fill_bgm_solid(&mut twice);
    assert!(once == twice);
    // closing the voids of the closed chunk changes nothing either
    let mut closed = BGMCell::default();
    for x in 0..32 {
        for y in 0..32 {
            for z in 0..32 {
                if once[pad(x, y, z)] == 1 {
                    closed.set(x, y, z);
                }
            }
        }
    }
    let mut again = [5u16; CS_P3];
    closed.fill_bgm_solid(&mut again);
    assert!(once == again);
}

#[test]
fn fill_solid_of_a_full_chunk() {
    let mut cell = BGMCell::default();
    for x in 0..32 {
        for y in 0..32 {
            for z in 0..32 {
                cell.set(x, y, z);
            }
        }
    }
    let mut voxels = [0u16; CS_P3];
    cell.fill_bgm_solid(&mut voxels);
    assert_eq!(voxels.iter().filter(|v| **v == 1).count(), 32 * 32 * 32);
    assert_eq!(voxels.iter().filter(|v| **v == 0).count(), CS_P3 - 32 * 32 * 32);
}

#[test]
fn neighbors_inside_and_at_the_faces() {
    let inner = cell_neighbors(VoxelIdx::new([5, 6, 7]));
    assert_eq!(
        inner,
        vec![
            VoxelIdx::new([4, 6, 7]),
            VoxelIdx::new([6, 6, 7]),
            VoxelIdx::new([5, 5, 7]),
            VoxelIdx::new([5, 7, 7]),
            VoxelIdx::new([5, 6, 6]),
            VoxelIdx::new([5, 6, 8]),
        ]
    );
    let corner = cell_neighbors(VoxelIdx::new([0, 0, 0]));
    assert_eq!(corner, vec![VoxelIdx::new([1, 0, 0]), VoxelIdx::new([0, 1, 0]), VoxelIdx::new([0, 0, 1])]);
    let far = cell_neighbors(VoxelIdx::new([31, 31, 31]));
    assert_eq!(far, vec![VoxelIdx::new([30, 31, 31]), VoxelIdx::new([31, 30, 31]), VoxelIdx::new([31, 31, 30])]);
}

#[test]
fn neighbors_sum_counts_filled_face_neighbours() {
    let mut cell = BGMCell::default();
    cell.set(5, 5, 5);
    cell.set(4, 5, 5);
    cell.set(5, 6, 5);
    cell.set(5, 5, 4);
    cell.set(6, 6, 6);
    assert_eq!(cell.neighbors_sum(VoxelIdx::new([5, 5, 5])), 3);
    assert_eq!(cell.neighbors_sum(VoxelIdx::new([5, 6, 6])), 2);
    assert_eq!(cell.neighbors_sum(VoxelIdx::new([0, 0, 0])), 0);
    assert_eq!(cell.neighbors_sum(VoxelIdx::new([20, 20, 20])), 0);
}

#[test]
fn simplify_removes_a_lonely_cell() {
    let mut cell = BGMCell::default();
    cell.set(8, 8, 8);
    assert_eq!(cell.simplify(), 1);
    assert!(!cell.get(8, 8, 8));
    assert_eq!(cell.simplify(), 0);
}

#[test]
fn simplify_keeps_a_block() {
    let mut cell = BGMCell::default();
    for x in 4..6 {
        for y in 4..6 {
            for z in 4..6 {
                cell.set(x, y, z);
            }
        }
    }
    // every cell of a 2x2x2 block has exactly three filled neighbours
    assert_eq!(cell.simplify(), 0);
    for x in 4..6 {
        for y in 4..6 {
            for z in 4..6 {
                assert!(cell.get(x, y, z));
            }
        }
    }
}

#[test]
fn simplify_fills_a_pit_and_erodes_a_spike() {
    let mut cell = BGMCell::default();
    for x in 4..8 {
        for y in 4..8 {
            for z in 4..8 {
                cell.set(x, y, z);
            }
        }
    }
    // a pit in the middle of the top face: five filled neighbours
    cell.clear(5, 5, 7);
    // a spike on the bottom face: one filled neighbour
    cell.set(6, 6, 3);
    let mutations = cell.simplify();
    assert_eq!(mutations, 2);
    assert!(cell.get(5, 5, 7));
    assert!(!cell.get(6, 6, 3));
    let mut count = 0;
    for x in 0..32 {
        for y in 0..32 {
            for z in 0..32 {
                if cell.get(x, y, z) {
                    count += 1;
                }
            }
        }
    }
    assert_eq!(count, 64);
}

#[test]
fn empty_chunk_stays_empty() {
    let mut cell = BGMCell::default();
    assert_eq!(cell.simplify(), 0);
    let mut voxels = [1u16; CS_P3];
    cell.fill_bgm_solid(&mut voxels);
    assert!(voxels.iter().all(|v| *v == 0));
}
