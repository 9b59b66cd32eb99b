use tdp_tl::{deposit_segment, extrude_at, extrude_at_deque, extrude_into, line_cells, ChunkedVoxel, Voxel, VoxelIdx};

fn cells_of(store: &ChunkedVoxel, lo: [i32; 3], hi: [i32; 3]) -> Vec<[i32; 3]> {
    let mut out = Vec::new();
    for x in lo[0]..=hi[0] {
        for y in lo[1]..=hi[1] {
            for z in lo[2]..=hi[2] {
                if store.occupied(VoxelIdx::new([x, y, z])) {
                    out.push([x, y, z]);
                }
            }
        }
    }
    out
}

#[test]
fn zero_budget_touches_nothing() {
    let mut store = ChunkedVoxel::default();
    let mut visited = ChunkedVoxel::default();
    let seeds = [VoxelIdx::new([0, 0, 0]), VoxelIdx::new([1, 0, 0])];
    assert_eq!(extrude_into(&mut store, &mut visited, -5..5, 8, &seeds, 0), 0);
    assert_eq!(store.bounding_box().count(), 0);
    assert_eq!(visited.bounding_box().count(), 0);
    assert!(!visited.occupied(VoxelIdx::new([0, 0, 0])));
    assert!(!store.occupied(VoxelIdx::new([0, 0, 0])));
}

#[test]
fn empty_height_range_deposits_nothing() {
    let mut store = ChunkedVoxel::default();
    let seeds = [VoxelIdx::new([0, 0, 0])];
    assert_eq!(extrude_at(&mut store, 3..3, 8, &seeds, 100), 0);
    assert_eq!(extrude_at(&mut store, 5..-5, 8, &seeds, 100), 0);
    assert_eq!(store.bounding_box().count(), 0);
}

#[test]
fn no_seeds_deposit_nothing() {
    let mut store = ChunkedVoxel::default();
    assert_eq!(extrude_at_deque(&mut store, -5..5, 8, &[], 10), 0);
    assert_eq!(store.bounding_box().count(), 0);
}

#[test]
fn breadth_first_order_from_one_seed() {
    let mut store = ChunkedVoxel::default();
    let seeds = [VoxelIdx::new([0, 0, 0])];
    // the seed, then +z, -z, +x
    assert_eq!(extrude_at(&mut store, -5..5, 3, &seeds, 4), 4);
    assert_eq!(cells_of(&store, [-3, -3, -3], [3, 3, 3]), vec![[0, 0, -1], [0, 0, 0], [0, 0, 1], [1, 0, 0]]);
    // the next call skips what is filled and goes on: -x, +y, -y
    assert_eq!(extrude_at(&mut store, -5..5, 3, &seeds, 3), 3);
    assert_eq!(
        cells_of(&store, [-3, -3, -3], [3, 3, 3]),
        vec![[-1, 0, 0], [0, -1, 0], [0, 0, -1], [0, 0, 0], [0, 0, 1], [0, 1, 0], [1, 0, 0]]
    );
}

#[test]
fn depth_limits_the_reach() {
    let mut store = ChunkedVoxel::default();
    let seeds = [VoxelIdx::new([10, 10, 10])];
    // all cells within two steps: 1 + 6 + 18
    assert_eq!(extrude_at(&mut store, 0..20, 2, &seeds, 1000), 25);
    assert_eq!(store.bounding_box().count(), 25);
    assert_eq!(store.bounding_box().min(), VoxelIdx::new([8, 8, 8]));
    assert_eq!(store.bounding_box().max(), VoxelIdx::new([12, 12, 12]));
    let mut zero = ChunkedVoxel::default();
    assert_eq!(extrude_at(&mut zero, 0..20, 0, &seeds, 1000), 1);
}

#[test]
fn height_range_cuts_the_fill() {
    let mut store = ChunkedVoxel::default();
    let seeds = [VoxelIdx::new([0, 0, 0])];
    // one layer only: the cells within two steps in the plane
    assert_eq!(extrude_at(&mut store, 0..1, 2, &seeds, 1000), 13);
    for c in cells_of(&store, [-3, -3, -3], [3, 3, 3]) {
        assert_eq!(c[2], 0);
    }
    // a seed outside the range is not deposited, its neighbours inside are
    let mut other = ChunkedVoxel::default();
    let high = [VoxelIdx::new([0, 0, 1])];
    assert_eq!(extrude_at(&mut other, 0..1, 1, &high, 1000), 1);
    assert_eq!(cells_of(&other, [-3, -3, -3], [3, 3, 3]), vec![[0, 0, 0]]);
}

#[test]
fn extrude_line_stays_in_its_band() {
    // G1 X5 E0.1 at unit 0.1: the centre line and two offsets on each side
    let mut seeds = Vec::new();
    for y in [0, -1, 1, -1, 1] {
        for x in 0..=50 {
            seeds.push(VoxelIdx::new([x, y, 0]));
        }
    }
    let mut store = ChunkedVoxel::default();
    let placed = extrude_at(&mut store, -2..1, 8, &seeds, 240);
    assert_eq!(placed, 240);
    assert_eq!(store.bounding_box().count(), 240);
    let cells = cells_of(&store, [-10, -10, -10], [60, 10, 10]);
    assert_eq!(cells.len(), 240);
    for c in cells {
        assert!(-2 <= c[2] && c[2] < 1);
        assert!(c[1].abs() <= 2);
    }
    // every seed was deposited
    for s in &seeds {
        assert!(store.occupied(*s));
    }
}

#[test]
fn deposit_segment_reports_what_is_left() {
    let mut store = ChunkedVoxel::default();
    let seeds = [VoxelIdx::new([0, 0, 0])];
    // heights -2, -1, 0; one step of reach: the seed, below it and the four beside it
    assert_eq!(deposit_segment(&mut store, 0, 2, 1, 1, &seeds, 10), 4);
    assert_eq!(store.bounding_box().count(), 6);
    assert!(!store.occupied(VoxelIdx::new([0, 0, 1])));
    assert!(store.occupied(VoxelIdx::new([0, 0, -1])));
    assert_eq!(deposit_segment(&mut store, 0, 2, 1, 1, &seeds, 0), 0);
    assert_eq!(deposit_segment(&mut store, 0, 2, 1, 1, &seeds, 5), 5);
    assert_eq!(store.bounding_box().count(), 6);
}

#[test]
fn line_cells_drops_repeated_samples() {
    let p = |x: i32| VoxelIdx::new([x, 0, 0]);
    let mut cells = vec![VoxelIdx::new([9, 9, 9])];
    line_cells(p(0), &[p(0), p(1), p(1), p(2), p(2), p(2), p(1)], &mut cells);
    assert_eq!(cells, vec![VoxelIdx::new([9, 9, 9]), p(0), p(1), p(2), p(1)]);
    let mut only = Vec::new();
    line_cells(p(5), &[], &mut only);
    assert_eq!(only, vec![p(5)]);
}

#[test]
fn zero_budget_leaves_a_filled_store_as_it_was() {
    let mut store = ChunkedVoxel::default();
    store.add(VoxelIdx::new([3, 4, 5]));
    store.add(VoxelIdx::new([-3, 40, 5]));
    let mut sink = Vec::new();
    tdp_tl::StreamingVoxel::write_dirty(&mut store, 0, &mut sink);
    let seeds = [VoxelIdx::new([100, 100, 0])];
    assert_eq!(extrude_at(&mut store, -5..5, 8, &seeds, 0), 0);
    assert_eq!(extrude_at_deque(&mut store, -5..5, 8, &seeds, 0), 0);
    assert_eq!(deposit_segment(&mut store, 0, 2, 1, 8, &seeds, 0), 0);
    let bb = store.bounding_box();
    assert_eq!(bb.count(), 2);
    assert_eq!(bb.min(), VoxelIdx::new([-3, 4, 5]));
    assert_eq!(bb.max(), VoxelIdx::new([3, 40, 5]));
    assert!(store.dirty_keys().is_empty());
    assert!(!store.occupied(VoxelIdx::new([100, 100, 0])));
}
