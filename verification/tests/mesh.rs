use std::rc::Rc;
use tdp_tl::mesher::quads_into_model;
use tdp_tl::stream::{write_cell, write_cell0, write_quads};
use tdp_tl::{chunk_idx, quad_pack, BGMCell, ChunkedVoxel, Model, StreamingVoxel, Voxel, VoxelIdx, WriteOptions, CS_P3};

fn u32_at(bytes: &[u8], at: usize) -> u32 {
    u32::from_le_bytes([bytes[at], bytes[at + 1], bytes[at + 2], bytes[at + 3]])
}

fn unit_cube_quads() -> [u32; 6] {
    [
        quad_pack(0, 1, 0, 1, 1) as u32,
        quad_pack(1, 0, 0, 1, 1) as u32,
        quad_pack(1, 1, 0, 1, 1) as u32,
        quad_pack(0, 0, 0, 1, 1) as u32,
        quad_pack(1, 0, 1, 1, 1) as u32,
        quad_pack(0, 0, 0, 1, 1) as u32,
    ]
}

#[test]
fn add_vert_shares_vertices() {
    let mut m = Model::default();
    assert_eq!(m.add_vert(VoxelIdx::new([1, 2, 3])), 0);
    assert_eq!(m.add_vert(VoxelIdx::new([4, 5, 6])), 1);
    assert_eq!(m.add_vert(VoxelIdx::new([1, 2, 3])), 0);
    assert_eq!(m.add_vert(VoxelIdx::new([3, 2, 1])), 2);
    assert_eq!(m.vertex_count(), 3);
    assert_eq!(m.vertices(), vec![(1, 2, 3), (4, 5, 6), (3, 2, 1)]);
}

#[test]
fn add_face_picks_the_plane_from_the_zero_component() {
    let mut m = Model::default();
    m.add_face(VoxelIdx::new([0, 0, 0]), VoxelIdx::new([0, 2, 3]));
    assert_eq!(m.vertices(), vec![(0, 0, 0), (0, 2, 0), (0, 2, 3), (0, 0, 3)]);
    m.add_face(VoxelIdx::new([0, 0, 0]), VoxelIdx::new([2, 0, 3]));
    m.add_face(VoxelIdx::new([0, 0, 0]), VoxelIdx::new([2, 3, 0]));
    assert_eq!(
        m.vertices(),
        vec![(0, 0, 0), (0, 2, 0), (0, 2, 3), (0, 0, 3), (2, 0, 0), (2, 0, 3), (2, 3, 0), (0, 3, 0)]
    );
    assert_eq!(m.faces(), &vec![[0, 1, 2, 3], [0, 4, 5, 3], [0, 4, 6, 7]]);
}

#[test]
fn add_cube_makes_five_faces_over_eight_corners() {
    let mut m = Model::default();
    m.add_cube(VoxelIdx::new([10, 20, 30]));
    assert_eq!(m.faces().len(), 5);
    let mut v = m.vertices();
    v.sort();
    assert_eq!(
        v,
        vec![
            (10, 20, 30),
            (10, 20, 31),
            (10, 21, 30),
            (10, 21, 31),
            (11, 20, 30),
            (11, 20, 31),
            (11, 21, 30),
            (11, 21, 31)
        ]
    );
    let mut big = Model::default();
    big.add_cube_size(VoxelIdx::new([0, 0, 0]), 4);
    assert_eq!(big.vertex_count(), 8);
    assert!(big.vertices().contains(&(4, 4, 4)));
    assert_eq!(big.faces()[0], [0, 1, 2, 3]);
}

#[test]
fn model_fields() {
    let mut m = Model::default();
    assert_eq!(m.id(), 0);
    assert_eq!(m.offset(), VoxelIdx::new([0, 0, 0]));
    m.set_id(9);
    m.set_offset(VoxelIdx::new([1, 2, 3]));
    m.push_raw_vertex([1, 2, 3]);
    m.push_raw_normal([4, 5, 6]);
    m.push_raw_triangle([0, 0, 0]);
    assert_eq!(m.id(), 9);
    assert_eq!(m.offset(), VoxelIdx::new([1, 2, 3]));
    assert_eq!(m.raw_vertices(), &vec![[1, 2, 3]]);
    assert_eq!(m.raw_normals(), &vec![[4, 5, 6]]);
    assert_eq!(m.raw_triangles(), &vec![[0, 0, 0]]);
}

#[test]
fn quads_become_faces_side_by_side() {
    let quads: Vec<Vec<u64>> = vec![
        vec![quad_pack(0, 1, 0, 1, 1)],
        vec![quad_pack(1, 0, 0, 1, 1)],
        vec![],
        vec![quad_pack(0, 0, 0, 2, 3), quad_pack(5, 5, 5, 1, 1)],
        vec![],
        vec![],
    ];
    let mut m = Model::default();
    assert_eq!(quads_into_model(&quads, &mut m), 4);
    assert_eq!(m.faces().len(), 4);
    let v = m.vertices();
    // up: spans x and z at the quad's origin
    assert_eq!(&v[0..4], &[(0, 1, 0), (1, 1, 0), (1, 1, 1), (0, 1, 1)]);
    // down: width runs against x
    assert_eq!(&v[4..8], &[(1, 0, 0), (0, 0, 0), (0, 0, 1), (1, 0, 1)]);
    // left: width along y, height along z
    assert_eq!(&v[8..11], &[(0, 2, 0), (0, 2, 3), (0, 0, 3)]);
    assert_eq!(m.faces()[2], [5, 8, 9, 10]);
}

#[test]
fn single_cell_meshes_into_a_unit_cube() {
    let mut cell = BGMCell::default();
    cell.set(0, 0, 0);
    let mut voxels = [0u16; CS_P3];
    let mut model = Model::default();
    let count = cell.to_model(&mut voxels, &mut model);
    assert_eq!(count, 6);
    assert_eq!(model.faces().len(), 6);
    let mut v = model.vertices();
    v.sort();
    assert_eq!(
        v,
        vec![(0, 0, 0), (0, 0, 1), (0, 1, 0), (0, 1, 1), (1, 0, 0), (1, 0, 1), (1, 1, 0), (1, 1, 1)]
    );
}

#[test]
fn isolated_cell_anywhere_meshes_into_six_unit_quads() {
    for p in [(5usize, 6usize, 7usize), (31, 31, 31), (0, 31, 16)] {
        let mut cell = BGMCell::default();
        cell.set(p.0, p.1, p.2);
        let mut voxels = [0u16; CS_P3];
        let mut model = Model::default();
        assert_eq!(cell.to_model(&mut voxels, &mut model), 6);
        let mut v = model.vertices();
        v.sort();
        let mut expected = Vec::new();
        for dx in 0..2 {
            for dy in 0..2 {
                for dz in 0..2 {
                    expected.push((p.0 as i32 + dx, p.1 as i32 + dy, p.2 as i32 + dz));
                }
            }
        }
        expected.sort();
        assert_eq!(v, expected);
    }
}

#[test]
fn merged_block_meshes_into_six_quads() {
    let mut cell = BGMCell::default();
    for x in 2..6 {
        for y in 3..5 {
            for z in 1..4 {
                cell.set(x, y, z);
            }
        }
    }
    let mut voxels = [0u16; CS_P3];
    let mut model = Model::default();
    assert_eq!(cell.to_model(&mut voxels, &mut model), 6);
    assert_eq!(model.vertex_count(), 8);
    let v = model.vertices();
    assert!(v.contains(&(2, 3, 1)));
    assert!(v.contains(&(6, 5, 4)));
}

#[test]
fn empty_chunk_meshes_into_nothing() {
    let cell = BGMCell::default();
    let mut voxels = [3u16; CS_P3];
    let mut model = Model::default();
    assert_eq!(cell.to_model(&mut voxels, &mut model), 0);
    assert_eq!(model.vertex_count(), 0);
    assert!(model.faces().is_empty());
}

#[test]
fn single_cube_at_origin_streams_one_chunk() {
    let mut store = ChunkedVoxel::default();
    assert!(store.add(VoxelIdx::new([0, 0, 0])));
    let unit = 0x3dcc_cccdu32;
    let mut payload = Vec::new();
    store.write_dirty(unit, &mut payload);

    let mut expected: Vec<u8> = Vec::new();
    expected.extend_from_slice(&2u32.to_le_bytes());
    expected.extend_from_slice(&unit.to_le_bytes());
    expected.extend_from_slice(&1u32.to_le_bytes());
    expected.extend_from_slice(&chunk_idx(VoxelIdx::new([0, 0, 0])).to_le_bytes());
    for _ in 0..3 {
        expected.extend_from_slice(&0i32.to_le_bytes());
    }
    for quad in unit_cube_quads() {
        expected.extend_from_slice(&1u32.to_le_bytes());
        expected.extend_from_slice(&quad.to_le_bytes());
    }
    assert_eq!(payload, expected);
}

#[test]
fn second_drain_is_empty() {
    let mut store = ChunkedVoxel::default();
    store.add(VoxelIdx::new([3, 3, 3]));
    store.add(VoxelIdx::new([40, 3, 3]));
    let mut first = Vec::new();
    store.write_dirty(7, &mut first);
    assert_eq!(u32_at(&first, 8), 2);
    let mut second = vec![0xaa];
    store.write_dirty(7, &mut second);
    assert_eq!(second, vec![0xaa, 2, 0, 0, 0, 7, 0, 0, 0, 0, 0, 0, 0]);
    assert!(store.dirty_keys().is_empty());
    // a new write makes its chunk stale again
    store.add(VoxelIdx::new([41, 3, 3]));
    let mut third = Vec::new();
    store.write_dirty(7, &mut third);
    assert_eq!(u32_at(&third, 8), 1);
}

#[test]
fn chunk_head_holds_key_and_signed_origin() {
    let mut cell = BGMCell::default();
    cell.set(0, 0, 0);
    let key = chunk_idx(VoxelIdx::new([-32, 64, -1]));
    let mut out = Vec::new();
    write_cell0(key, &cell, &mut out);
    assert_eq!(&out[0..8], &key.to_le_bytes());
    assert_eq!(&out[8..12], &(-32i32).to_le_bytes());
    assert_eq!(&out[12..16], &64i32.to_le_bytes());
    assert_eq!(&out[16..20], &(-32i32).to_le_bytes());
    assert_eq!(out.len(), 20 + 6 * 8);
    assert_eq!(u32_at(&out, 20), 1);
    assert_eq!(u32_at(&out, 24), unit_cube_quads()[0]);
}

#[test]
fn write_quads_frames_each_side() {
    let quads: Vec<Vec<u64>> = vec![
        vec![0x0000_0007_0102_0304, 5],
        vec![],
        vec![0xffff_ffff],
        vec![],
        vec![],
        vec![1, 2, 3],
    ];
    let mut out = vec![9u8];
    write_quads(&quads, &mut out);
    let mut expected = vec![9u8];
    for side in &quads {
        expected.extend_from_slice(&(side.len() as u32).to_le_bytes());
        for q in side {
            expected.extend_from_slice(&(*q as u32).to_le_bytes());
        }
    }
    assert_eq!(out, expected);
    assert_eq!(&out[5..9], &[0x04, 0x03, 0x02, 0x01]);
}

#[test]
fn simplify_option_smooths_before_writing() {
    let mut cell = BGMCell::default();
    for x in 4..6 {
        for y in 4..6 {
            for z in 4..6 {
                cell.set(x, y, z);
            }
        }
    }
    // a spike that smoothing removes
    cell.set(10, 10, 10);
    let mut raw = Vec::new();
    write_cell(0, &cell, &mut raw, WriteOptions::Raw);
    let mut smooth = Vec::new();
    write_cell(0, &cell, &mut smooth, WriteOptions::Simplify);
    // raw: two boxes, one quad per side each; smoothed: one box
    assert_eq!(raw.len(), 20 + 6 * (4 + 2 * 4));
    assert_eq!(smooth.len(), 20 + 6 * (4 + 4));
    // the chunk itself is not changed by writing
    assert!(cell.get(10, 10, 10));
}

#[test]
fn to_model_meshes_every_chunk_once() {
    let mut store = ChunkedVoxel::default();
    store.add(VoxelIdx::new([0, 0, 0]));
    store.add(VoxelIdx::new([-1, 0, 0]));
    store.add(VoxelIdx::new([100, 100, 100]));
    let models = store.to_model();
    assert_eq!(models.len(), 3);
    let mut offsets: Vec<[i32; 3]> = models.iter().map(|m| m.offset().to_array()).collect();
    offsets.sort();
    assert_eq!(offsets, vec![[-32, 0, 0], [0, 0, 0], [96, 96, 96]]);
    for m in &models {
        assert_eq!(m.faces().len(), 6);
        assert_eq!(m.vertex_count(), 8);
    }
    // what stays stale are the keys beyond the faces that have no chunk
    let key = |x: i32, y: i32, z: i32| chunk_idx(VoxelIdx::new([x, y, z]));
    assert_eq!(
        store.dirty_keys(),
        vec![key(0, -32, 0), key(0, 0, -32), key(-32, -32, 0), key(-32, 0, -32)]
    );
    // cached meshes are handed out again
    let again = store.to_model();
    assert_eq!(again.len(), 3);
    let first = models.iter().find(|m| m.offset().to_array() == [0, 0, 0]).unwrap();
    let second = again.iter().find(|m| m.offset().to_array() == [0, 0, 0]).unwrap();
    assert!(Rc::ptr_eq(first, second));
    // a write makes the chunk's mesh stale
    store.add(VoxelIdx::new([1, 0, 0]));
    let third = store.to_model();
    let fresh = third.iter().find(|m| m.offset().to_array() == [0, 0, 0]).unwrap();
    assert!(!Rc::ptr_eq(first, fresh));
    assert_eq!(fresh.vertex_count(), 8);
    assert!(fresh.vertices().contains(&(2, 1, 1)));
}

#[test]
fn write_binary_lists_every_chunk() {
    let mut store = ChunkedVoxel::default();
    store.add(VoxelIdx::new([0, 0, 0]));
    store.add(VoxelIdx::new([64, 0, 0]));
    let mut out = Vec::new();
    store.write_binary(&mut out);
    assert_eq!(u32_at(&out, 0), 2);
    assert_eq!(u32_at(&out, 4), 2);
    assert_eq!(out.len(), 8 + 2 * (20 + 6 * 8));
    let k1 = u64::from_le_bytes(out[8..16].try_into().unwrap());
    let k2 = u64::from_le_bytes(out[76..84].try_into().unwrap());
    let mut keys = vec![k1, k2];
    keys.sort();
    assert_eq!(keys, vec![0, 2u64 << 32]);
    // writing the whole store leaves the stale keys alone
    assert_eq!(store.dirty_keys().len(), 8);
}

#[test]
fn single_cell_gives_six_faces_over_the_eight_cube_corners() {
    for p in [(0usize, 0usize, 0usize), (5, 6, 7), (31, 31, 31)] {
        let (x, y, z) = (p.0 as i32, p.1 as i32, p.2 as i32);
        let mut cell = BGMCell::default();
        cell.set(p.0, p.1, p.2);
        let mut voxels = [0u16; CS_P3];
        let mut model = Model::default();
        assert_eq!(cell.to_model(&mut voxels, &mut model), 6);
        assert_eq!(
            model.vertices(),
            vec![
                (x, y + 1, z),
                (x + 1, y + 1, z),
                (x + 1, y + 1, z + 1),
                (x, y + 1, z + 1),
                (x + 1, y, z),
                (x, y, z),
                (x, y, z + 1),
                (x + 1, y, z + 1),
            ]
        );
        let faces: Vec<[usize; 4]> =
            vec![[0, 1, 2, 3], [4, 5, 6, 7], [1, 4, 7, 2], [5, 0, 3, 6], [7, 6, 3, 2], [5, 4, 1, 0]];
        assert_eq!(model.faces(), &faces);
    }
}
