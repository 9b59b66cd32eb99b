use fast_surface_nets::ndshape::ConstShape3u32;
use fast_surface_nets::{surface_nets, SurfaceNetsBuffer};
use std::rc::Rc;
use tdp_tl::fsnvoxel::{
    assemble_model, compact_indices, write_model, write_surface_header, write_surface_payload, BuiltMesh,
};
use tdp_tl::{chunk_idx, from_voxel_idx, to_voxel_idx, FSNVoxel, Model, Voxel, VoxelIdx, WriteOptions, CS_P3};

fn key(c: [i32; 3]) -> u64 {
    chunk_idx(VoxelIdx::new(c))
}

#[test]
fn boundary_writes_mark_the_neighbour_chunks() {
    let mut store = FSNVoxel::default();
    store.add(VoxelIdx::new([0, 0, 0]));
    store.add(VoxelIdx::new([31, 0, 0]));
    let dirty = store.dirty_keys();
    assert!(dirty.contains(&key([0, 0, 0])));
    assert!(dirty.contains(&key([32, 0, 0])));
    assert_eq!(
        dirty,
        vec![key([0, 0, 0]), key([-32, 0, 0]), key([0, -32, 0]), key([0, 0, -32]), key([32, 0, 0])]
    );
}

#[test]
fn inner_write_marks_one_chunk() {
    let mut store = FSNVoxel::default();
    store.add(VoxelIdx::new([15, 15, 15]));
    assert_eq!(store.dirty_keys(), vec![key([15, 15, 15])]);
    // a second write to the same chunk and a failed write add nothing
    store.add(VoxelIdx::new([16, 15, 15]));
    assert!(!store.add(VoxelIdx::new([15, 15, 15])));
    assert_eq!(store.dirty_keys().len(), 1);
}

#[test]
fn each_axis_marks_its_own_neighbour() {
    let mut store = FSNVoxel::default();
    store.add(VoxelIdx::new([-40, 63, 100]));
    // x: slot 24, y: slot 31, z: slot 4
    assert_eq!(store.dirty_keys(), vec![key([-40, 63, 100]), key([-40, 64, 100])]);
    let mut low = FSNVoxel::default();
    low.add(VoxelIdx::new([5, 5, 64]));
    assert_eq!(low.dirty_keys(), vec![key([5, 5, 64]), key([5, 5, 63])]);
}

#[test]
fn drain_hands_out_existing_chunks_only() {
    let mut store = FSNVoxel::default();
    store.add(VoxelIdx::new([0, 0, 0]));
    store.add(VoxelIdx::new([-1, 5, 5]));
    assert_eq!(store.drain_dirty(), vec![key([0, 0, 0]), key([-32, 0, 0])]);
    assert_eq!(store.drain_dirty(), Vec::<u64>::new());
    assert!(store.dirty_keys().is_empty());
}

#[test]
fn rebuilt_chunk_is_cached_until_written_again() {
    let mut store = FSNVoxel::default();
    store.add(VoxelIdx::new([5, 5, 5]));
    let k = key([5, 5, 5]);
    assert!(store.cached_model(k).is_none());
    let mut m = Model::default();
    m.set_id(k);
    store.rebuild_model(k, Rc::new(m));
    assert!(store.dirty_keys().is_empty());
    assert_eq!(store.cached_model(k).unwrap().id(), k);
    store.add(VoxelIdx::new([6, 5, 5]));
    assert!(store.cached_model(k).is_none());
    assert_eq!(store.dirty_keys(), vec![k]);
    let mut n = Model::default();
    n.set_id(k);
    store.rebuild_model(k, Rc::new(n));
    store.set_options(WriteOptions::Simplify);
    assert!(store.cached_model(k).is_none());
    assert_eq!(store.write_options(), WriteOptions::Simplify);
    assert_eq!(store.chunk_keys(), vec![k]);
}

#[test]
fn samples_read_across_chunk_faces() {
    let mut store = FSNVoxel::default();
    store.add(VoxelIdx::new([0, 0, 0]));
    store.add(VoxelIdx::new([-1, 0, 0]));
    store.add(VoxelIdx::new([31, 31, 32]));
    let mut out = [7u16; CS_P3];
    store.fill_samples(key([0, 0, 0]), &mut out);
    let at = |x: usize, y: usize, z: usize| x + 34 * y + 1156 * z;
    assert_eq!(out[at(1, 1, 1)], 1);
    assert_eq!(out[at(0, 1, 1)], 1);
    assert_eq!(out[at(32, 32, 33)], 1);
    assert_eq!(out.iter().filter(|v| **v == 1).count(), 3);
    assert_eq!(out.iter().filter(|v| **v == 0).count(), CS_P3 - 3);
    // seen from the neighbour, the same cells sit on the other side
    store.fill_samples(key([-32, 0, 0]), &mut out);
    assert_eq!(out[at(32, 1, 1)], 1);
    assert_eq!(out[at(33, 1, 1)], 1);
    assert_eq!(out.iter().filter(|v| **v == 1).count(), 2);
}

#[test]
fn single_cube_surface_nets() {
    let mut store = FSNVoxel::default();
    store.add(VoxelIdx::new([0, 0, 0]));
    let keys = store.drain_dirty();
    assert_eq!(keys, vec![key([0, 0, 0])]);
    let mut samples = [0u16; CS_P3];
    store.fill_samples(keys[0], &mut samples);
    let sdf: Vec<f32> = samples.iter().map(|s| if *s == 1 { -1.0 } else { 1.0 }).collect();
    let mut mesh = SurfaceNetsBuffer::default();
    surface_nets(&sdf, &ConstShape3u32::<34, 34, 34>, [0; 3], [33; 3], &mut mesh);
    let (order, triangles) = compact_indices(&mesh.indices);
    assert_eq!(order.len(), 8);
    assert_eq!(mesh.positions.len(), 8);
    assert_eq!(mesh.indices.len(), 12 * 3);
    assert_eq!(triangles.len(), 12);
    for t in &triangles {
        for i in t {
            assert!(*i < 8);
        }
    }
}

#[test]
fn empty_chunk_surface_nets() {
    let store = FSNVoxel::default();
    let mut samples = [5u16; CS_P3];
    store.fill_samples(0, &mut samples);
    assert!(samples.iter().all(|s| *s == 0));
    let sdf: Vec<f32> = samples.iter().map(|s| if *s == 1 { -1.0 } else { 1.0 }).collect();
    let mut mesh = SurfaceNetsBuffer::default();
    surface_nets(&sdf, &ConstShape3u32::<34, 34, 34>, [0; 3], [33; 3], &mut mesh);
    let (order, triangles) = compact_indices(&mesh.indices);
    assert!(order.is_empty());
    assert!(triangles.is_empty());
}

#[test]
fn compact_indices_renumbers_by_first_use() {
    let (order, triangles) = compact_indices(&vec![7, 3, 9, 3, 7, 20, 20, 9, 7, 1, 2]);
    assert_eq!(order, vec![7, 3, 9, 20, 1, 2]);
    assert_eq!(triangles, vec![[0, 1, 2], [1, 0, 3], [3, 2, 0]]);
    let (none, empty) = compact_indices(&vec![]);
    assert!(none.is_empty());
    assert!(empty.is_empty());
}

#[test]
fn model_frame_layout() {
    let mut m = Model::default();
    m.set_id(0x0102_0304_0506_0708);
    m.push_raw_vertex([1.0f32.to_bits(), 2.0f32.to_bits(), (-3.5f32).to_bits()]);
    m.push_raw_vertex([0, 0, 0]);
    m.push_raw_normal([0, 1.0f32.to_bits(), 0]);
    m.push_raw_triangle([0, 1, 0]);
    let offset = [16.0f32.to_bits(), 16.0f32.to_bits(), (-16.0f32).to_bits()];
    let mut out = vec![0xeeu8];
    write_model(&m, offset, &mut out);

    let mut expected = vec![0xeeu8];
    expected.extend_from_slice(&0x0102_0304_0506_0708u64.to_le_bytes());
    for v in [16.0f32, 16.0, -16.0] {
        expected.extend_from_slice(&v.to_le_bytes());
    }
    expected.extend_from_slice(&6u32.to_le_bytes());
    for v in [1.0f32, 2.0, -3.5, 0.0, 0.0, 0.0] {
        expected.extend_from_slice(&v.to_le_bytes());
    }
    expected.extend_from_slice(&3u32.to_le_bytes());
    for v in [0.0f32, 1.0, 0.0] {
        expected.extend_from_slice(&v.to_le_bytes());
    }
    expected.extend_from_slice(&3u32.to_le_bytes());
    for i in [0u32, 1, 0] {
        expected.extend_from_slice(&i.to_le_bytes());
    }
    assert_eq!(out, expected);
    assert_eq!(&out[1..9], &[8, 7, 6, 5, 4, 3, 2, 1]);
}

#[test]
fn surface_header_layout() {
    let mut out = Vec::new();
    write_surface_header(0.1f32.to_bits(), 3, &mut out);
    let mut expected = Vec::new();
    expected.extend_from_slice(&1u32.to_le_bytes());
    expected.extend_from_slice(&0.1f32.to_le_bytes());
    expected.extend_from_slice(&3u32.to_le_bytes());
    assert_eq!(out, expected);
}

#[test]
fn octree_cube_coordinates() {
    assert_eq!(to_voxel_idx(VoxelIdx::new([0, 0, 0])), Some([32768, 32768, 32768]));
    assert_eq!(to_voxel_idx(VoxelIdx::new([-32768, 32767, 5])), Some([0, 65535, 32773]));
    assert_eq!(to_voxel_idx(VoxelIdx::new([-32769, 0, 0])), None);
    assert_eq!(to_voxel_idx(VoxelIdx::new([0, 32768, 0])), None);
    assert_eq!(to_voxel_idx(VoxelIdx::new([0, 0, i32::MAX])), None);
    assert_eq!(from_voxel_idx([32768, 0, 65535]), VoxelIdx::new([0, -32768, 32767]));
    for c in [[0, 0, 0], [-1, 1, -32768], [32767, -32768, 12345]] {
        assert_eq!(from_voxel_idx(to_voxel_idx(VoxelIdx::new(c)).unwrap()), VoxelIdx::new(c));
    }
}

#[test]
fn assembled_model_keeps_the_used_vertices() {
    let positions = vec![[10, 11, 12], [20, 21, 22], [30, 31, 32], [40, 41, 42]];
    let normals = vec![[1, 0, 0], [2, 0, 0], [3, 0, 0], [4, 0, 0]];
    let indices = vec![3, 0, 2, 2, 0, 3];
    let k = key([-32, 64, 0]);
    let m = assemble_model(k, &positions, &normals, &indices);
    assert_eq!(m.id(), k);
    assert_eq!(m.offset(), VoxelIdx::new([-16, 80, 16]));
    assert_eq!(m.raw_vertices(), &vec![[40, 41, 42], [10, 11, 12], [30, 31, 32]]);
    assert_eq!(m.raw_normals(), &vec![[4, 0, 0], [1, 0, 0], [3, 0, 0]]);
    assert_eq!(m.raw_triangles(), &vec![[0, 1, 2], [2, 1, 0]]);
    assert_eq!(m.vertex_count(), 0);
    let empty = assemble_model(0, &Vec::new(), &Vec::new(), &Vec::new());
    assert!(empty.raw_vertices().is_empty() && empty.raw_triangles().is_empty());
    assert_eq!(empty.offset(), VoxelIdx::new([16, 16, 16]));
}

#[test]
fn no_triangles_assemble_into_an_empty_model() {
    let positions = vec![[1.0f32.to_bits(), 0, 0], [0, 1.0f32.to_bits(), 0]];
    let normals = vec![[0, 0, 1.0f32.to_bits()], [0, 0, 1.0f32.to_bits()]];
    let key = chunk_idx(VoxelIdx::new([-40, 0, 70]));
    let m = assemble_model(key, &positions, &normals, &vec![]);
    assert_eq!(m.id(), key);
    assert_eq!(m.offset(), VoxelIdx::new([-48, 16, 80]));
    assert!(m.raw_vertices().is_empty());
    assert!(m.raw_normals().is_empty());
    assert!(m.raw_triangles().is_empty());
}

fn triangle_at(key: u64) -> BuiltMesh {
    let positions = vec![[0, 0, 0], [1.0f32.to_bits(), 0, 0], [0, 1.0f32.to_bits(), 0]];
    let normals = vec![[0, 0, 1.0f32.to_bits()]; 3];
    let model = Rc::new(assemble_model(key, &positions, &normals, &vec![0, 1, 2]));
    let o = model.offset().to_array();
    (key, model, [(o[0] as f32).to_bits(), (o[1] as f32).to_bits(), (o[2] as f32).to_bits()])
}

#[test]
fn drained_meshes_are_installed_and_written() {
    let mut store = FSNVoxel::default();
    store.add(VoxelIdx::new([5, 5, 5]));
    store.add(VoxelIdx::new([40, 5, 5]));
    let keys = store.drain_dirty();
    assert_eq!(keys, vec![chunk_idx(VoxelIdx::new([5, 5, 5])), chunk_idx(VoxelIdx::new([40, 5, 5]))]);
    let meshes: Vec<BuiltMesh> = keys.iter().map(|k| triangle_at(*k)).collect();
    let mut out = vec![0x55u8];
    store.write_drained(0.1f32.to_bits(), &meshes, &mut out);

    let mut expected = vec![0x55u8];
    write_surface_header(0.1f32.to_bits(), 2, &mut expected);
    for mesh in &meshes {
        write_model(&mesh.1, mesh.2, &mut expected);
    }
    assert_eq!(out, expected);
    assert_eq!(&out[1..5], &[1, 0, 0, 0]);
    assert_eq!(&out[9..13], &[2, 0, 0, 0]);
    for mesh in &meshes {
        let cached = store.cached_model(mesh.0).unwrap();
        assert!(Rc::ptr_eq(&cached, &mesh.1));
    }
    assert!(store.dirty_keys().is_empty());
}

#[test]
fn second_surface_drain_is_empty() {
    let mut store = FSNVoxel::default();
    store.add(VoxelIdx::new([0, 0, 0]));
    let first = store.drain_dirty();
    assert_eq!(first, vec![chunk_idx(VoxelIdx::new([0, 0, 0]))]);
    let meshes: Vec<BuiltMesh> = first.iter().map(|k| triangle_at(*k)).collect();
    let mut out = Vec::new();
    store.write_drained(7, &meshes, &mut out);
    let second = store.drain_dirty();
    assert!(second.is_empty());
    let mut again = Vec::new();
    store.write_drained(7, &Vec::new(), &mut again);
    assert_eq!(again, vec![1, 0, 0, 0, 7, 0, 0, 0, 0, 0, 0, 0]);
}

#[test]
fn surface_payload_counts_its_meshes() {
    let meshes = vec![triangle_at(0), triangle_at(1), triangle_at(2)];
    let mut out = Vec::new();
    write_surface_payload(3, &meshes, &mut out);
    assert_eq!(&out[0..12], &[1, 0, 0, 0, 3, 0, 0, 0, 3, 0, 0, 0]);
    let one = {
        let mut b = Vec::new();
        write_model(&meshes[0].1, meshes[0].2, &mut b);
        b.len()
    };
    assert_eq!(out.len(), 12 + 3 * one);
}

#[test]
fn a_surface_write_forgets_the_meshes_of_the_marked_chunks() {
    let mut store = FSNVoxel::default();
    store.add(VoxelIdx::new([5, 5, 5]));
    store.add(VoxelIdx::new([40, 5, 5]));
    let keys = store.drain_dirty();
    let meshes: Vec<BuiltMesh> = keys.iter().map(|k| triangle_at(*k)).collect();
    store.write_drained(0, &meshes, &mut Vec::new());
    assert!(store.cached_model(keys[0]).is_some());
    assert!(store.cached_model(keys[1]).is_some());
    // on the high x face of the first chunk: both meshes are stale now
    store.add(VoxelIdx::new([31, 5, 5]));
    assert!(store.cached_model(keys[0]).is_none());
    assert!(store.cached_model(keys[1]).is_none());
    assert_eq!(store.dirty_keys(), keys);
}
