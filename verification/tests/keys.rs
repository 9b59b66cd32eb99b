use tdp_tl::{cell_idx, chunk_base, chunk_idx, decode_quad, quad_pack, rem_euclid, VoxelIdx};

fn floor32(v: i32) -> i32 {
    v.div_euclid(32) * 32
}

#[test]
fn chunk_key_packs_three_fields() {
    assert_eq!(chunk_idx(VoxelIdx::new([0, 0, 0])), 0);
    assert_eq!(chunk_idx(VoxelIdx::new([31, 31, 31])), 0);
    assert_eq!(chunk_idx(VoxelIdx::new([32, 0, 0])), 1u64 << 32);
    assert_eq!(chunk_idx(VoxelIdx::new([0, 32, 0])), 1u64 << 16);
    assert_eq!(chunk_idx(VoxelIdx::new([0, 0, 32])), 1);
    assert_eq!(chunk_idx(VoxelIdx::new([64, 96, 128])), (2u64 << 32) | (3u64 << 16) | 4);
}

#[test]
fn chunk_key_sign_extends_negative_chunks() {
    // chunk coordinate -1 packs as 0xffff
    assert_eq!(chunk_idx(VoxelIdx::new([-1, 0, 0])), 0xffffu64 << 32);
    assert_eq!(chunk_idx(VoxelIdx::new([-32, -33, -1])), (0xffffu64 << 32) | (0xfffeu64 << 16) | 0xffff);
    assert_eq!(chunk_base(0xffffu64 << 32), VoxelIdx::new([-32, 0, 0]));
    assert_eq!(
        chunk_base((0xffffu64 << 32) | (0xfffeu64 << 16) | 0xffff),
        VoxelIdx::new([-32, -64, -32])
    );
}

#[test]
fn chunk_base_is_floor_to_multiple_of_32() {
    let samples = [
        [0, 0, 0],
        [1, 2, 3],
        [31, 32, 33],
        [-1, -31, -32],
        [-33, 100, -100],
        [1048575, -1048576, 12345],
        [-999, 777, -31],
    ];
    for s in samples {
        let c = VoxelIdx::new(s);
        let base = chunk_base(chunk_idx(c));
        assert_eq!(base, VoxelIdx::new([floor32(s[0]), floor32(s[1]), floor32(s[2])]));
    }
}

#[test]
fn every_cell_of_a_chunk_has_its_key() {
    for origin in [[0, 0, 0], [-32, 64, -96], [1024, -2048, 32]] {
        let key = chunk_idx(VoxelIdx::new(origin));
        for d in [[0, 0, 0], [31, 31, 31], [5, 17, 30], [31, 0, 0], [0, 31, 0], [0, 0, 31]] {
            let c = VoxelIdx::new([origin[0] + d[0], origin[1] + d[1], origin[2] + d[2]]);
            assert_eq!(chunk_idx(c), key);
        }
        assert_ne!(chunk_idx(VoxelIdx::new([origin[0] + 32, origin[1], origin[2]])), key);
        assert_ne!(chunk_idx(VoxelIdx::new([origin[0], origin[1] - 1, origin[2]])), key);
    }
}

#[test]
fn chunk_key_round_trips_through_base() {
    for s in [[0, 0, 0], [7, -7, 70], [-1, -1, -1], [i32::MAX, i32::MIN, 1 << 20], [-(1 << 20) - 1, 99999, -5]] {
        let key = chunk_idx(VoxelIdx::new(s));
        assert_eq!(chunk_idx(chunk_base(key)), key);
    }
}

#[test]
fn chunk_base_wraps_outside_the_key_range() {
    // 2^20 is the first coordinate whose chunk does not fit 16 signed bits
    let c = VoxelIdx::new([1 << 20, 0, 0]);
    assert_eq!(chunk_base(chunk_idx(c)), VoxelIdx::new([-(1 << 20), 0, 0]));
}

#[test]
fn cell_idx_is_remainder_mod_32() {
    assert_eq!(cell_idx(VoxelIdx::new([0, 31, 32])), [0, 31, 0]);
    assert_eq!(cell_idx(VoxelIdx::new([-1, -32, -33])), [31, 0, 31]);
    assert_eq!(cell_idx(VoxelIdx::new([100, -100, 65])), [4, 28, 1]);
}

#[test]
fn rem_euclid_is_never_negative() {
    assert_eq!(rem_euclid(7, 32), 7);
    assert_eq!(rem_euclid(-1, 32), 31);
    assert_eq!(rem_euclid(-32, 32), 0);
    assert_eq!(rem_euclid(-33, 32), 31);
    assert_eq!(rem_euclid(i32::MIN, 32), 0);
    assert_eq!(rem_euclid(i32::MAX, 32), 31);
    assert_eq!(rem_euclid(-7, 3), 2);
    assert_eq!(rem_euclid(i32::MIN, i32::MAX), i32::MIN.rem_euclid(i32::MAX));
}

#[test]
fn quad_pack_then_unpack_is_identity() {
    for (x, y, z, w, h) in [(0, 0, 0, 0, 0), (63, 63, 63, 63, 63), (1, 2, 3, 4, 5), (32, 0, 17, 1, 1), (0, 63, 0, 63, 0)] {
        let q = quad_pack(x, y, z, w, h);
        let (origin, size) = decode_quad(q);
        assert_eq!(origin, VoxelIdx::new([x as i32, y as i32, z as i32]));
        assert_eq!(size, [w as i32, h as i32]);
    }
}

#[test]
fn quad_layout_is_six_bits_per_field() {
    assert_eq!(quad_pack(1, 0, 0, 0, 0), 1);
    assert_eq!(quad_pack(0, 1, 0, 0, 0), 1 << 6);
    assert_eq!(quad_pack(0, 0, 1, 0, 0), 1 << 12);
    assert_eq!(quad_pack(0, 0, 0, 1, 0), 1 << 18);
    assert_eq!(quad_pack(0, 0, 0, 0, 1), 1 << 24);
    // bits above the five fields are ignored on the way back
    let (origin, size) = decode_quad((7u64 << 32) | quad_pack(3, 4, 5, 6, 7));
    assert_eq!(origin, VoxelIdx::new([3, 4, 5]));
    assert_eq!(size, [6, 7]);
}

#[test]
fn voxel_idx_arithmetic() {
    let a = VoxelIdx::new([1, -2, 3]);
    let b = VoxelIdx::new([10, 20, -30]);
    assert_eq!(a.offset(b), VoxelIdx::new([11, 18, -27]));
    assert_eq!(a.delta(b), VoxelIdx::new([-9, -22, 33]));
    assert_eq!(a.bb_min(&b), VoxelIdx::new([1, -2, -30]));
    assert_eq!(a.bb_max(&b), VoxelIdx::new([10, 20, 3]));
    assert_eq!(a.magnitude_squared(), 14);
    assert_eq!(VoxelIdx::new([i32::MIN, i32::MAX, 0]).magnitude_squared(), (1u64 << 62) + ((1u64 << 31) - 1) * ((1u64 << 31) - 1));
    assert_eq!(VoxelIdx::new([-33, 32, 31]).shift_down(5), VoxelIdx::new([-2, 1, 0]));
    assert_eq!(VoxelIdx::new([-2, 1, 0]).shift_up(5), VoxelIdx::new([-64, 32, 0]));
    assert_eq!(VoxelIdx::unitsize(4), VoxelIdx::new([4, 4, 4]));
    assert_eq!(a.to_array(), [1, -2, 3]);
    assert_eq!(a.xy(), VoxelIdx::new([1, -2, 0]));
    assert_eq!(a.yz(), VoxelIdx::new([0, -2, 3]));
    assert_eq!(a.xz(), VoxelIdx::new([1, 0, 3]));
    assert_eq!(a.x(), VoxelIdx::new([1, 0, 0]));
    assert_eq!(a.y(), VoxelIdx::new([0, -2, 0]));
    assert_eq!(a.z(), VoxelIdx::new([0, 0, 3]));
    // sums wrap
    assert_eq!(VoxelIdx::new([i32::MAX, 0, 0]).offset(VoxelIdx::new([1, 0, 0])), VoxelIdx::new([i32::MIN, 0, 0]));
}
