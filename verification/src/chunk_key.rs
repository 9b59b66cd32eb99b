//! Packing of chunk coordinates into a 64-bit key, and positions inside a chunk.
use crate::voxelidx::VoxelIdx;
use vstd::prelude::*;

verus! {

/// The 16-bit field that a coordinate contributes to its chunk's key: the
/// chunk coordinate (the floor of `v / 32`) reduced modulo 2^16.
pub open spec fn key_field(v: int) -> int {
    (v / 32) % 65536
}

/// A 16-bit field read back as a signed chunk coordinate.
pub open spec fn field_coord(f: int) -> int {
    if f >= 32768 {
        f - 65536
    } else {
        f
    }
}

/// The x field of a key: bits 32 to 47.
pub open spec fn key_x(key: u64) -> int {
    (key as int / 0x1_0000_0000) % 65536
}

/// The y field of a key: bits 16 to 31.
pub open spec fn key_y(key: u64) -> int {
    (key as int / 0x1_0000) % 65536
}

/// The z field of a key: bits 0 to 15.
pub open spec fn key_z(key: u64) -> int {
    key as int % 65536
}

/// The key of the chunk that holds `c`: the three fields packed as
/// `x << 32 | y << 16 | z`.
pub open spec fn chunk_key(c: VoxelIdx) -> u64 {
    (key_field(c.x as int) * 0x1_0000_0000 + key_field(c.y as int) * 0x1_0000 + key_field(
        c.z as int,
    )) as u64
}

/// The origin, in lattice coordinates, of the chunk with the given key.
pub open spec fn chunk_origin(key: u64) -> VoxelIdx {
    VoxelIdx {
        x: (field_coord(key_x(key)) * 32) as i32,
        y: (field_coord(key_y(key)) * 32) as i32,
        z: (field_coord(key_z(key)) * 32) as i32,
    }
}

/// The position of `c` inside its chunk.
pub open spec fn cell_slot(c: VoxelIdx) -> (int, int, int) {
    (c.x as int % 32, c.y as int % 32, c.z as int % 32)
}

/// Coordinates whose chunk coordinates fit the key's signed 16-bit fields.
pub open spec fn in_key_range(c: VoxelIdx) -> bool {
    &&& -0x10_0000 <= c.x < 0x10_0000
    &&& -0x10_0000 <= c.y < 0x10_0000
    &&& -0x10_0000 <= c.z < 0x10_0000
}

proof fn lemma_pack_axis(c: i32)
    by (bit_vector)
    ensures
        (((c >> 5u32) as u32) & 0xffffu32) == ((c / 32) as u32) % 65536u32,
        ((c / 32) as u32) % 65536u32 < 65536u32,
{
}

proof fn lemma_pack_fields(x: u64, y: u64, z: u64)
    by (bit_vector)
    requires
        x < 65536,
        y < 65536,
        z < 65536,
    ensures
        (x << 32u64) | (y << 16u64) | z == x * 0x1_0000_0000u64 + y * 0x1_0000u64 + z,
{
}

proof fn lemma_unpack_fields(key: u64)
    by (bit_vector)
    ensures
        (key >> 32u64) & 0xffffu64 == (key / 0x1_0000_0000u64) % 65536u64,
        (key >> 16u64) & 0xffffu64 == (key / 0x1_0000u64) % 65536u64,
        key & 0xffffu64 == key % 65536u64,
{
}

/// The low 16 bits of a signed number equal its remainder modulo 2^16.
proof fn lemma_field_of_coord(q: int)
    requires
        -0x400_0000 <= q < 0x400_0000,
    ensures
        (q as u32) as int % 65536 == q % 65536,
{
    if q >= 0 {
    } else {
        assert((q as u32) as int == q + 0x1_0000_0000) by {
            let c: i32 = q as i32;
            assert((c as u32) as int == c as int + 0x1_0000_0000) by (bit_vector)
                requires
                    c < 0,
            ;
        }
    }
}

fn pack_axis(v: i32) -> (r: u64)
    ensures
        r == key_field(v as int),
{
    let q: i32 = v >> 5u32;
    proof {
        lemma_pack_axis(v);
        assert(v >> 5u32 == v / 32) by (bit_vector);
        assert(q as int == v as int / 32);
        lemma_field_of_coord(q as int);
    }
    ((#[verifier::truncate] (q as u32)) & 0xffffu32) as u64
}

fn unpack_axis(f: u64) -> (r: i32)
    requires
        f < 65536,
    ensures
        r == field_coord(f as int) * 32,
{
    let s: i32 = if f >= 32768 {
        f as i32 - 65536
    } else {
        f as i32
    };
    s * 32
}

/// The key of the chunk that holds `coord`.
pub fn chunk_idx(coord: VoxelIdx) -> (key: u64)
    ensures
        key == chunk_key(coord),
{
    let x = pack_axis(coord.x);
    let y = pack_axis(coord.y);
    let z = pack_axis(coord.z);
    proof {
        lemma_pack_fields(x, y, z);
    }
    (x << 32u64) | (y << 16u64) | z
}

/// The origin of the chunk with the given key: each field read as a signed
/// 16-bit chunk coordinate and multiplied by the chunk's edge length.
pub fn chunk_base(key: u64) -> (base: VoxelIdx)
    ensures
        base == chunk_origin(key),
{
    proof {
        lemma_unpack_fields(key);
    }
    let xpart = (key >> 32u64) & 0xffffu64;
    let ypart = (key >> 16u64) & 0xffffu64;
    let zpart = key & 0xffffu64;
    VoxelIdx { x: unpack_axis(xpart), y: unpack_axis(ypart), z: unpack_axis(zpart) }
}

/// The remainder of `a` divided by `b` that is never negative.
pub fn rem_euclid(a: i32, b: i32) -> (r: i32)
    requires
        b > 0,
    ensures
        r == a as int % b as int,
        0 <= r < b,
{
    if a >= 0 {
        a % b
    } else {
        // a = -(n + 1) with n >= 0, so a mod b = b - 1 - (n mod b)
        let n: i32 = -(a + 1);
        let m: i32 = n % b;
        proof {
            let q = n as int / b as int;
            assert(n as int == b * q + m) by {
                vstd::arithmetic::div_mod::lemma_fundamental_div_mod(n as int, b as int);
            }
            assert(a as int == b * (-q - 1) + (b - 1 - m)) by (nonlinear_arith)
                requires
                    n as int == b * q + m,
                    a as int == -(n as int) - 1,
            ;
            vstd::arithmetic::div_mod::lemma_fundamental_div_mod_converse(
                a as int,
                b as int,
                -q - 1,
                b - 1 - m,
            );
        }
        b - 1 - m
    }
}

/// The position of `coord` inside its chunk, as array indices.
pub fn cell_idx(coord: VoxelIdx) -> (r: [usize; 3])
    ensures
        (r@[0] as int, r@[1] as int, r@[2] as int) == cell_slot(coord),
        r@[0] < 32,
        r@[1] < 32,
        r@[2] < 32,
{
    let x = rem_euclid(coord.x, 32) as usize;
    let y = rem_euclid(coord.y, 32) as usize;
    let z = rem_euclid(coord.z, 32) as usize;
    [x, y, z]
}

proof fn lemma_split_fields(fx: int, fy: int, fz: int)
    requires
        0 <= fx < 65536,
        0 <= fy < 65536,
        0 <= fz < 65536,
    ensures
        ((fx * 0x1_0000_0000 + fy * 0x1_0000 + fz) / 0x1_0000_0000) % 65536 == fx,
        ((fx * 0x1_0000_0000 + fy * 0x1_0000 + fz) / 0x1_0000) % 65536 == fy,
        (fx * 0x1_0000_0000 + fy * 0x1_0000 + fz) % 65536 == fz,
{
    let k = fx * 0x1_0000_0000 + fy * 0x1_0000 + fz;
    vstd::arithmetic::div_mod::lemma_fundamental_div_mod_converse(
        k,
        0x1_0000_0000,
        fx,
        fy * 0x1_0000 + fz,
    );
    vstd::arithmetic::div_mod::lemma_fundamental_div_mod_converse(
        k,
        0x1_0000,
        fx * 0x1_0000 + fy,
        fz,
    );
    vstd::arithmetic::div_mod::lemma_fundamental_div_mod_converse(
        fx * 0x1_0000 + fy,
        0x1_0000,
        fx,
        fy,
    );
    vstd::arithmetic::div_mod::lemma_small_mod(fx as nat, 65536);
}

/// The origin of every chunk lies within a million cells of the lattice's
/// origin, on a multiple of 32.
pub proof fn lemma_origin_bounds(key: u64)
    ensures
        -0x10_0000 <= chunk_origin(key).x <= 0xf_ffe0,
        -0x10_0000 <= chunk_origin(key).y <= 0xf_ffe0,
        -0x10_0000 <= chunk_origin(key).z <= 0xf_ffe0,
        chunk_origin(key).x == field_coord(key_x(key)) * 32,
        chunk_origin(key).y == field_coord(key_y(key)) * 32,
        chunk_origin(key).z == field_coord(key_z(key)) * 32,
{
}

/// The fields of a packed key are the fields it was packed from.
pub proof fn lemma_key_fields(c: VoxelIdx)
    ensures
        key_x(chunk_key(c)) == key_field(c.x as int),
        key_y(chunk_key(c)) == key_field(c.y as int),
        key_z(chunk_key(c)) == key_field(c.z as int),
{
    let fx = key_field(c.x as int);
    let fy = key_field(c.y as int);
    let fz = key_field(c.z as int);
    lemma_split_fields(fx, fy, fz);
    let k = fx * 0x1_0000_0000 + fy * 0x1_0000 + fz;
    assert(0 <= k < 0x1_0000_0000_0000);
    assert(chunk_key(c) as int == k);
}

/// The origin of the chunk of `c` is `c` with every component rounded down
/// to a multiple of 32, for every `c` whose chunk coordinates fit the key.
pub proof fn lemma_chunk_base_of_key(c: VoxelIdx)
    requires
        in_key_range(c),
    ensures
        chunk_origin(chunk_key(c)) == (VoxelIdx {
            x: ((c.x as int / 32) * 32) as i32,
            y: ((c.y as int / 32) * 32) as i32,
            z: ((c.z as int / 32) * 32) as i32,
        }),
{
    lemma_key_fields(c);
}

proof fn lemma_offset_field(v: int, d: int)
    requires
        0 <= d < 32,
    ensures
        key_field((v / 32) * 32 + d) == key_field(v),
        v - 32 < (v / 32) * 32 <= v,
{
    vstd::arithmetic::div_mod::lemma_fundamental_div_mod(v, 32);
    vstd::arithmetic::div_mod::lemma_fundamental_div_mod_converse((v / 32) * 32 + d, 32, v / 32, d);
}

/// Every cell of a chunk has the chunk's key: adding an offset in `0..32`
/// to each component of a chunk's origin leaves the key unchanged.
pub proof fn lemma_chunk_key_of_offsets(c: VoxelIdx, dx: int, dy: int, dz: int)
    requires
        0 <= dx < 32,
        0 <= dy < 32,
        0 <= dz < 32,
    ensures
        chunk_key(
            VoxelIdx {
                x: ((c.x as int / 32) * 32 + dx) as i32,
                y: ((c.y as int / 32) * 32 + dy) as i32,
                z: ((c.z as int / 32) * 32 + dz) as i32,
            },
        ) == chunk_key(c),
{
    lemma_offset_field(c.x as int, dx);
    lemma_offset_field(c.y as int, dy);
    lemma_offset_field(c.z as int, dz);
    let x = (c.x as int / 32) * 32 + dx;
    let y = (c.y as int / 32) * 32 + dy;
    let z = (c.z as int / 32) * 32 + dz;
    assert(i32::MIN <= x <= i32::MAX);
    assert(i32::MIN <= y <= i32::MAX);
    assert(i32::MIN <= z <= i32::MAX);
}

/// Taking the key of a chunk's origin gives the chunk's key back.
pub proof fn lemma_chunk_key_roundtrip(c: VoxelIdx)
    ensures
        chunk_key(chunk_origin(chunk_key(c))) == chunk_key(c),
{
    lemma_key_fields(c);
}

/// A chunk coordinate that fits 16 signed bits is read back from its field.
proof fn lemma_field_coord_inverse(q: int)
    requires
        -32768 <= q < 32768,
    ensures
        field_coord(q % 65536) == q,
{
    if q >= 0 {
        vstd::arithmetic::div_mod::lemma_small_mod(q as nat, 65536);
    } else {
        vstd::arithmetic::div_mod::lemma_fundamental_div_mod_converse(q, 65536, -1, q + 65536);
    }
}

proof fn lemma_coord_injective(a: int, b: int)
    requires
        -0x10_0000 <= a < 0x10_0000,
        -0x10_0000 <= b < 0x10_0000,
        key_field(a) == key_field(b),
        a % 32 == b % 32,
    ensures
        a == b,
{
    lemma_field_coord_inverse(a / 32);
    lemma_field_coord_inverse(b / 32);
    vstd::arithmetic::div_mod::lemma_fundamental_div_mod(a, 32);
    vstd::arithmetic::div_mod::lemma_fundamental_div_mod(b, 32);
}

/// Inside the range that the key can represent, two different cells differ
/// in their chunk's key or in their position inside the chunk.
pub proof fn lemma_slot_injective(a: VoxelIdx, b: VoxelIdx)
    requires
        in_key_range(a),
        in_key_range(b),
        chunk_key(a) == chunk_key(b),
        cell_slot(a) == cell_slot(b),
    ensures
        a == b,
{
    lemma_key_fields(a);
    lemma_key_fields(b);
    lemma_coord_injective(a.x as int, b.x as int);
    lemma_coord_injective(a.y as int, b.y as int);
    lemma_coord_injective(a.z as int, b.z as int);
}

} // verus!
