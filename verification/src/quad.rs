//! Packed quads: an axis-aligned rectangle as five 6-bit fields.
use crate::voxelidx::VoxelIdx;
use vstd::prelude::*;

verus! {

/// The 6-bit field of `quad` that starts at bit `shift`.
pub open spec fn quad_field(quad: u64, shift: u64) -> u64 {
    (quad >> shift) & 0x3f
}

/// The five fields packed into one word: `x` in bits 0 to 5, then `y`, `z`,
/// the width `w` and the height `h`, six bits each.
pub open spec fn quad_pack_spec(x: u64, y: u64, z: u64, w: u64, h: u64) -> u64 {
    (h << 24) | (w << 18) | (z << 12) | (y << 6) | x
}

proof fn lemma_field_range(quad: u64, shift: u64)
    by (bit_vector)
    ensures
        (quad >> shift) & 0x3f <= 63,
{
}

/// Packs a quad. Each field is meant to lie in `0..64`; a larger one spills
/// into the fields above it.
pub fn quad_pack(x: u32, y: u32, z: u32, w: u32, h: u32) -> (quad: u64)
    ensures
        quad == quad_pack_spec(x as u64, y as u64, z as u64, w as u64, h as u64),
{
    ((h as u64) << 24) | ((w as u64) << 18) | ((z as u64) << 12) | ((y as u64) << 6) | (x as u64)
}

/// Unpacks a quad into its origin and its width and height. Bits above the
/// five fields are ignored.
pub fn decode_quad(quad: u64) -> (r: (VoxelIdx, [i32; 2]))
    ensures
        r.0.x == quad_field(quad, 0),
        r.0.y == quad_field(quad, 6),
        r.0.z == quad_field(quad, 12),
        r.1@[0] == quad_field(quad, 18),
        r.1@[1] == quad_field(quad, 24),
        0 <= r.0.x <= 63,
        0 <= r.0.y <= 63,
        0 <= r.0.z <= 63,
        0 <= r.1@[0] <= 63,
        0 <= r.1@[1] <= 63,
{
    proof {
        lemma_field_range(quad, 0);
        lemma_field_range(quad, 6);
        lemma_field_range(quad, 12);
        lemma_field_range(quad, 18);
        lemma_field_range(quad, 24);
    }
    let x = ((quad >> 0u64) & 0x3f) as i32;
    let y = ((quad >> 6u64) & 0x3f) as i32;
    let z = ((quad >> 12u64) & 0x3f) as i32;
    let w = ((quad >> 18u64) & 0x3f) as i32;
    let h = ((quad >> 24u64) & 0x3f) as i32;
    (VoxelIdx { x, y, z }, [w, h])
}

/// Packing five fields, each in `0..64`, and unpacking the result gives
/// every field back.
pub proof fn lemma_quad_roundtrip(x: u64, y: u64, z: u64, w: u64, h: u64)
    by (bit_vector)
    requires
        x <= 63,
        y <= 63,
        z <= 63,
        w <= 63,
        h <= 63,
    ensures
        quad_field(quad_pack_spec(x, y, z, w, h), 0) == x,
        quad_field(quad_pack_spec(x, y, z, w, h), 6) == y,
        quad_field(quad_pack_spec(x, y, z, w, h), 12) == z,
        quad_field(quad_pack_spec(x, y, z, w, h), 18) == w,
        quad_field(quad_pack_spec(x, y, z, w, h), 24) == h,
{
}

} // verus!
