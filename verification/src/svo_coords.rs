//! Coordinates of the octree backend: a cube of 65536 cells per edge,
//! centred on the lattice's origin.
use crate::voxelidx::VoxelIdx;
use vstd::prelude::*;

verus! {

/// Edge length of the octree's cube.
pub const SIZE: u32 = 65536;

/// What is added to a lattice coordinate to place it in the cube.
pub const OFFSET: u32 = 32768;

/// Whether the cell lies inside the cube: every coordinate from -32768 to
/// 32767.
pub open spec fn in_cube(c: VoxelIdx) -> bool {
    &&& -32768 <= c.x < 32768
    &&& -32768 <= c.y < 32768
    &&& -32768 <= c.z < 32768
}

/// The position of a cell in the cube, or nothing for a cell outside it: a
/// write there is dropped.
pub fn to_voxel_idx(coord: VoxelIdx) -> (r: Option<[u32; 3]>)
    ensures
        r is Some == in_cube(coord),
        r is Some ==> {
            &&& r->0@[0] == coord.x + 32768
            &&& r->0@[1] == coord.y + 32768
            &&& r->0@[2] == coord.z + 32768
        },
{
    let size: i64 = SIZE as i64;
    let offset: i64 = OFFSET as i64;
    let x = coord.x as i64 + offset;
    let y = coord.y as i64 + offset;
    let z = coord.z as i64 + offset;
    if x < 0 || x >= size || y < 0 || y >= size || z < 0 || z >= size {
        None
    } else {
        Some([x as u32, y as u32, z as u32])
    }
}

/// The cell at a position of the cube. Positions beyond the cube wrap.
pub fn from_voxel_idx(coord: [u32; 3]) -> (r: VoxelIdx)
    ensures
        coord@[0] < 65536 ==> r.x == coord@[0] - 32768,
        coord@[1] < 65536 ==> r.y == coord@[1] - 32768,
        coord@[2] < 65536 ==> r.z == coord@[2] - 32768,
        r.x == (#[verifier::truncate] (coord@[0] as i32)).wrapping_sub(32768i32),
        r.y == (#[verifier::truncate] (coord@[1] as i32)).wrapping_sub(32768i32),
        r.z == (#[verifier::truncate] (coord@[2] as i32)).wrapping_sub(32768i32),
{
    let offset: i32 = OFFSET as i32;
    let x = (#[verifier::truncate] (coord[0] as i32)).wrapping_sub(offset);
    let y = (#[verifier::truncate] (coord[1] as i32)).wrapping_sub(offset);
    let z = (#[verifier::truncate] (coord[2] as i32)).wrapping_sub(offset);
    VoxelIdx { x, y, z }
}

} // verus!
