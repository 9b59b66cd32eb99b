//! Integer lattice coordinates.
use vstd::prelude::*;

verus! {

/// A cell of the voxel lattice: three signed 32-bit coordinates.
///
/// Sums and differences wrap on overflow, so every operation is total.
#[derive(Clone, Copy, Debug, PartialEq, Eq, Hash, Structural)]
pub struct VoxelIdx {
    pub x: i32,
    pub y: i32,
    pub z: i32,
}

/// The smaller of two integers.
pub open spec fn min_int(a: int, b: int) -> int {
    if a <= b {
        a
    } else {
        b
    }
}

/// The larger of two integers.
pub open spec fn max_int(a: int, b: int) -> int {
    if a >= b {
        a
    } else {
        b
    }
}

impl VoxelIdx {
    /// Componentwise wrapping sum.
    pub open spec fn spec_offset(self, d: VoxelIdx) -> VoxelIdx {
        VoxelIdx {
            x: self.x.wrapping_add(d.x),
            y: self.y.wrapping_add(d.y),
            z: self.z.wrapping_add(d.z),
        }
    }

    /// Componentwise wrapping difference.
    pub open spec fn spec_delta(self, o: VoxelIdx) -> VoxelIdx {
        VoxelIdx {
            x: self.x.wrapping_sub(o.x),
            y: self.y.wrapping_sub(o.y),
            z: self.z.wrapping_sub(o.z),
        }
    }

    /// Componentwise minimum.
    pub open spec fn spec_bb_min(self, o: VoxelIdx) -> VoxelIdx {
        VoxelIdx {
            x: min_int(self.x as int, o.x as int) as i32,
            y: min_int(self.y as int, o.y as int) as i32,
            z: min_int(self.z as int, o.z as int) as i32,
        }
    }

    /// Componentwise maximum.
    pub open spec fn spec_bb_max(self, o: VoxelIdx) -> VoxelIdx {
        VoxelIdx {
            x: max_int(self.x as int, o.x as int) as i32,
            y: max_int(self.y as int, o.y as int) as i32,
            z: max_int(self.z as int, o.z as int) as i32,
        }
    }

    /// `self` lies componentwise between `lo` and `hi`, both included.
    pub open spec fn within(self, lo: VoxelIdx, hi: VoxelIdx) -> bool {
        &&& lo.x <= self.x <= hi.x
        &&& lo.y <= self.y <= hi.y
        &&& lo.z <= self.z <= hi.z
    }

    /// Sum of the squared components.
    pub open spec fn spec_magnitude_squared(self) -> int {
        self.x * self.x + self.y * self.y + self.z * self.z
    }

    /// The cell with the coordinates `idx`, in x, y, z order.
    pub fn new(idx: [i32; 3]) -> (r: VoxelIdx)
        ensures
            r.x == idx@[0],
            r.y == idx@[1],
            r.z == idx@[2],
    {
        VoxelIdx { x: idx[0], y: idx[1], z: idx[2] }
    }

    /// The three coordinates in x, y, z order.
    pub fn to_array(self) -> (r: [i32; 3])
        ensures
            r@[0] == self.x,
            r@[1] == self.y,
            r@[2] == self.z,
    {
        [self.x, self.y, self.z]
    }

    /// The cell with all three coordinates equal to `size`.
    pub fn unitsize(size: i32) -> (r: VoxelIdx)
        ensures
            r == (VoxelIdx { x: size, y: size, z: size }),
    {
        VoxelIdx { x: size, y: size, z: size }
    }

    /// Componentwise sum; each component wraps on overflow.
    pub fn offset(self, d: VoxelIdx) -> (r: VoxelIdx)
        ensures
            r == self.spec_offset(d),
            (i32::MIN <= self.x + d.x <= i32::MAX) ==> r.x == self.x + d.x,
            (i32::MIN <= self.y + d.y <= i32::MAX) ==> r.y == self.y + d.y,
            (i32::MIN <= self.z + d.z <= i32::MAX) ==> r.z == self.z + d.z,
    {
        VoxelIdx {
            x: self.x.wrapping_add(d.x),
            y: self.y.wrapping_add(d.y),
            z: self.z.wrapping_add(d.z),
        }
    }

    /// Componentwise difference; each component wraps on overflow.
    pub fn delta(self, o: VoxelIdx) -> (r: VoxelIdx)
        ensures
            r == self.spec_delta(o),
            (i32::MIN <= self.x - o.x <= i32::MAX) ==> r.x == self.x - o.x,
            (i32::MIN <= self.y - o.y <= i32::MAX) ==> r.y == self.y - o.y,
            (i32::MIN <= self.z - o.z <= i32::MAX) ==> r.z == self.z - o.z,
    {
        VoxelIdx {
            x: self.x.wrapping_sub(o.x),
            y: self.y.wrapping_sub(o.y),
            z: self.z.wrapping_sub(o.z),
        }
    }

    /// Componentwise minimum.
    pub fn bb_min(&self, other: &VoxelIdx) -> (r: VoxelIdx)
        ensures
            r == self.spec_bb_min(*other),
            r.x == min_int(self.x as int, other.x as int),
            r.y == min_int(self.y as int, other.y as int),
            r.z == min_int(self.z as int, other.z as int),
    {
        VoxelIdx {
            x: if self.x <= other.x { self.x } else { other.x },
            y: if self.y <= other.y { self.y } else { other.y },
            z: if self.z <= other.z { self.z } else { other.z },
        }
    }

    /// Componentwise maximum.
    pub fn bb_max(&self, other: &VoxelIdx) -> (r: VoxelIdx)
        ensures
            r == self.spec_bb_max(*other),
            r.x == max_int(self.x as int, other.x as int),
            r.y == max_int(self.y as int, other.y as int),
            r.z == max_int(self.z as int, other.z as int),
    {
        VoxelIdx {
            x: if self.x >= other.x { self.x } else { other.x },
            y: if self.y >= other.y { self.y } else { other.y },
            z: if self.z >= other.z { self.z } else { other.z },
        }
    }

    /// Each component shifted right by `bits`, keeping the sign: the floor of
    /// the component divided by two to the power `bits`.
    pub fn shift_down(&self, bits: u32) -> (r: VoxelIdx)
        requires
            bits < 32,
        ensures
            r.x == self.x >> bits,
            r.y == self.y >> bits,
            r.z == self.z >> bits,
    {
        VoxelIdx { x: self.x >> bits, y: self.y >> bits, z: self.z >> bits }
    }

    /// Each component shifted left by `bits`; bits shifted out are lost.
    pub fn shift_up(&self, bits: u32) -> (r: VoxelIdx)
        requires
            bits < 32,
        ensures
            r.x == self.x.wrapping_shl(bits),
            r.y == self.y.wrapping_shl(bits),
            r.z == self.z.wrapping_shl(bits),
    {
        VoxelIdx {
            x: self.x.wrapping_shl(bits),
            y: self.y.wrapping_shl(bits),
            z: self.z.wrapping_shl(bits),
        }
    }

    /// Sum of the squared components.
    pub fn magnitude_squared(&self) -> (r: u64)
        ensures
            r == self.spec_magnitude_squared(),
    {
        let x: i64 = self.x as i64;
        let y: i64 = self.y as i64;
        let z: i64 = self.z as i64;
        assert(0 <= x * x <= 0x4000_0000_0000_0000) by (nonlinear_arith)
            requires
                -0x8000_0000 <= x <= 0x7fff_ffff,
        ;
        assert(0 <= y * y <= 0x4000_0000_0000_0000) by (nonlinear_arith)
            requires
                -0x8000_0000 <= y <= 0x7fff_ffff,
        ;
        assert(0 <= z * z <= 0x4000_0000_0000_0000) by (nonlinear_arith)
            requires
                -0x8000_0000 <= z <= 0x7fff_ffff,
        ;
        let xx: u64 = (x * x) as u64;
        let yy: u64 = (y * y) as u64;
        let zz: u64 = (z * z) as u64;
        xx + yy + zz
    }

    /// The x component alone.
    pub fn x(&self) -> (r: VoxelIdx)
        ensures
            r == (VoxelIdx { x: self.x, y: 0, z: 0 }),
    {
        VoxelIdx { x: self.x, y: 0, z: 0 }
    }

    /// The y component alone.
    pub fn y(&self) -> (r: VoxelIdx)
        ensures
            r == (VoxelIdx { x: 0, y: self.y, z: 0 }),
    {
        VoxelIdx { x: 0, y: self.y, z: 0 }
    }

    /// The z component alone.
    pub fn z(&self) -> (r: VoxelIdx)
        ensures
            r == (VoxelIdx { x: 0, y: 0, z: self.z }),
    {
        VoxelIdx { x: 0, y: 0, z: self.z }
    }

    /// The x and y components.
    pub fn xy(&self) -> (r: VoxelIdx)
        ensures
            r == (VoxelIdx { x: self.x, y: self.y, z: 0 }),
    {
        VoxelIdx { x: self.x, y: self.y, z: 0 }
    }

    /// The y and z components.
    pub fn yz(&self) -> (r: VoxelIdx)
        ensures
            r == (VoxelIdx { x: 0, y: self.y, z: self.z }),
    {
        VoxelIdx { x: 0, y: self.y, z: self.z }
    }

    /// The x and z components.
    pub fn xz(&self) -> (r: VoxelIdx)
        ensures
            r == (VoxelIdx { x: self.x, y: 0, z: self.z }),
    {
        VoxelIdx { x: self.x, y: 0, z: self.z }
    }
}

impl Default for VoxelIdx {
    fn default() -> (r: VoxelIdx)
        ensures
            r == (VoxelIdx { x: 0, y: 0, z: 0 }),
    {
        VoxelIdx { x: 0, y: 0, z: 0 }
    }
}

} // verus!
