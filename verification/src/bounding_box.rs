//! The box that encloses every cell added to a store.
use crate::voxelidx::VoxelIdx;
use vstd::prelude::*;

verus! {

/// Smallest and largest corner of the cells added so far, and their number.
///
/// While `count` is zero the two corners mean nothing.
#[derive(Debug)]
pub struct BoundingBox {
    bound_min: VoxelIdx,
    bound_max: VoxelIdx,
    count: usize,
}

/// `n`, or the largest `usize` where `n` does not fit.
pub open spec fn saturated(n: int) -> usize {
    if n <= usize::MAX {
        n as usize
    } else {
        usize::MAX
    }
}

impl BoundingBox {
    /// The smallest corner.
    pub closed spec fn spec_min(&self) -> VoxelIdx {
        self.bound_min
    }

    /// The largest corner.
    pub closed spec fn spec_max(&self) -> VoxelIdx {
        self.bound_max
    }

    /// The number of cells added.
    pub closed spec fn spec_count(&self) -> usize {
        self.count
    }

    /// The box is not empty and `c` lies inside it.
    pub open spec fn covers(&self, c: VoxelIdx) -> bool {
        self.spec_count() > 0 && c.within(self.spec_min(), self.spec_max())
    }

    /// The box is empty, or its smallest corner is componentwise no larger
    /// than its largest.
    pub open spec fn wf(&self) -> bool {
        self.spec_count() > 0 ==> self.spec_min().within(self.spec_min(), self.spec_max())
    }

    /// `self` is the box `before` grown to hold `coord`, which is counted:
    /// the first cell is both corners, every later one moves each corner
    /// componentwise as far as needed, and the count stops at the largest
    /// `usize`.
    pub open spec fn grew_from(&self, before: BoundingBox, coord: VoxelIdx) -> bool {
        &&& self.spec_count() == saturated(before.spec_count() + 1)
        &&& self.spec_min() == if before.spec_count() == 0 {
            coord
        } else {
            coord.spec_bb_min(before.spec_min())
        }
        &&& self.spec_max() == if before.spec_count() == 0 {
            coord
        } else {
            coord.spec_bb_max(before.spec_max())
        }
    }

    #[verifier::when_used_as_spec(spec_min)]
    pub fn min(&self) -> (r: VoxelIdx)
        ensures
            r == self.spec_min(),
    {
        self.bound_min
    }

    #[verifier::when_used_as_spec(spec_max)]
    pub fn max(&self) -> (r: VoxelIdx)
        ensures
            r == self.spec_max(),
    {
        self.bound_max
    }

    #[verifier::when_used_as_spec(spec_count)]
    pub fn count(&self) -> (r: usize)
        ensures
            r == self.spec_count(),
    {
        self.count
    }

    /// Grows the box to hold `coord` and counts it. The count stops at the
    /// largest `usize`.
    pub fn add(&mut self, coord: VoxelIdx)
        ensures
            final(self).grew_from(*old(self), coord),
            final(self).spec_count() == saturated(old(self).spec_count() + 1),
            old(self).spec_count() == 0 ==> final(self).spec_min() == coord && final(self).spec_max() == coord,
            old(self).spec_count() > 0 ==> {
                &&& final(self).spec_min().x == crate::voxelidx::min_int(
                    old(self).spec_min().x as int,
                    coord.x as int,
                )
                &&& final(self).spec_min().y == crate::voxelidx::min_int(
                    old(self).spec_min().y as int,
                    coord.y as int,
                )
                &&& final(self).spec_min().z == crate::voxelidx::min_int(
                    old(self).spec_min().z as int,
                    coord.z as int,
                )
                &&& final(self).spec_max().x == crate::voxelidx::max_int(
                    old(self).spec_max().x as int,
                    coord.x as int,
                )
                &&& final(self).spec_max().y == crate::voxelidx::max_int(
                    old(self).spec_max().y as int,
                    coord.y as int,
                )
                &&& final(self).spec_max().z == crate::voxelidx::max_int(
                    old(self).spec_max().z as int,
                    coord.z as int,
                )
            },
            final(self).covers(coord),
            forall|c: VoxelIdx| old(self).covers(c) ==> final(self).covers(c),
            old(self).wf() ==> final(self).wf(),
    {
        if self.count == 0 {
            self.bound_min = coord;
            self.bound_max = coord;
        } else {
            self.bound_min = coord.bb_min(&self.bound_min);
            self.bound_max = coord.bb_max(&self.bound_max);
        }
        if self.count < usize::MAX {
            self.count = self.count + 1;
        }
    }
}

impl Default for BoundingBox {
    fn default() -> (r: BoundingBox)
        ensures
            r.spec_count() == 0,
            r.wf(),
    {
        BoundingBox {
            bound_min: VoxelIdx { x: 0, y: 0, z: 0 },
            bound_max: VoxelIdx { x: 0, y: 0, z: 0 },
            count: 0,
        }
    }
}

} // verus!
