//! The capability that every voxel store offers.
use crate::bounding_box::{saturated, BoundingBox};
use crate::voxelidx::VoxelIdx;
use vstd::prelude::*;

verus! {

/// How a store post-processes its chunks before it writes them.
#[derive(Clone, Copy, Debug, PartialEq, Eq, Structural)]
pub enum WriteOptions {
    /// Chunks are written as they are.
    Raw,
    /// Chunks are smoothed first.
    Simplify,
}

impl WriteOptions {
    /// The options that a host's flag word asks for: 0 for raw, 1 for
    /// simplify. Any other word asks for nothing.
    pub fn from_flags(flags: u32) -> (r: Option<WriteOptions>)
        ensures
            flags == 0 ==> r == Some(WriteOptions::Raw),
            flags == 1 ==> r == Some(WriteOptions::Simplify),
            flags > 1 ==> r is None,
    {
        if flags == 0 {
            Some(WriteOptions::Raw)
        } else if flags == 1 {
            Some(WriteOptions::Simplify)
        } else {
            None
        }
    }
}

impl Default for WriteOptions {
    fn default() -> (r: WriteOptions)
        ensures
            r == WriteOptions::Raw,
    {
        WriteOptions::Raw
    }
}

/// 1 where `b` holds, else 0.
pub open spec fn one_if(b: bool) -> int {
    if b {
        1
    } else {
        0
    }
}

/// A store of filled cells.
pub trait Voxel: Sized {
    /// The store's invariant.
    spec fn wf(&self) -> bool;

    /// Whether the cell at `c` is filled.
    spec fn filled(&self, c: VoxelIdx) -> bool;

    /// Whether two coordinates name the same cell of the store.
    spec fn same_cell(a: VoxelIdx, b: VoxelIdx) -> bool;

    /// Whether the store has room for the cell at `c`. A write to a cell
    /// that it has no room for is dropped.
    spec fn accepts(c: VoxelIdx) -> bool;

    /// The box around the cells that were added.
    spec fn spec_bounding_box(&self) -> BoundingBox;

    /// Whether the store keeps a record of the chunks that changed.
    spec fn tracks_changes() -> bool;

    /// The number of runs that the store holds, for stores that keep runs.
    fn ranges(&self) -> (r: usize)
        requires
            self.wf(),
    ;

    fn bounding_box(&self) -> (r: &BoundingBox)
        requires
            self.wf(),
        ensures
            *r == self.spec_bounding_box(),
    ;

    fn occupied(&self, coord: VoxelIdx) -> (r: bool)
        requires
            self.wf(),
        ensures
            r == self.filled(coord),
    ;

    /// Fills the cell at `coord`. Returns whether the store changed, which
    /// it does where the cell was empty and the store has room for it: then
    /// the cell is filled now, and the box counts it. No other cell changes.
    fn add(&mut self, coord: VoxelIdx) -> (r: bool)
        requires
            old(self).wf(),
        ensures
            final(self).wf(),
            r == (!old(self).filled(coord) && Self::accepts(coord)),
            r ==> final(self).filled(coord),
            r ==> Self::same_cell(coord, coord),
            forall|c: VoxelIdx| #[trigger]
                final(self).filled(c) == (old(self).filled(c) || (r && Self::same_cell(coord, c))),
            final(self).spec_bounding_box().spec_count() == saturated(
                old(self).spec_bounding_box().spec_count() + one_if(r),
            ),
            r ==> final(self).spec_bounding_box().covers(coord),
            r ==> final(self).spec_bounding_box().grew_from(old(self).spec_bounding_box(), coord),
            !r ==> final(self).spec_bounding_box() == old(self).spec_bounding_box(),
    ;

    /// Appends the store's binary form to `writer`. A store without one
    /// appends nothing.
    fn write_binary(&mut self, writer: &mut Vec<u8>)
        requires
            old(self).wf(),
        ensures
            final(self).wf(),
            forall|c: VoxelIdx| final(self).filled(c) == old(self).filled(c),
            final(self).spec_bounding_box() == old(self).spec_bounding_box(),
            old(writer)@.is_prefix_of(final(writer)@),
    {
    }

    /// The number of units that a frame has to draw anew on this store's
    /// account. A store that keeps no record of its changes counts as one
    /// unit, the whole store; a store that keeps one answers for itself.
    /// Nothing changes.
    fn debug1(&mut self) -> (r: usize)
        requires
            old(self).wf(),
        ensures
            final(self).wf(),
            !Self::tracks_changes() ==> r == 1,
            forall|c: VoxelIdx| final(self).filled(c) == old(self).filled(c),
            final(self).spec_bounding_box() == old(self).spec_bounding_box(),
    {
        1
    }

    /// Sets how chunks are post-processed. Meshes built under other options
    /// are forgotten. No cell changes.
    fn set_options(&mut self, options: WriteOptions)
        requires
            old(self).wf(),
        ensures
            final(self).wf(),
            forall|c: VoxelIdx| final(self).filled(c) == old(self).filled(c),
            final(self).spec_bounding_box() == old(self).spec_bounding_box(),
    {
    }
}

/// A store that can hand out the meshes of the chunks that changed.
pub trait StreamingVoxel: Voxel {
    /// Appends to `writer` the meshes of the chunks that changed since the
    /// last call, after a header that carries `unit_bits`, the bit pattern of
    /// the edge length of a cell. No cell changes.
    fn write_dirty(&mut self, unit_bits: u32, writer: &mut Vec<u8>)
        requires
            old(self).wf(),
        ensures
            final(self).wf(),
            forall|c: VoxelIdx| final(self).filled(c) == old(self).filled(c),
            final(self).spec_bounding_box() == old(self).spec_bounding_box(),
            old(writer)@.is_prefix_of(final(writer)@),
    ;
}

} // verus!
