//! The decisions of the time-stepped runner: which record comes next, what
//! it asks for, and what the motion state is afterwards. The arithmetic on
//! lengths, feed rates and time is done by the caller, who hands the result
//! back.
use crate::chunkedvoxel::ChunkedVoxel;
use crate::extrude::{cells_of, deposited, extrude_at, extrusion};
use crate::bounding_box::saturated;
use crate::gcode::{major_kind, GCode1, GCode1Coord, MajorKind};
use crate::voxel::Voxel;
use crate::voxelidx::VoxelIdx;
use std::ops::Range;
use vstd::prelude::*;

verus! {

/// The state of the machine: position, extruder value and feed rate, each
/// the bit pattern of a single-precision number.
#[derive(Clone, Copy, Debug, PartialEq, Eq, Structural)]
pub struct MotionState {
    pub x: u32,
    pub y: u32,
    pub z: u32,
    pub e: u32,
    pub f: u32,
}

/// What the runner asks its caller to do for one record.
#[derive(Clone, Copy, Debug, PartialEq, Eq, Structural)]
pub enum Step {
    /// No record is left.
    Done,
    /// The record asked for nothing.
    Skip,
    /// A layer begins.
    Layer(usize),
    /// The position was set; nothing moves.
    Assigned,
    /// Move to `target`, the record `code` of line `line` overlaid onto the
    /// state the machine is in.
    Move { line: usize, code: GCode1Coord, target: GCode1Coord },
}

impl MotionState {
    /// The state as a record that carries every word.
    pub open spec fn as_record(self, major: u32) -> GCode1Coord {
        GCode1Coord {
            major: major,
            x: Some(self.x),
            y: Some(self.y),
            z: Some(self.z),
            e: Some(self.e),
            f: Some(self.f),
        }
    }

    /// The state with the position and extruder words of `code` taken over.
    pub open spec fn assigned(self, code: GCode1Coord) -> MotionState {
        MotionState {
            x: if code.x is Some {
                code.x->0
            } else {
                self.x
            },
            y: if code.y is Some {
                code.y->0
            } else {
                self.y
            },
            z: if code.z is Some {
                code.z->0
            } else {
                self.z
            },
            e: if code.e is Some {
                code.e->0
            } else {
                self.e
            },
            f: self.f,
        }
    }
}

/// What the record at the head of `pending` asks for in the state `state`.
pub open spec fn step_of(pending: Seq<(usize, GCode1)>, state: MotionState) -> Step {
    if pending.len() == 0 {
        Step::Done
    } else {
        match pending[0].1 {
            GCode1::Coord(cur) => match major_kind(cur.major) {
                MajorKind::SetPosition => Step::Assigned,
                MajorKind::Move => Step::Move {
                    line: pending[0].0,
                    code: cur,
                    target: state.as_record(cur.major).spec_apply(cur),
                },
                MajorKind::Unsupported => Step::Skip,
            },
            GCode1::Layer(layer_idx) => Step::Layer(layer_idx),
            GCode1::TypedComment(_, _) => Step::Skip,
        }
    }
}

/// The state after the record at the head of `pending` was taken.
pub open spec fn state_after(pending: Seq<(usize, GCode1)>, state: MotionState) -> MotionState {
    if pending.len() == 0 {
        state
    } else {
        match pending[0].1 {
            GCode1::Coord(cur) => if major_kind(cur.major) == MajorKind::SetPosition {
                state.assigned(cur)
            } else {
                state
            },
            _ => state,
        }
    }
}

/// The records that are still to run and the state of the machine.
pub struct ExtrudeRunner {
    pendings: Vec<(usize, GCode1)>,
    state: MotionState,
}

impl ExtrudeRunner {
    /// The records still to run, the next one first.
    pub closed spec fn pending(&self) -> Seq<(usize, GCode1)> {
        self.pendings@.reverse()
    }

    /// The state of the machine.
    pub closed spec fn spec_state(&self) -> MotionState {
        self.state
    }

    /// A runner at the start of the program `pendings`, the machine at rest
    /// at the origin.
    pub fn new(pendings: Vec<(usize, GCode1)>) -> (r: ExtrudeRunner)
        ensures
            r.pending() == pendings@,
            r.spec_state() == (MotionState { x: 0, y: 0, z: 0, e: 0, f: 0 }),
    {
        let mut input = pendings;
        let mut stack: Vec<(usize, GCode1)> = Vec::new();
        let ghost all = input@;
        loop
            invariant
                stack@.len() + input@.len() == all.len(),
                input@ == all.subrange(0, input@.len() as int),
                forall|j: int| 0 <= j < stack@.len() ==> stack@[j] == all[all.len() - 1 - j],
            ensures
                input@.len() == 0,
            decreases input@.len(),
        {
            let ghost before = input@;
            match input.pop() {
                Some(item) => {
                    stack.push(item);
                },
                None => {
                    break ;
                },
            }
        }
        proof {
            assert(stack@.reverse() =~= all);
        }
        ExtrudeRunner { pendings: stack, state: MotionState { x: 0, y: 0, z: 0, e: 0, f: 0 } }
    }

    /// The state of the machine.
    pub fn state(&self) -> (r: MotionState)
        ensures
            r == self.spec_state(),
    {
        self.state
    }

    /// The number of records still to run.
    pub fn remaining(&self) -> (r: usize)
        ensures
            r == self.pending().len(),
    {
        self.pendings.len()
    }

    /// Takes the next record and says what it asks for. A record with major
    /// code 92 sets the position and the extruder value at once; a move is
    /// handed to the caller with its target; every other record is passed
    /// over.
    pub fn step0(&mut self) -> (step: Step)
        ensures
            step == step_of(old(self).pending(), old(self).spec_state()),
            final(self).spec_state() == state_after(old(self).pending(), old(self).spec_state()),
            final(self).pending() == (if old(self).pending().len() == 0 {
                old(self).pending()
            } else {
                old(self).pending().subrange(1, old(self).pending().len() as int)
            }),
    {
        let ghost before = self.pendings@;
        let next = self.pendings.pop();
        proof {
            if before.len() > 0 {
                assert(before.reverse()[0] == before[before.len() - 1]);
                assert(self.pendings@.reverse() =~= before.reverse().subrange(
                    1,
                    before.len() as int,
                ));
            }
        }
        match next {
            Some((line, GCode1::Coord(cur))) => {
                match cur.kind() {
                    MajorKind::SetPosition => {
                        if let Some(x) = cur.x {
                            self.state.x = x;
                        }
                        if let Some(y) = cur.y {
                            self.state.y = y;
                        }
                        if let Some(z) = cur.z {
                            self.state.z = z;
                        }
                        if let Some(e) = cur.e {
                            self.state.e = e;
                        }
                        Step::Assigned
                    },
                    MajorKind::Move => {
                        let prev = GCode1Coord {
                            major: cur.major,
                            x: Some(self.state.x),
                            y: Some(self.state.y),
                            z: Some(self.state.z),
                            e: Some(self.state.e),
                            f: Some(self.state.f),
                        };
                        let target = prev.apply(&cur);
                        Step::Move { line, code: cur, target }
                    },
                    MajorKind::Unsupported => Step::Skip,
                }
            },
            Some((_, GCode1::Layer(layer_idx))) => Step::Layer(layer_idx),
            Some(_) => Step::Skip,
            None => Step::Done,
        }
    }

    /// Puts the rest of a move that did not fit the time step back at the
    /// head of the program.
    pub fn resume(&mut self, line: usize, code: GCode1Coord)
        ensures
            final(self).spec_state() == old(self).spec_state(),
            final(self).pending() == seq![(line, GCode1::Coord(code))] + old(self).pending(),
    {
        self.pendings.push((line, GCode1::Coord(code)));
        proof {
            assert(self.pendings@.reverse() =~= seq![(line, GCode1::Coord(code))] + old(
                self,
            ).pendings@.reverse());
        }
    }

    /// Takes over the feed rate of a move.
    pub fn set_feed(&mut self, f: u32)
        ensures
            final(self).pending() == old(self).pending(),
            final(self).spec_state() == (MotionState { f: f, ..old(self).spec_state() }),
    {
        self.state.f = f;
    }

    /// Takes over the position at the end of a move.
    pub fn set_position(&mut self, x: u32, y: u32, z: u32)
        ensures
            final(self).pending() == old(self).pending(),
            final(self).spec_state() == (MotionState { x: x, y: y, z: z, ..old(self).spec_state() }),
    {
        self.state.x = x;
        self.state.y = y;
        self.state.z = z;
    }

    /// Takes over the extruder value at the end of a move.
    pub fn set_extruder(&mut self, e: u32)
        ensures
            final(self).pending() == old(self).pending(),
            final(self).spec_state() == (MotionState { e: e, ..old(self).spec_state() }),
    {
        self.state.e = e;
    }
}

/// The heights that a segment ending at height `z` may deposit at:
/// `z_offset` cells below `z` up to, but not including, `z_offset_up` cells
/// above. An end that would overflow stops at the smallest or largest height.
pub open spec fn deposit_range(z: i32, z_offset: i32, z_offset_up: i32) -> Range<i32> {
    Range { start: clamp_height(z - z_offset), end: clamp_height(z + z_offset_up) }
}

/// `v`, or the nearest height that a coordinate can hold.
pub open spec fn clamp_height(v: int) -> i32 {
    if v < i32::MIN {
        i32::MIN
    } else if v > i32::MAX {
        i32::MAX
    } else {
        v as i32
    }
}

fn clamped(v: i64) -> (r: i32)
    ensures
        r == clamp_height(v as int),
{
    if v < i32::MIN as i64 {
        i32::MIN
    } else if v > i32::MAX as i64 {
        i32::MAX
    } else {
        v as i32
    }
}

/// Deposits the cells of one extrusion segment: up to `blocks` cells, breadth
/// first from the seed cells `cells`, no further than `max_dist` steps from a
/// seed and only at the heights that the segment may deposit at. Returns the
/// number of cells that could not be placed.
pub fn deposit_segment<V: Voxel>(
    mv: &mut V,
    z: i32,
    z_offset: i32,
    z_offset_up: i32,
    max_dist: usize,
    cells: &[VoxelIdx],
    blocks: usize,
) -> (left: usize)
    requires
        old(mv).wf(),
    ensures
        final(mv).wf(),
        cells_of(*final(mv)) == extrusion::<V, ChunkedVoxel>(
            cells_of(*old(mv)),
            Set::empty(),
            deposit_range(z, z_offset, z_offset_up),
            max_dist,
            cells@,
            blocks as int,
        ).filled,
        blocks - left == extrusion::<V, ChunkedVoxel>(
            cells_of(*old(mv)),
            Set::empty(),
            deposit_range(z, z_offset, z_offset_up),
            max_dist,
            cells@,
            blocks as int,
        ).count,
        left <= blocks,
        forall|c: VoxelIdx| old(mv).filled(c) ==> final(mv).filled(c),
        forall|c: VoxelIdx|
            final(mv).filled(c) && !old(mv).filled(c) ==> deposited::<V>(
                c,
                deposit_range(z, z_offset, z_offset_up),
                cells@,
                max_dist as int,
            ),
        final(mv).spec_bounding_box().spec_count() == saturated(
            old(mv).spec_bounding_box().spec_count() + (blocks - left),
        ),
        left == blocks ==> forall|c: VoxelIdx| final(mv).filled(c) == old(mv).filled(c),
        left == blocks ==> final(mv).spec_bounding_box() == old(mv).spec_bounding_box(),
        blocks == 0 ==> left == 0 && *final(mv) == *old(mv),
{
    let mut left = blocks;
    if blocks > 0 {
        let zrange = clamped(z as i64 - z_offset as i64)..clamped(z as i64 + z_offset_up as i64);
        let extruded = extrude_at(mv, zrange, max_dist, cells, blocks);
        left = left - extruded;
    }
    left
}

} // verus!
