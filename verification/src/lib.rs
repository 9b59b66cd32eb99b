//! Voxel accumulation core of a 3D-printing process simulator: a chunked
//! sparse voxel store with dirty tracking, the meshing glue over it, the
//! extruder that deposits cells, the decisions of the time-stepped runner,
//! and the byte layout of streamed mesh deltas.
//!
//! Lengths, feed rates and mesh positions never enter the library as
//! numbers: where it has to carry one, it carries the bit pattern of a
//! single-precision value.

pub mod bounding_box;
pub mod cell;
pub mod chunk_key;
pub mod chunk_map;
pub mod chunked_base;
pub mod chunkedvoxel;
pub mod comments;
pub mod dirty;
pub mod extrude;
pub mod fsnvoxel;
pub mod gcode;
pub mod key_set;
pub mod marks;
pub mod mesh_cache;
pub mod mesher;
pub mod meta;
pub mod model;
pub mod padded;
pub mod quad;
pub mod runner;
pub mod smooth;
pub mod stream;
pub mod svo_coords;
pub mod void_closure;
pub mod voxel;
pub mod voxelidx;
pub mod wire;

pub use bounding_box::BoundingBox;
pub use cell::{BGMCell, CELL_SIZE, CELL_SIZE_BITS, CS_P, CS_P2, CS_P3};
pub use chunk_key::{cell_idx, chunk_base, chunk_idx, rem_euclid};
pub use chunked_base::ChunkedBase;
pub use chunkedvoxel::ChunkedVoxel;
pub use comments::{comment, parentheses_comment, seimcolon_comment};
pub use dirty::DirtyTracker;
pub use extrude::{extrude_at, extrude_at_deque, extrude_into, line_cells};
pub use fsnvoxel::FSNVoxel;
pub use gcode::{GCode1, GCode1Coord};
pub use meta::GCodeMeta;
pub use model::Model;
pub use quad::{decode_quad, quad_pack};
pub use runner::{deposit_segment, ExtrudeRunner, MotionState, Step};
pub use smooth::cell_neighbors;
pub use svo_coords::{from_voxel_idx, to_voxel_idx};
pub use voxel::{StreamingVoxel, Voxel, WriteOptions};
pub use voxelidx::VoxelIdx;
