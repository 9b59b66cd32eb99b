//! Binary greedy quad meshing of a padded chunk, and the faces it yields.
use crate::bounding_box::saturated;
use crate::cell::{BGMCell, CS_P3};
use crate::model::{face_corners, unique_push, Corner, Model, ModelView};
use crate::quad::{decode_quad, lemma_quad_roundtrip, quad_field, quad_pack_spec};
use crate::void_closure::solid_padded;
use crate::voxelidx::VoxelIdx;
use binary_greedy_meshing::Mesher;
use std::collections::BTreeSet;
use vstd::prelude::*;

verus! {

/// The quads that the binary greedy mesher emits for a padded buffer: six
/// lists, one per face direction, in the order up, down, right, left, front,
/// back.
pub uninterp spec fn greedy_quads(voxels: Seq<u16>) -> Seq<Seq<u64>>;

/// `Mesher::<32>::mesh` on a fresh mesher, with no transparent voxel kinds:
/// the packed quads of the six face directions.
#[verifier::external_body]
pub(crate) fn greedy_mesh(voxels: &[u16; CS_P3]) -> (quads: Vec<Vec<u64>>)
    ensures
        quads.deep_view() == greedy_quads(voxels@),
        quads@.len() == 6,
{
    let mut mesher = Mesher::<32>::new();
    mesher.mesh(voxels, &BTreeSet::new());
    mesher.quads.iter().map(|side| side.iter().map(|quad| quad.0).collect()).collect()
}

/// The span of a face of width `w` and height `h` on the given side.
pub open spec fn face_dir(side: int, w: int, h: int) -> VoxelIdx {
    if side == 0 {
        VoxelIdx { x: w as i32, y: 0, z: h as i32 }
    } else if side == 1 {
        VoxelIdx { x: (-w) as i32, y: 0, z: h as i32 }
    } else if side == 2 {
        VoxelIdx { x: 0, y: (-w) as i32, z: h as i32 }
    } else if side == 3 {
        VoxelIdx { x: 0, y: w as i32, z: h as i32 }
    } else if side == 4 {
        VoxelIdx { x: (-w) as i32, y: h as i32, z: 0 }
    } else {
        VoxelIdx { x: w as i32, y: h as i32, z: 0 }
    }
}

/// The origin of a packed quad.
pub open spec fn quad_origin(quad: u64) -> VoxelIdx {
    VoxelIdx {
        x: quad_field(quad, 0) as i32,
        y: quad_field(quad, 6) as i32,
        z: quad_field(quad, 12) as i32,
    }
}

/// The model with the face of one packed quad of the given side added.
pub open spec fn with_quad_face(mv: ModelView, side: int, quad: u64) -> ModelView {
    mv.with_face(
        quad_origin(quad),
        face_dir(side, quad_field(quad, 18) as int, quad_field(quad, 24) as int),
    )
}

/// The model with the faces of the quads of one side added, in order.
pub open spec fn with_side(mv: ModelView, side: int, quads: Seq<u64>) -> ModelView
    decreases quads.len(),
{
    if quads.len() == 0 {
        mv
    } else {
        with_quad_face(with_side(mv, side, quads.drop_last()), side, quads.last())
    }
}

/// The model with the faces of the first `n` sides added, side by side.
pub open spec fn with_sides(mv: ModelView, quads: Seq<Seq<u64>>, n: int) -> ModelView
    decreases n,
{
    if n <= 0 {
        mv
    } else {
        with_side(with_sides(mv, quads, n - 1), n - 1, quads[n - 1])
    }
}

/// The number of quads on the first `n` sides.
pub open spec fn quad_total(quads: Seq<Seq<u64>>, n: int) -> int
    decreases n,
{
    if n <= 0 {
        0
    } else {
        quad_total(quads, n - 1) + quads[n - 1].len()
    }
}

proof fn lemma_quad_total_nonneg(quads: Seq<Seq<u64>>, n: int)
    ensures
        quad_total(quads, n) >= 0,
    decreases n,
{
    if n > 0 {
        lemma_quad_total_nonneg(quads, n - 1);
    }
}

fn side_dir(side: usize, w: i32, h: i32) -> (r: VoxelIdx)
    requires
        0 <= w <= 63,
        0 <= h <= 63,
    ensures
        r == face_dir(side as int, w as int, h as int),
{
    if side == 0 {
        // Up
        VoxelIdx { x: w, y: 0, z: h }
    } else if side == 1 {
        // Down
        VoxelIdx { x: -w, y: 0, z: h }
    } else if side == 2 {
        // Right
        VoxelIdx { x: 0, y: -w, z: h }
    } else if side == 3 {
        // Left
        VoxelIdx { x: 0, y: w, z: h }
    } else if side == 4 {
        // Front
        VoxelIdx { x: -w, y: h, z: 0 }
    } else {
        // Back
        VoxelIdx { x: w, y: h, z: 0 }
    }
}

/// Adds the face of every quad to the model, side by side in the order up,
/// down, right, left, front, back, and returns the number of quads (the
/// largest `usize` where the number does not fit).
pub fn quads_into_model(quads: &Vec<Vec<u64>>, model: &mut Model) -> (count: usize)
    requires
        quads@.len() == 6,
        old(model).wf(),
    ensures
        final(model).wf(),
        final(model)@ == with_sides(old(model)@, quads.deep_view(), 6),
        count == saturated(quad_total(quads.deep_view(), 6)),
{
    let ghost dv = quads.deep_view();
    let mut count: usize = 0;
    let mut side: usize = 0;
    while side < 6
        invariant
            side <= 6,
            quads@.len() == 6,
            dv == quads.deep_view(),
            model.wf(),
            model@ == with_sides(old(model)@, dv, side as int),
            count == saturated(quad_total(dv, side as int)),
        decreases 6 - side,
    {
        let list = &quads[side];
        assert(dv[side as int] == list@);
        let ghost before = model@;
        let mut i: usize = 0;
        while i < list.len()
            invariant
                i <= list.len(),
                side < 6,
                model.wf(),
                model@ == with_side(before, side as int, list@.subrange(0, i as int)),
            decreases list.len() - i,
        {
            let r = decode_quad(list[i]);
            let dir = side_dir(side, r.1[0], r.1[1]);
            proof {
                let s = list@.subrange(0, i as int + 1);
                assert(s.drop_last() == list@.subrange(0, i as int));
                assert(s.last() == list@[i as int]);
                assert(r.0 == quad_origin(list@[i as int]));
            }
            model.add_face(r.0, dir);
            i = i + 1;
        }
        proof {
            assert(list@.subrange(0, list@.len() as int) == list@);
            assert(quad_total(dv, side as int + 1) == quad_total(dv, side as int) + list@.len());
            lemma_quad_total_nonneg(dv, side as int);
        }
        count = if list.len() <= usize::MAX - count {
            count + list.len()
        } else {
            usize::MAX
        };
        side = side + 1;
    }
    count
}

impl BGMCell {
    /// Meshes the chunk into `model`: closes the chunk's voids into the
    /// padded buffer, runs the greedy mesher over it, and adds the face of
    /// every quad. Returns the number of quads.
    pub fn to_model(&self, voxels: &mut [u16; CS_P3], model: &mut Model) -> (count: usize)
        requires
            old(model).wf(),
        ensures
            final(voxels)@ == solid_padded(self@),
            final(model).wf(),
            final(model)@ == with_sides(old(model)@, greedy_quads(solid_padded(self@)), 6),
            count == saturated(quad_total(greedy_quads(solid_padded(self@)), 6)),
    {
        self.fill_bgm_solid(voxels);
        let quads = greedy_mesh(voxels);
        quads_into_model(&quads, model)
    }
}

/// The quads of a single cell at `(x, y, z)` of a chunk with nothing around
/// it: one unit quad per side, in the order of the sides.
pub open spec fn unit_quads(x: u64, y: u64, z: u64) -> Seq<Seq<u64>> {
    seq![
        seq![quad_pack_spec(x, (y + 1) as u64, z, 1, 1)],
        seq![quad_pack_spec((x + 1) as u64, y, z, 1, 1)],
        seq![quad_pack_spec((x + 1) as u64, (y + 1) as u64, z, 1, 1)],
        seq![quad_pack_spec(x, y, z, 1, 1)],
        seq![quad_pack_spec((x + 1) as u64, y, (z + 1) as u64, 1, 1)],
        seq![quad_pack_spec(x, y, z, 1, 1)],
    ]
}

/// The corner of the unit cube at `(x, y, z)` that lies `dx`, `dy`, `dz`
/// further along the axes.
pub open spec fn cube_corner(x: u64, y: u64, z: u64, dx: int, dy: int, dz: int) -> Corner {
    ((x + dx) as i32, (y + dy) as i32, (z + dz) as i32)
}

proof fn lemma_one_quad(mv: ModelView, side: int, x: u64, y: u64, z: u64)
    requires
        x <= 63,
        y <= 63,
        z <= 63,
    ensures
        with_side(mv, side, seq![quad_pack_spec(x, y, z, 1, 1)]) == mv.with_face(
            VoxelIdx { x: x as i32, y: y as i32, z: z as i32 },
            face_dir(side, 1, 1),
        ),
{
    let q = seq![quad_pack_spec(x, y, z, 1, 1)];
    lemma_quad_roundtrip(x, y, z, 1, 1);
    reveal_with_fuel(with_side, 2);
    assert(q.drop_last() =~= Seq::<u64>::empty());
    assert(q.last() == quad_pack_spec(x, y, z, 1, 1));
}

/// The model with the quad over four corners that it does not hold yet.
proof fn lemma_quad_of_four(m: ModelView, c: Seq<Corner>)
    requires
        m.vertices.len() == 0,
        c.len() == 4,
        c.no_duplicates(),
    ensures
        m.with_quad(c).vertices == c,
        m.with_quad(c).faces == m.faces.push((0, 1, 2, 3)),
{
    let v1 = unique_push(m.vertices, c[0]);
    assert(v1 =~= seq![c[0]]);
    let v2 = unique_push(v1, c[1]);
    assert(v2 =~= seq![c[0], c[1]]);
    let v3 = unique_push(v2, c[2]);
    assert(v3 =~= seq![c[0], c[1], c[2]]);
    let v4 = unique_push(v3, c[3]);
    assert(v4 =~= c);
    assert(c.index_of(c[0]) == 0);
    assert(c.index_of(c[1]) == 1);
    assert(c.index_of(c[2]) == 2);
    assert(c.index_of(c[3]) == 3);
}

/// The model with the quad over four corners that it holds already.
proof fn lemma_quad_of_known(m: ModelView, c: Seq<Corner>, i: (int, int, int, int))
    requires
        m.vertices.no_duplicates(),
        c.len() == 4,
        0 <= i.0 < m.vertices.len() && m.vertices[i.0] == c[0],
        0 <= i.1 < m.vertices.len() && m.vertices[i.1] == c[1],
        0 <= i.2 < m.vertices.len() && m.vertices[i.2] == c[2],
        0 <= i.3 < m.vertices.len() && m.vertices[i.3] == c[3],
    ensures
        m.with_quad(c).vertices == m.vertices,
        m.with_quad(c).faces == m.faces.push(i),
{
    let v = m.vertices;
    assert(v.contains(c[0]) && v.contains(c[1]) && v.contains(c[2]) && v.contains(c[3]));
    assert(v.index_of(c[0]) == i.0);
    assert(v.index_of(c[1]) == i.1);
    assert(v.index_of(c[2]) == i.2);
    assert(v.index_of(c[3]) == i.3);
}

/// The eight corners of the unit cube at `(x, y, z)`, in the order in which
/// the faces of the six sides first use them.
pub open spec fn cube_corners(x: u64, y: u64, z: u64) -> Seq<Corner> {
    seq![
        cube_corner(x, y, z, 0, 1, 0),
        cube_corner(x, y, z, 1, 1, 0),
        cube_corner(x, y, z, 1, 1, 1),
        cube_corner(x, y, z, 0, 1, 1),
        cube_corner(x, y, z, 1, 0, 0),
        cube_corner(x, y, z, 0, 0, 0),
        cube_corner(x, y, z, 0, 0, 1),
        cube_corner(x, y, z, 1, 0, 1),
    ]
}

/// The faces of the unit cube over `cube_corners`, side by side.
pub open spec fn cube_faces() -> Seq<(int, int, int, int)> {
    seq![
        (0int, 1int, 2int, 3int),
        (4int, 5int, 6int, 7int),
        (1int, 4int, 7int, 2int),
        (5int, 0int, 3int, 6int),
        (7int, 6int, 3int, 2int),
        (5int, 4int, 1int, 0int),
    ]
}

proof fn lemma_cube_corners(x: u64, y: u64, z: u64)
    requires
        x < 32,
        y < 32,
        z < 32,
    ensures
        cube_corners(x, y, z).no_duplicates(),
        cube_corners(x, y, z).len() == 8,
{
    let s = cube_corners(x, y, z);
    assert forall|i: int, j: int| 0 <= i < s.len() && 0 <= j < s.len() && i != j implies s[i]
        != s[j] by {
        let xi = x as int;
        let yi = y as int;
        let zi = z as int;
        assert(s[0] == ((xi) as i32, (yi + 1) as i32, (zi) as i32));
        assert(s[1] == ((xi + 1) as i32, (yi + 1) as i32, (zi) as i32));
        assert(s[2] == ((xi + 1) as i32, (yi + 1) as i32, (zi + 1) as i32));
        assert(s[3] == ((xi) as i32, (yi + 1) as i32, (zi + 1) as i32));
        assert(s[4] == ((xi + 1) as i32, (yi) as i32, (zi) as i32));
        assert(s[5] == ((xi) as i32, (yi) as i32, (zi) as i32));
        assert(s[6] == ((xi) as i32, (yi) as i32, (zi + 1) as i32));
        assert(s[7] == ((xi + 1) as i32, (yi) as i32, (zi + 1) as i32));
    }
}

/// The corners of the unit face on the given side of the cell.
proof fn lemma_unit_face(side: int, x: u64, y: u64, z: u64)
    requires
        x < 32,
        y < 32,
        z < 32,
        0 <= side < 6,
    ensures
        side == 0 ==> face_corners(
            VoxelIdx { x: x as i32, y: (y + 1) as i32, z: z as i32 },
            face_dir(0, 1, 1),
        ) == seq![
            cube_corner(x, y, z, 0, 1, 0),
            cube_corner(x, y, z, 1, 1, 0),
            cube_corner(x, y, z, 1, 1, 1),
            cube_corner(x, y, z, 0, 1, 1),
        ],
        side == 1 ==> face_corners(
            VoxelIdx { x: (x + 1) as i32, y: y as i32, z: z as i32 },
            face_dir(1, 1, 1),
        ) == seq![
            cube_corner(x, y, z, 1, 0, 0),
            cube_corner(x, y, z, 0, 0, 0),
            cube_corner(x, y, z, 0, 0, 1),
            cube_corner(x, y, z, 1, 0, 1),
        ],
        side == 2 ==> face_corners(
            VoxelIdx { x: (x + 1) as i32, y: (y + 1) as i32, z: z as i32 },
            face_dir(2, 1, 1),
        ) == seq![
            cube_corner(x, y, z, 1, 1, 0),
            cube_corner(x, y, z, 1, 0, 0),
            cube_corner(x, y, z, 1, 0, 1),
            cube_corner(x, y, z, 1, 1, 1),
        ],
        side == 3 ==> face_corners(
            VoxelIdx { x: x as i32, y: y as i32, z: z as i32 },
            face_dir(3, 1, 1),
        ) == seq![
            cube_corner(x, y, z, 0, 0, 0),
            cube_corner(x, y, z, 0, 1, 0),
            cube_corner(x, y, z, 0, 1, 1),
            cube_corner(x, y, z, 0, 0, 1),
        ],
        side == 4 ==> face_corners(
            VoxelIdx { x: (x + 1) as i32, y: y as i32, z: (z + 1) as i32 },
            face_dir(4, 1, 1),
        ) == seq![
            cube_corner(x, y, z, 1, 0, 1),
            cube_corner(x, y, z, 0, 0, 1),
            cube_corner(x, y, z, 0, 1, 1),
            cube_corner(x, y, z, 1, 1, 1),
        ],
        side == 5 ==> face_corners(
            VoxelIdx { x: x as i32, y: y as i32, z: z as i32 },
            face_dir(5, 1, 1),
        ) == seq![
            cube_corner(x, y, z, 0, 0, 0),
            cube_corner(x, y, z, 1, 0, 0),
            cube_corner(x, y, z, 1, 1, 0),
            cube_corner(x, y, z, 0, 1, 0),
        ],
{
    if side == 0 {
        let r = face_corners(
            VoxelIdx { x: x as i32, y: (y + 1) as i32, z: z as i32 },
            face_dir(0, 1, 1),
        );
        assert(r =~= seq![
            cube_corner(x, y, z, 0, 1, 0),
            cube_corner(x, y, z, 1, 1, 0),
            cube_corner(x, y, z, 1, 1, 1),
            cube_corner(x, y, z, 0, 1, 1),
        ]);
    } else if side == 1 {
        let r = face_corners(
            VoxelIdx { x: (x + 1) as i32, y: y as i32, z: z as i32 },
            face_dir(1, 1, 1),
        );
        assert(r =~= seq![
            cube_corner(x, y, z, 1, 0, 0),
            cube_corner(x, y, z, 0, 0, 0),
            cube_corner(x, y, z, 0, 0, 1),
            cube_corner(x, y, z, 1, 0, 1),
        ]);
    } else if side == 2 {
        let r = face_corners(
            VoxelIdx { x: (x + 1) as i32, y: (y + 1) as i32, z: z as i32 },
            face_dir(2, 1, 1),
        );
        assert(r =~= seq![
            cube_corner(x, y, z, 1, 1, 0),
            cube_corner(x, y, z, 1, 0, 0),
            cube_corner(x, y, z, 1, 0, 1),
            cube_corner(x, y, z, 1, 1, 1),
        ]);
    } else if side == 3 {
        let r = face_corners(VoxelIdx { x: x as i32, y: y as i32, z: z as i32 }, face_dir(3, 1, 1));
        assert(r =~= seq![
            cube_corner(x, y, z, 0, 0, 0),
            cube_corner(x, y, z, 0, 1, 0),
            cube_corner(x, y, z, 0, 1, 1),
            cube_corner(x, y, z, 0, 0, 1),
        ]);
    } else if side == 4 {
        let r = face_corners(
            VoxelIdx { x: (x + 1) as i32, y: y as i32, z: (z + 1) as i32 },
            face_dir(4, 1, 1),
        );
        assert(r =~= seq![
            cube_corner(x, y, z, 1, 0, 1),
            cube_corner(x, y, z, 0, 0, 1),
            cube_corner(x, y, z, 0, 1, 1),
            cube_corner(x, y, z, 1, 1, 1),
        ]);
    } else {
        let r = face_corners(VoxelIdx { x: x as i32, y: y as i32, z: z as i32 }, face_dir(5, 1, 1));
        assert(r =~= seq![
            cube_corner(x, y, z, 0, 0, 0),
            cube_corner(x, y, z, 1, 0, 0),
            cube_corner(x, y, z, 1, 1, 0),
            cube_corner(x, y, z, 0, 1, 0),
        ]);
    }
}

/// The model with the quad over four corners, of which it holds the first
/// four of eight distinct ones.
proof fn lemma_quad_of_next_four(m: ModelView, all: Seq<Corner>)
    requires
        all.len() == 8,
        all.no_duplicates(),
        m.vertices == all.subrange(0, 4),
    ensures
        m.with_quad(all.subrange(4, 8)).vertices == all,
        m.with_quad(all.subrange(4, 8)).faces == m.faces.push((4, 5, 6, 7)),
{
    let c = all.subrange(4, 8);
    let v0 = m.vertices;
    assert(c[0] == all[4] && c[1] == all[5] && c[2] == all[6] && c[3] == all[7]);
    assert(!v0.contains(all[4])) by {
        if v0.contains(all[4]) {
            let j = v0.index_of(all[4]);
            assert(all[j] == all[4]);
        }
    }
    let v1 = unique_push(v0, c[0]);
    assert(v1 =~= all.subrange(0, 5));
    assert(!v1.contains(all[5])) by {
        if v1.contains(all[5]) {
            let j = v1.index_of(all[5]);
            assert(all[j] == all[5]);
        }
    }
    let v2 = unique_push(v1, c[1]);
    assert(v2 =~= all.subrange(0, 6));
    assert(!v2.contains(all[6])) by {
        if v2.contains(all[6]) {
            let j = v2.index_of(all[6]);
            assert(all[j] == all[6]);
        }
    }
    let v3 = unique_push(v2, c[2]);
    assert(v3 =~= all.subrange(0, 7));
    assert(!v3.contains(all[7])) by {
        if v3.contains(all[7]) {
            let j = v3.index_of(all[7]);
            assert(all[j] == all[7]);
        }
    }
    let v4 = unique_push(v3, c[3]);
    assert(v4 =~= all);
    assert(all.index_of(all[4]) == 4);
    assert(all.index_of(all[5]) == 5);
    assert(all.index_of(all[6]) == 6);
    assert(all.index_of(all[7]) == 7);
}

proof fn lemma_cube_first_sides(mv: ModelView, x: u64, y: u64, z: u64)
    requires
        x < 32,
        y < 32,
        z < 32,
        mv.vertices.len() == 0,
        mv.faces.len() == 0,
    ensures
        with_sides(mv, unit_quads(x, y, z), 2).vertices == cube_corners(x, y, z),
        with_sides(mv, unit_quads(x, y, z), 2).faces == cube_faces().subrange(0, 2),
{
    let q = unit_quads(x, y, z);
    let all = cube_corners(x, y, z);
    lemma_cube_corners(x, y, z);
    reveal_with_fuel(with_sides, 3);
    let m1 = with_sides(mv, q, 1);
    lemma_one_quad(mv, 0, x, (y + 1) as u64, z);
    lemma_unit_face(0, x, y, z);
    let top = all.subrange(0, 4);
    assert(top =~= seq![all[0], all[1], all[2], all[3]]);
    assert(top.no_duplicates());
    lemma_quad_of_four(mv, top);
    assert(m1.vertices == top);
    let m2 = with_sides(mv, q, 2);
    lemma_one_quad(m1, 1, (x + 1) as u64, y, z);
    lemma_unit_face(1, x, y, z);
    assert(all.subrange(4, 8) =~= seq![all[4], all[5], all[6], all[7]]);
    lemma_quad_of_next_four(m1, all);
    assert(m2.faces =~= cube_faces().subrange(0, 2));
}

proof fn lemma_cube_next_side(mv: ModelView, x: u64, y: u64, z: u64, n: int)
    requires
        x < 32,
        y < 32,
        z < 32,
        2 <= n < 6,
        with_sides(mv, unit_quads(x, y, z), n).vertices == cube_corners(x, y, z),
        with_sides(mv, unit_quads(x, y, z), n).faces == cube_faces().subrange(0, n),
    ensures
        with_sides(mv, unit_quads(x, y, z), n + 1).vertices == cube_corners(x, y, z),
        with_sides(mv, unit_quads(x, y, z), n + 1).faces == cube_faces().subrange(0, n + 1),
{
    let q = unit_quads(x, y, z);
    let all = cube_corners(x, y, z);
    lemma_cube_corners(x, y, z);
    let m = with_sides(mv, q, n);
    let next = with_sides(mv, q, n + 1);
    assert(next == with_side(m, n, q[n]));
    lemma_unit_face(n, x, y, z);
    if n == 2 {
        lemma_one_quad(m, 2, (x + 1) as u64, (y + 1) as u64, z);
        lemma_quad_of_known(m, seq![all[1], all[4], all[7], all[2]], (1, 4, 7, 2));
    } else if n == 3 {
        lemma_one_quad(m, 3, x, y, z);
        lemma_quad_of_known(m, seq![all[5], all[0], all[3], all[6]], (5, 0, 3, 6));
    } else if n == 4 {
        lemma_one_quad(m, 4, (x + 1) as u64, y, (z + 1) as u64);
        lemma_quad_of_known(m, seq![all[7], all[6], all[3], all[2]], (7, 6, 3, 2));
    } else {
        lemma_one_quad(m, 5, x, y, z);
        lemma_quad_of_known(m, seq![all[5], all[4], all[1], all[0]], (5, 4, 1, 0));
    }
    assert(next.faces =~= cube_faces().subrange(0, n + 1));
}

/// The six unit quads of a single cell become six faces over the eight
/// corners of the cell's cube, every corner once.
pub proof fn lemma_unit_cube(mv: ModelView, x: u64, y: u64, z: u64)
    requires
        x < 32,
        y < 32,
        z < 32,
        mv.vertices.len() == 0,
        mv.faces.len() == 0,
    ensures
        with_sides(mv, unit_quads(x, y, z), 6).vertices == cube_corners(x, y, z),
        with_sides(mv, unit_quads(x, y, z), 6).faces == cube_faces(),
        cube_corners(x, y, z).no_duplicates(),
        cube_corners(x, y, z).len() == 8,
        cube_faces().len() == 6,
{
    lemma_cube_corners(x, y, z);
    lemma_cube_first_sides(mv, x, y, z);
    lemma_cube_next_side(mv, x, y, z, 2);
    lemma_cube_next_side(mv, x, y, z, 3);
    lemma_cube_next_side(mv, x, y, z, 4);
    lemma_cube_next_side(mv, x, y, z, 5);
    assert(cube_faces().subrange(0, 6) =~= cube_faces());
}

} // verus!
