//! The output surface: an indexed quad mesh and a raw triangle mesh.
use crate::voxelidx::VoxelIdx;
use indexmap::IndexSet;
use vstd::prelude::*;

verus! {

/// A vertex of the quad mesh: its three integer coordinates.
pub type Corner = (i32, i32, i32);

/// The set of vertices, in the order in which they were first added.
pub type VertexSet = IndexSet<Corner>;

#[verifier::external_type_specification]
#[verifier::external_body]
#[verifier::reject_recursive_types(T)]
#[verifier::reject_recursive_types(S)]
pub struct ExIndexSet<T, S>(IndexSet<T, S>);

/// The vertices that a set holds, in insertion order.
pub uninterp spec fn vertex_seq(s: VertexSet) -> Seq<Corner>;

/// `s` with `v` appended unless `s` holds it already.
pub open spec fn unique_push<T>(s: Seq<T>, v: T) -> Seq<T> {
    if s.contains(v) {
        s
    } else {
        s.push(v)
    }
}

/// `IndexSet::new`: a set that holds nothing.
#[verifier::external_body]
pub(crate) fn vertex_set_new() -> (s: VertexSet)
    ensures
        vertex_seq(s).len() == 0,
{
    IndexSet::new()
}

/// `IndexSet::insert_full`: where the set holds `v` already, nothing changes
/// and an index of `v` is returned; otherwise `v` is appended and its new
/// index, the former length, is returned.
#[verifier::external_body]
pub(crate) fn vertex_set_insert_full(s: &mut VertexSet, v: Corner) -> (r: usize)
    ensures
        vertex_seq(*final(s)) == unique_push(vertex_seq(*old(s)), v),
        r < vertex_seq(*final(s)).len(),
        vertex_seq(*final(s))[r as int] == v,
{
    s.insert_full(v).0
}

/// `IndexSet::len`: the number of vertices held.
#[verifier::external_body]
pub(crate) fn vertex_set_len(s: &VertexSet) -> (r: usize)
    ensures
        r == vertex_seq(*s).len(),
{
    s.len()
}

/// `IndexSet::iter`: the vertices in insertion order.
#[verifier::external_body]
pub(crate) fn vertex_set_to_vec(s: &VertexSet) -> (r: Vec<Corner>)
    ensures
        r@ == vertex_seq(*s),
{
    s.iter().copied().collect()
}

/// Adding a value unless it is there keeps a sequence free of duplicates.
pub proof fn lemma_unique_push<T>(s: Seq<T>, v: T)
    requires
        s.no_duplicates(),
    ensures
        unique_push(s, v).no_duplicates(),
        unique_push(s, v).contains(v),
        forall|i: int| 0 <= i < s.len() ==> unique_push(s, v)[i] == s[i],
{
    if !s.contains(v) {
        let t = s.push(v);
        assert(t[s.len() as int] == v);
        assert forall|i: int, j: int| 0 <= i < t.len() && 0 <= j < t.len() && i != j implies t[i]
            != t[j] by {
            if i < s.len() && j < s.len() {
            } else if i < s.len() {
                assert(s[i] == t[i]);
                assert(s.contains(t[i]));
            } else {
                assert(s[j] == t[j]);
                assert(s.contains(t[j]));
            }
        }
    }
}

/// The coordinates of a lattice cell as a vertex.
pub open spec fn corner_of(c: VoxelIdx) -> Corner {
    (c.x, c.y, c.z)
}

/// The four corners of the face that starts at `coord` and spans `dir`, in
/// winding order. `dir` has one component equal to zero, the face's normal
/// axis; where several are zero the first of x, y, z is taken.
pub open spec fn face_corners(coord: VoxelIdx, dir: VoxelIdx) -> Seq<Corner> {
    let dx = VoxelIdx { x: dir.x, y: 0, z: 0 };
    let dy = VoxelIdx { x: 0, y: dir.y, z: 0 };
    let dz = VoxelIdx { x: 0, y: 0, z: dir.z };
    if dir.x == 0 {
        seq![
            corner_of(coord),
            corner_of(coord.spec_offset(dy)),
            corner_of(coord.spec_offset(VoxelIdx { x: 0, y: dir.y, z: dir.z })),
            corner_of(coord.spec_offset(dz)),
        ]
    } else if dir.y == 0 {
        seq![
            corner_of(coord),
            corner_of(coord.spec_offset(dx)),
            corner_of(coord.spec_offset(VoxelIdx { x: dir.x, y: 0, z: dir.z })),
            corner_of(coord.spec_offset(dz)),
        ]
    } else {
        seq![
            corner_of(coord),
            corner_of(coord.spec_offset(dx)),
            corner_of(coord.spec_offset(VoxelIdx { x: dir.x, y: dir.y, z: 0 })),
            corner_of(coord.spec_offset(dy)),
        ]
    }
}

/// A model as a mathematical value.
pub struct ModelView {
    pub id: u64,
    pub offset: VoxelIdx,
    /// The vertices of the quad mesh, none twice.
    pub vertices: Seq<Corner>,
    /// The quads: four indices into `vertices` each.
    pub faces: Seq<(int, int, int, int)>,
    /// Positions of the triangle mesh, as IEEE 754 single-precision bits.
    pub raw_vertices: Seq<(u32, u32, u32)>,
    /// Triangles: three indices into `raw_vertices` each.
    pub raw_triangles: Seq<(u32, u32, u32)>,
    /// Normals of the triangle mesh, as IEEE 754 single-precision bits.
    pub raw_normals: Seq<(u32, u32, u32)>,
}

impl ModelView {
    /// The model with the vertices `c` added, each unless it is there
    /// already, and the quad over them appended.
    pub open spec fn with_quad(self, c: Seq<Corner>) -> ModelView {
        let v = unique_push(
            unique_push(unique_push(unique_push(self.vertices, c[0]), c[1]), c[2]),
            c[3],
        );
        ModelView {
            vertices: v,
            faces: self.faces.push(
                (v.index_of(c[0]), v.index_of(c[1]), v.index_of(c[2]), v.index_of(c[3])),
            ),
            ..self
        }
    }

    /// The model with the face that starts at `coord` and spans `dir` added.
    pub open spec fn with_face(self, coord: VoxelIdx, dir: VoxelIdx) -> ModelView {
        self.with_quad(face_corners(coord, dir))
    }

    /// The model with five faces of the cube of edge `size` at `coord`
    /// added: two at `coord`, three at the opposite corner.
    pub open spec fn with_cube(self, coord: VoxelIdx, size: int) -> ModelView {
        let s = size as i32;
        let n = (-size) as i32;
        let far = coord.spec_offset(VoxelIdx { x: s, y: s, z: s });
        self.with_face(coord, VoxelIdx { x: s, y: 0, z: s }).with_face(
            coord,
            VoxelIdx { x: 0, y: s, z: s },
        ).with_face(far, VoxelIdx { x: n, y: n, z: 0 }).with_face(
            far,
            VoxelIdx { x: n, y: 0, z: n },
        ).with_face(far, VoxelIdx { x: 0, y: n, z: n })
    }
}

/// A surface: an id, a world offset, a quad mesh over shared integer
/// vertices, and a triangle mesh with positions and normals held as the bit
/// patterns of single-precision numbers.
pub struct Model {
    id: u64,
    offset: VoxelIdx,
    vertices: VertexSet,
    faces: Vec<[usize; 4]>,
    raw_vertices: Vec<[u32; 3]>,
    raw_triangles: Vec<[u32; 3]>,
    raw_normals: Vec<[u32; 3]>,
}

/// A quad's four indices as a tuple.
pub open spec fn face_tuple(f: [usize; 4]) -> (int, int, int, int) {
    (f@[0] as int, f@[1] as int, f@[2] as int, f@[3] as int)
}

/// A triple of words as a tuple.
pub open spec fn word_triple(t: [u32; 3]) -> (u32, u32, u32) {
    (t@[0], t@[1], t@[2])
}

impl View for Model {
    type V = ModelView;

    closed spec fn view(&self) -> ModelView {
        ModelView {
            id: self.id,
            offset: self.offset,
            vertices: vertex_seq(self.vertices),
            faces: self.faces@.map_values(|f: [usize; 4]| face_tuple(f)),
            raw_vertices: self.raw_vertices@.map_values(|t: [u32; 3]| word_triple(t)),
            raw_triangles: self.raw_triangles@.map_values(|t: [u32; 3]| word_triple(t)),
            raw_normals: self.raw_normals@.map_values(|t: [u32; 3]| word_triple(t)),
        }
    }
}

impl Default for Model {
    fn default() -> (r: Model)
        ensures
            r.wf(),
            r@.id == 0,
            r@.offset == (VoxelIdx { x: 0, y: 0, z: 0 }),
            r@.vertices.len() == 0,
            r@.faces.len() == 0,
            r@.raw_vertices.len() == 0,
            r@.raw_triangles.len() == 0,
            r@.raw_normals.len() == 0,
    {
        Model {
            id: 0,
            offset: VoxelIdx { x: 0, y: 0, z: 0 },
            vertices: vertex_set_new(),
            faces: Vec::new(),
            raw_vertices: Vec::new(),
            raw_triangles: Vec::new(),
            raw_normals: Vec::new(),
        }
    }
}

impl Model {
    /// No vertex of the quad mesh occurs twice.
    pub open spec fn wf(&self) -> bool {
        self@.vertices.no_duplicates()
    }


    pub fn id(&self) -> (r: u64)
        ensures
            r == self@.id,
    {
        self.id
    }

    pub fn offset(&self) -> (r: VoxelIdx)
        ensures
            r == self@.offset,
    {
        self.offset
    }

    pub fn set_id(&mut self, id: u64)
        ensures
            final(self)@ == (ModelView { id: id, ..old(self)@ }),
    {
        self.id = id;
    }

    pub fn set_offset(&mut self, offset: VoxelIdx)
        ensures
            final(self)@ == (ModelView { offset: offset, ..old(self)@ }),
    {
        self.offset = offset;
    }

    /// The vertices of the quad mesh, in the order of their indices.
    pub fn vertices(&self) -> (r: Vec<Corner>)
        ensures
            r@ == self@.vertices,
    {
        vertex_set_to_vec(&self.vertices)
    }

    /// The number of vertices of the quad mesh.
    pub fn vertex_count(&self) -> (r: usize)
        ensures
            r == self@.vertices.len(),
    {
        vertex_set_len(&self.vertices)
    }

    /// The quads, four vertex indices each.
    pub fn faces(&self) -> (r: &Vec<[usize; 4]>)
        ensures
            r@.map_values(|f: [usize; 4]| face_tuple(f)) == self@.faces,
    {
        &self.faces
    }

    /// The positions of the triangle mesh, three words each.
    pub fn raw_vertices(&self) -> (r: &Vec<[u32; 3]>)
        ensures
            r@.map_values(|t: [u32; 3]| word_triple(t)) == self@.raw_vertices,
    {
        &self.raw_vertices
    }

    /// The triangles, three indices each.
    pub fn raw_triangles(&self) -> (r: &Vec<[u32; 3]>)
        ensures
            r@.map_values(|t: [u32; 3]| word_triple(t)) == self@.raw_triangles,
    {
        &self.raw_triangles
    }

    /// The normals of the triangle mesh, three words each.
    pub fn raw_normals(&self) -> (r: &Vec<[u32; 3]>)
        ensures
            r@.map_values(|t: [u32; 3]| word_triple(t)) == self@.raw_normals,
    {
        &self.raw_normals
    }

    /// Appends a position to the triangle mesh.
    pub fn push_raw_vertex(&mut self, p: [u32; 3])
        ensures
            final(self)@ == (ModelView {
                raw_vertices: old(self)@.raw_vertices.push(word_triple(p)),
                ..old(self)@
            }),
    {
        self.raw_vertices.push(p);
        proof {
            assert(self@.raw_vertices =~= old(self)@.raw_vertices.push(word_triple(p)));
        }
    }

    /// Appends a normal to the triangle mesh.
    pub fn push_raw_normal(&mut self, n: [u32; 3])
        ensures
            final(self)@ == (ModelView {
                raw_normals: old(self)@.raw_normals.push(word_triple(n)),
                ..old(self)@
            }),
    {
        self.raw_normals.push(n);
        proof {
            assert(self@.raw_normals =~= old(self)@.raw_normals.push(word_triple(n)));
        }
    }

    /// Appends a triangle to the triangle mesh.
    pub fn push_raw_triangle(&mut self, t: [u32; 3])
        ensures
            final(self)@ == (ModelView {
                raw_triangles: old(self)@.raw_triangles.push(word_triple(t)),
                ..old(self)@
            }),
    {
        self.raw_triangles.push(t);
        proof {
            assert(self@.raw_triangles =~= old(self)@.raw_triangles.push(word_triple(t)));
        }
    }

    /// Adds a vertex unless the mesh holds it already, and returns its index.
    pub fn add_vert(&mut self, coord: VoxelIdx) -> (idx: usize)
        requires
            old(self).wf(),
        ensures
            final(self).wf(),
            final(self)@ == (ModelView {
                vertices: unique_push(old(self)@.vertices, corner_of(coord)),
                ..old(self)@
            }),
            idx < final(self)@.vertices.len(),
            final(self)@.vertices[idx as int] == corner_of(coord),
    {
        proof {
            lemma_unique_push(vertex_seq(self.vertices), corner_of(coord));
        }
        vertex_set_insert_full(&mut self.vertices, (coord.x, coord.y, coord.z))
    }

    /// Adds the face that starts at `coord` and spans `dir`: its four
    /// corners become vertices unless they are already, and the quad over
    /// their indices is appended.
    pub fn add_face(&mut self, coord: VoxelIdx, dir: VoxelIdx)
        requires
            old(self).wf(),
        ensures
            final(self).wf(),
            final(self)@ == old(self)@.with_face(coord, dir),
    {
        let (c1, c2, c3) = if dir.x == 0 {
            (coord.offset(dir.y()), coord.offset(dir.yz()), coord.offset(dir.z()))
        } else if dir.y == 0 {
            (coord.offset(dir.x()), coord.offset(dir.xz()), coord.offset(dir.z()))
        } else {
            (coord.offset(dir.x()), coord.offset(dir.xy()), coord.offset(dir.y()))
        };
        let ghost c = face_corners(coord, dir);
        assert(c[0] == corner_of(coord) && c[1] == corner_of(c1) && c[2] == corner_of(c2) && c[3]
            == corner_of(c3));
        let i0 = self.add_vert(coord);
        let ghost v0 = self@.vertices;
        let i1 = self.add_vert(c1);
        let ghost v1 = self@.vertices;
        let i2 = self.add_vert(c2);
        let ghost v2 = self@.vertices;
        let i3 = self.add_vert(c3);
        let ghost v = self@.vertices;
        self.faces.push([i0, i1, i2, i3]);
        proof {
            assert(v0[i0 as int] == c[0]);
            assert(v1[i0 as int] == c[0] && v1[i1 as int] == c[1]);
            assert(v2[i0 as int] == c[0] && v2[i1 as int] == c[1] && v2[i2 as int] == c[2]);
            assert(v[i0 as int] == c[0] && v[i1 as int] == c[1] && v[i2 as int] == c[2] && v[i3 as int]
                == c[3]);
            assert(v.contains(c[0]) && v.contains(c[1]) && v.contains(c[2]) && v.contains(c[3]));
            let j0 = v.index_of(c[0]);
            let j1 = v.index_of(c[1]);
            let j2 = v.index_of(c[2]);
            let j3 = v.index_of(c[3]);
            assert(j0 == i0 && j1 == i1 && j2 == i2 && j3 == i3);
            assert(self@.faces =~= old(self)@.faces.push((j0, j1, j2, j3)));
        }
    }

    /// Adds five faces of the unit cube at `coord`.
    pub fn add_cube(&mut self, coord: VoxelIdx)
        requires
            old(self).wf(),
        ensures
            final(self).wf(),
            final(self)@ == old(self)@.with_cube(coord, 1),
    {
        self.add_cube_size(coord, 1);
    }

    /// Adds five faces of the cube of edge `size` at `coord`: two that start
    /// at `coord`, three that start at the opposite corner.
    pub fn add_cube_size(&mut self, coord: VoxelIdx, size: i32)
        requires
            old(self).wf(),
            size > i32::MIN,
        ensures
            final(self).wf(),
            final(self)@ == old(self)@.with_cube(coord, size as int),
    {
        self.add_face(coord, VoxelIdx { x: size, y: 0, z: size });
        self.add_face(coord, VoxelIdx { x: 0, y: size, z: size });

        let coord = coord.offset(VoxelIdx::unitsize(size));

        self.add_face(coord, VoxelIdx { x: -size, y: -size, z: 0 });
        self.add_face(coord, VoxelIdx { x: -size, y: 0, z: -size });
        self.add_face(coord, VoxelIdx { x: 0, y: -size, z: -size });
    }
}

} // verus!
