//! The surface-nets backend: a chunked store that hands each changed chunk,
//! with a halo read from its neighbours, to a dual-contour mesher outside,
//! and frames the triangle meshes that come back.
use crate::bounding_box::BoundingBox;
use crate::cell::{BGMCell, CS_P, CS_P2, CS_P3};
use crate::chunk_key::{chunk_base, chunk_origin};
use crate::chunked_base::{present, slot_of, ChunkedBase};
use crate::marks::{chunk_coord_key, forget_all, mark_all, marks_of};
use crate::dirty::{share, without, without_all, DirtyTracker};
use crate::model::{lemma_unique_push, unique_push, word_triple, Model, ModelView};
use crate::padded::{bit_value, padded_len};
use crate::stream::{len_u32, low_u32};
use crate::voxel::{Voxel, WriteOptions};
use crate::voxelidx::VoxelIdx;
use crate::wire::{le_u32, le_u64, put_u32, put_u64};
use std::collections::HashMap;
use std::rc::Rc;
use vstd::prelude::*;

verus! {

broadcast use vstd::std_specs::hash::group_hash_axioms;

/// The cell of the lattice that the sample at linear index `i` of the chunk
/// `key` stands for: the chunk's cells from 1 to 32 on every axis, its
/// neighbours' cells at 0 and 33.
pub open spec fn sample_cell(key: u64, i: int) -> VoxelIdx {
    VoxelIdx {
        x: (chunk_origin(key).x + i % 34 - 1) as i32,
        y: (chunk_origin(key).y + (i / 34) % 34 - 1) as i32,
        z: (chunk_origin(key).z + i / 1156 - 1) as i32,
    }
}

/// The first occurrences of the values of `s`, in order.
pub open spec fn first_seen(s: Seq<u32>) -> Seq<u32>
    decreases s.len(),
{
    if s.len() == 0 {
        Seq::<u32>::empty()
    } else {
        unique_push(first_seen(s.drop_last()), s.last())
    }
}

/// The first occurrences hold every value of the sequence, each once.
pub proof fn lemma_first_seen(s: Seq<u32>)
    ensures
        first_seen(s).no_duplicates(),
        forall|j: int| 0 <= j < s.len() ==> first_seen(s).contains(#[trigger] s[j]),
    decreases s.len(),
{
    if s.len() > 0 {
        let head = s.drop_last();
        lemma_first_seen(head);
        let m = first_seen(head);
        lemma_unique_push(m, s.last());
        let r = unique_push(m, s.last());
        assert forall|j: int| 0 <= j < s.len() implies r.contains(#[trigger] s[j]) by {
            if j < head.len() {
                assert(head[j] == s[j]);
                let t = m.index_of(s[j]);
                assert(r[t] == s[j]);
            }
        }
    }
}

/// The triangle number `k` of the index list `indices`, with every index
/// replaced by its position among the first occurrences.
pub open spec fn compact_triangle(indices: Seq<u32>, k: int) -> (u32, u32, u32) {
    let order = first_seen(indices);
    (
        low_u32(order.index_of(indices[3 * k])),
        low_u32(order.index_of(indices[3 * k + 1])),
        low_u32(order.index_of(indices[3 * k + 2])),
    )
}

/// Drops the vertices that no triangle uses. Returns the indices of the
/// vertices that remain, in the order in which the triangles first use
/// them, and the triangles with every index replaced by its place in that
/// order. Indices left over after the last whole triangle are ignored.
pub fn compact_indices(indices: &Vec<u32>) -> (r: (Vec<u32>, Vec<[u32; 3]>))
    ensures
        r.0@ == first_seen(indices@),
        r.1@.len() == indices@.len() / 3,
        forall|k: int|
            0 <= k < r.1@.len() ==> word_triple(#[trigger] r.1@[k]) == compact_triangle(
                indices@,
                k,
            ),
{
    // oldindex -> newindex
    let mut set: HashMap<u32, u32> = HashMap::new();
    let mut new_indices: Vec<u32> = Vec::new();
    let mut i: usize = 0;
    while i < indices.len()
        invariant
            i <= indices@.len(),
            new_indices@ == first_seen(indices@.subrange(0, i as int)),
            new_indices@.no_duplicates(),
            set@.dom() == new_indices@.to_set(),
            forall|v: u32| #[trigger]
                set@.dom().contains(v) ==> set@[v] == low_u32(new_indices@.index_of(v)),
        decreases indices@.len() - i,
    {
        let oi = indices[i];
        proof {
            let s = indices@.subrange(0, i as int + 1);
            assert(s.drop_last() == indices@.subrange(0, i as int));
            assert(s.last() == oi);
            lemma_unique_push(new_indices@, oi);
        }
        if !set.contains_key(&oi) {
            let ni = len_u32(new_indices.len());
            let ghost before = new_indices@;
            set.insert(oi, ni);
            new_indices.push(oi);
            proof {
                assert(!before.contains(oi));
                assert(new_indices@[before.len() as int] == oi);
                assert(new_indices@.index_of(oi) == before.len());
                assert(set@.dom() =~= new_indices@.to_set()) by {
                    assert forall|v: u32| set@.dom().contains(v) == new_indices@.to_set().contains(
                        v,
                    ) by {
                        if before.contains(v) {
                            let j = before.index_of(v);
                            assert(new_indices@[j] == v);
                        }
                        if new_indices@.contains(v) && v != oi {
                            let j = new_indices@.index_of(v);
                            assert(before[j] == v);
                        }
                    }
                }
                assert forall|v: u32| #[trigger] set@.dom().contains(v) implies set@[v] == low_u32(
                    new_indices@.index_of(v),
                ) by {
                    if v != oi {
                        assert(before.contains(v));
                        let j = before.index_of(v);
                        assert(new_indices@[j] == v);
                        assert(new_indices@.index_of(v) == j);
                    }
                }
            }
        } else {
            proof {
                assert(new_indices@.to_set().contains(oi));
            }
        }
        i = i + 1;
    }
    proof {
        assert(indices@.subrange(0, indices@.len() as int) == indices@);
        lemma_first_seen(indices@);
    }

    let mut triangles: Vec<[u32; 3]> = Vec::new();
    let triangle_count = indices.len() / 3;
    let mut k: usize = 0;
    while k < triangle_count
        invariant
            k <= triangle_count,
            triangle_count == indices@.len() / 3,
            indices@.len() <= usize::MAX,
            new_indices@ == first_seen(indices@),
            set@.dom() == new_indices@.to_set(),
            forall|j: int| 0 <= j < indices@.len() ==> new_indices@.contains(#[trigger] indices@[j]),
            forall|v: u32| #[trigger]
                set@.dom().contains(v) ==> set@[v] == low_u32(new_indices@.index_of(v)),
            triangles@.len() == k,
            forall|t: int|
                0 <= t < k ==> word_triple(#[trigger] triangles@[t]) == compact_triangle(
                    indices@,
                    t,
                ),
        decreases triangle_count - k,
    {
        proof {
            vstd::arithmetic::div_mod::lemma_fundamental_div_mod(indices@.len() as int, 3);
            assert(3 * (k as int) + 2 < indices@.len());
        }
        let oi1 = indices[k * 3];
        let oi2 = indices[k * 3 + 1];
        let oi3 = indices[k * 3 + 2];
        proof {
            assert(new_indices@.contains(indices@[k * 3]));
            assert(new_indices@.contains(indices@[k * 3 + 1]));
            assert(new_indices@.contains(indices@[k * 3 + 2]));
            assert(new_indices@.to_set().contains(oi1));
            assert(new_indices@.to_set().contains(oi2));
            assert(new_indices@.to_set().contains(oi3));
        }
        let ni1 = lookup(&set, oi1);
        let ni2 = lookup(&set, oi2);
        let ni3 = lookup(&set, oi3);
        triangles.push([ni1, ni2, ni3]);
        k = k + 1;
    }
    (new_indices, triangles)
}

fn lookup(set: &HashMap<u32, u32>, key: u32) -> (r: u32)
    requires
        set@.dom().contains(key),
    ensures
        r == set@[key],
{
    match set.get(&key) {
        Some(v) => *v,
        None => 0,
    }
}

/// The triples of `data` at the places `order` names, in that order.
pub open spec fn picked(data: Seq<[u32; 3]>, order: Seq<u32>) -> Seq<(u32, u32, u32)> {
    Seq::new(order.len(), |i: int| word_triple(data[order[i] as int]))
}

/// The triangle mesh of a chunk as a mathematical value: tagged with the
/// chunk's key, placed at the middle of the chunk, with the vertices that
/// the triangles use, in the order of first use, and the triangles over them.
pub open spec fn surface_model(
    idx: u64,
    positions: Seq<[u32; 3]>,
    normals: Seq<[u32; 3]>,
    indices: Seq<u32>,
) -> ModelView {
    ModelView {
        id: idx,
        offset: VoxelIdx {
            x: (chunk_origin(idx).x + 16) as i32,
            y: (chunk_origin(idx).y + 16) as i32,
            z: (chunk_origin(idx).z + 16) as i32,
        },
        vertices: Seq::empty(),
        faces: Seq::empty(),
        raw_vertices: picked(positions, first_seen(indices)),
        raw_triangles: Seq::new((indices.len() / 3) as nat, |k: int| compact_triangle(indices, k)),
        raw_normals: picked(normals, first_seen(indices)),
    }
}

/// Every value of the first occurrences is a value of the sequence.
pub proof fn lemma_first_seen_values(s: Seq<u32>)
    ensures
        forall|j: int|
            0 <= j < first_seen(s).len() ==> s.contains(#[trigger] first_seen(s)[j]),
    decreases s.len(),
{
    if s.len() > 0 {
        let head = s.drop_last();
        lemma_first_seen_values(head);
        let m = first_seen(head);
        assert forall|j: int| 0 <= j < first_seen(s).len() implies s.contains(
            #[trigger] first_seen(s)[j],
        ) by {
            if j < m.len() {
                assert(first_seen(s)[j] == m[j]);
                let t = head.index_of(m[j]);
                assert(s[t] == m[j]);
            } else {
                assert(first_seen(s)[j] == s.last());
                assert(s[s.len() - 1] == s.last());
            }
        }
    }
}

/// Builds the triangle mesh of the chunk `idx` from what the mesher found:
/// vertex positions and normals as single-precision bit patterns, and the
/// triangle indices. Vertices that no triangle uses are dropped. The model
/// is tagged with the chunk's key and placed at the middle of the chunk.
pub fn assemble_model(
    idx: u64,
    positions: &Vec<[u32; 3]>,
    normals: &Vec<[u32; 3]>,
    indices: &Vec<u32>,
) -> (model: Model)
    requires
        normals@.len() == positions@.len(),
        forall|i: int| 0 <= i < indices@.len() ==> (#[trigger] indices@[i]) < positions@.len(),
    ensures
        model@ == surface_model(idx, positions@, normals@, indices@),
{
    let base = chunk_base(idx);
    proof {
        crate::chunk_key::lemma_origin_bounds(idx);
        lemma_first_seen_values(indices@);
    }
    let r = compact_indices(indices);
    let kept = r.0;
    let triangles = r.1;

    let mut model = Model::default();
    model.set_id(idx);
    model.set_offset(VoxelIdx { x: base.x + 16, y: base.y + 16, z: base.z + 16 });
    let ghost frame = model@;
    let mut i: usize = 0;
    while i < kept.len()
        invariant
            i <= kept@.len(),
            kept@ == first_seen(indices@),
            normals@.len() == positions@.len(),
            forall|j: int| 0 <= j < kept@.len() ==> (#[trigger] kept@[j]) < positions@.len(),
            model@.id == frame.id,
            model@.offset == frame.offset,
            model@.vertices == frame.vertices,
            model@.faces == frame.faces,
            model@.raw_triangles == frame.raw_triangles,
            model@.raw_vertices == picked(positions@, kept@.subrange(0, i as int)),
            model@.raw_normals == picked(normals@, kept@.subrange(0, i as int)),
        decreases kept@.len() - i,
    {
        let oi = kept[i] as usize;
        model.push_raw_vertex(positions[oi]);
        model.push_raw_normal(normals[oi]);
        proof {
            let before = kept@.subrange(0, i as int);
            let after = kept@.subrange(0, i as int + 1);
            assert(picked(positions@, after) =~= picked(positions@, before).push(
                word_triple(positions@[oi as int]),
            ));
            assert(picked(normals@, after) =~= picked(normals@, before).push(
                word_triple(normals@[oi as int]),
            ));
        }
        i = i + 1;
    }
    proof {
        assert(kept@.subrange(0, kept@.len() as int) == kept@);
    }
    let ghost filled = model@;
    let mut k: usize = 0;
    while k < triangles.len()
        invariant
            k <= triangles@.len(),
            triangles@.len() == indices@.len() / 3,
            forall|t: int|
                0 <= t < triangles@.len() ==> word_triple(#[trigger] triangles@[t])
                    == compact_triangle(indices@, t),
            model@.id == filled.id,
            model@.offset == filled.offset,
            model@.vertices == filled.vertices,
            model@.faces == filled.faces,
            model@.raw_vertices == filled.raw_vertices,
            model@.raw_normals == filled.raw_normals,
            model@.raw_triangles == Seq::new(k as nat, |t: int| compact_triangle(indices@, t)),
        decreases triangles@.len() - k,
    {
        model.push_raw_triangle(triangles[k]);
        proof {
            assert(model@.raw_triangles =~= Seq::new(
                (k + 1) as nat,
                |t: int| compact_triangle(indices@, t),
            ));
        }
        k = k + 1;
    }
    proof {
        let want = surface_model(idx, positions@, normals@, indices@);
        assert(model@.vertices =~= want.vertices);
        assert(model@.faces =~= want.faces);
        assert(model@.raw_triangles =~= want.raw_triangles);
    }
    model
}

/// A triple of words, least significant byte first, twelve bytes.
pub open spec fn encode_triple(t: (u32, u32, u32)) -> Seq<u8> {
    le_u32(t.0) + le_u32(t.1) + le_u32(t.2)
}

/// A list of triples: three times its length, then the triples.
pub open spec fn encode_triples(list: Seq<(u32, u32, u32)>) -> Seq<u8> {
    le_u32(low_u32(low_u32(list.len() as int) * 3)) + encode_triple_list(list)
}

/// The triples of a list, one after the other.
pub open spec fn encode_triple_list(list: Seq<(u32, u32, u32)>) -> Seq<u8>
    decreases list.len(),
{
    if list.len() == 0 {
        Seq::<u8>::empty()
    } else {
        encode_triple_list(list.drop_last()) + encode_triple(list.last())
    }
}

/// A triangle mesh in the surface-nets layout: the id, the offset as three
/// single-precision bit patterns, then positions, normals and triangle
/// indices, each list after three times its length.
pub open spec fn model_bytes(
    id: u64,
    offset_bits: (u32, u32, u32),
    raw_vertices: Seq<(u32, u32, u32)>,
    raw_normals: Seq<(u32, u32, u32)>,
    raw_triangles: Seq<(u32, u32, u32)>,
) -> Seq<u8> {
    le_u64(id) + encode_triple(offset_bits) + encode_triples(raw_vertices) + encode_triples(
        raw_normals,
    ) + encode_triples(raw_triangles)
}

/// The header of a drain in the surface-nets layout: backend id 1, the unit,
/// and the number of chunks that follow.
pub open spec fn surface_header(unit_bits: u32, count: int) -> Seq<u8> {
    le_u32(1) + le_u32(unit_bits) + le_u32(low_u32(count))
}

fn write_triples(list: &Vec<[u32; 3]>, writer: &mut Vec<u8>)
    ensures
        final(writer)@ == old(writer)@ + encode_triples(
            list@.map_values(|t: [u32; 3]| word_triple(t)),
        ),
{
    let ghost mapped = list@.map_values(|t: [u32; 3]| word_triple(t));
    put_u32(writer, len_u32(list.len()).wrapping_mul(3));
    let ghost head = writer@;
    proof {
        let n = low_u32(list@.len() as int);
        assert(n.wrapping_mul(3) == low_u32(n * 3)) by {
            assert(n.wrapping_mul(3u32) == ((n as int * 3) % 0x1_0000_0000) as u32) by (bit_vector);
        }
        assert(mapped.len() == list@.len());
    }
    let mut i: usize = 0;
    assert(writer@ =~= head + encode_triple_list(mapped.subrange(0, 0)));
    while i < list.len()
        invariant
            i <= list@.len(),
            mapped == list@.map_values(|t: [u32; 3]| word_triple(t)),
            writer@ == head + encode_triple_list(mapped.subrange(0, i as int)),
        decreases list@.len() - i,
    {
        let t = list[i];
        proof {
            let s = mapped.subrange(0, i as int + 1);
            assert(s.drop_last() == mapped.subrange(0, i as int));
            assert(s.last() == word_triple(t));
        }
        put_u32(writer, t[0]);
        put_u32(writer, t[1]);
        put_u32(writer, t[2]);
        proof {
            assert(writer@ =~= head + encode_triple_list(mapped.subrange(0, i as int + 1)));
        }
        i = i + 1;
    }
    proof {
        assert(mapped.subrange(0, mapped.len() as int) == mapped);
        assert(writer@ =~= old(writer)@ + encode_triples(mapped));
    }
}

/// Appends a triangle mesh in the surface-nets layout. `offset_bits` are the
/// model's offset as three single-precision bit patterns.
pub fn write_model(model: &Model, offset_bits: [u32; 3], writer: &mut Vec<u8>)
    ensures
        final(writer)@ == old(writer)@ + model_bytes(
            model@.id,
            word_triple(offset_bits),
            model@.raw_vertices,
            model@.raw_normals,
            model@.raw_triangles,
        ),
{
    put_u64(writer, model.id());
    put_u32(writer, offset_bits[0]);
    put_u32(writer, offset_bits[1]);
    put_u32(writer, offset_bits[2]);
    let ghost a = writer@;
    assert(a =~= old(writer)@ + le_u64(model@.id) + encode_triple(word_triple(offset_bits)));
    write_triples(model.raw_vertices(), writer);
    let ghost b = writer@;
    write_triples(model.raw_normals(), writer);
    let ghost c = writer@;
    write_triples(model.raw_triangles(), writer);
    proof {
        assert(writer@ =~= old(writer)@ + model_bytes(
            model@.id,
            word_triple(offset_bits),
            model@.raw_vertices,
            model@.raw_normals,
            model@.raw_triangles,
        ));
    }
}

/// Appends the header of a drain in the surface-nets layout.
pub fn write_surface_header(unit_bits: u32, count: usize, writer: &mut Vec<u8>)
    ensures
        final(writer)@ == old(writer)@ + surface_header(unit_bits, count as int),
{
    put_u32(writer, 1);
    put_u32(writer, unit_bits);
    put_u32(writer, len_u32(count));
    assert(writer@ =~= old(writer)@ + surface_header(unit_bits, count as int));
}

/// A mesh built for a chunk: the chunk's key, the mesh, and the mesh's
/// offset as three single-precision bit patterns.
pub type BuiltMesh = (u64, Rc<Model>, [u32; 3]);

/// The bytes of one built mesh in the surface-nets layout.
pub open spec fn mesh_bytes(mesh: BuiltMesh) -> Seq<u8> {
    model_bytes(
        (*mesh.1)@.id,
        word_triple(mesh.2),
        (*mesh.1)@.raw_vertices,
        (*mesh.1)@.raw_normals,
        (*mesh.1)@.raw_triangles,
    )
}

/// The meshes of a list in the surface-nets layout, one after the other.
pub open spec fn meshes_bytes(meshes: Seq<BuiltMesh>) -> Seq<u8>
    decreases meshes.len(),
{
    if meshes.len() == 0 {
        Seq::<u8>::empty()
    } else {
        meshes_bytes(meshes.drop_last()) + mesh_bytes(meshes.last())
    }
}

/// The payload of a drain in the surface-nets layout: the header with the
/// number of meshes, then the meshes.
pub open spec fn surface_payload(unit_bits: u32, meshes: Seq<BuiltMesh>) -> Seq<u8> {
    surface_header(unit_bits, meshes.len() as int) + meshes_bytes(meshes)
}

/// The keys of the built meshes, in order.
pub open spec fn mesh_keys(meshes: Seq<BuiltMesh>) -> Seq<u64> {
    meshes.map_values(|m: BuiltMesh| m.0)
}

/// The cache after every mesh of the list is installed under its key, in
/// order.
pub open spec fn installed(cache: Map<u64, Rc<Model>>, meshes: Seq<BuiltMesh>) -> Map<
    u64,
    Rc<Model>,
>
    decreases meshes.len(),
{
    if meshes.len() == 0 {
        cache
    } else {
        installed(cache, meshes.drop_last()).insert(meshes.last().0, meshes.last().1)
    }
}

/// Appends the payload of a drain in the surface-nets layout: the header
/// and every mesh of the list.
pub fn write_surface_payload(unit_bits: u32, meshes: &Vec<BuiltMesh>, writer: &mut Vec<u8>)
    ensures
        final(writer)@ == old(writer)@ + surface_payload(unit_bits, meshes@),
{
    write_surface_header(unit_bits, meshes.len(), writer);
    let ghost head = writer@;
    let mut i: usize = 0;
    assert(writer@ =~= head + meshes_bytes(meshes@.subrange(0, 0)));
    while i < meshes.len()
        invariant
            i <= meshes@.len(),
            writer@ == head + meshes_bytes(meshes@.subrange(0, i as int)),
        decreases meshes@.len() - i,
    {
        proof {
            let s = meshes@.subrange(0, i as int + 1);
            assert(s.drop_last() == meshes@.subrange(0, i as int));
            assert(s.last() == meshes@[i as int]);
        }
        let ghost before = writer@;
        write_model(&meshes[i].1, meshes[i].2, writer);
        proof {
            assert(writer@ == before + mesh_bytes(meshes@[i as int]));
            assert(writer@ =~= head + meshes_bytes(meshes@.subrange(0, i as int + 1)));
        }
        i = i + 1;
    }
    proof {
        assert(meshes@.subrange(0, meshes@.len() as int) == meshes@);
        assert(writer@ =~= old(writer)@ + surface_payload(unit_bits, meshes@));
    }
}

/// A chunked store for dual-contour surface meshing.
pub struct FSNVoxel {
    base: ChunkedBase,
    ro: WriteOptions,
    tracker: DirtyTracker,
}

impl FSNVoxel {
    /// The cells of the store.
    pub closed spec fn base(&self) -> ChunkedBase {
        self.base
    }

    /// Whether meshes are decimated before they are handed out.
    pub closed spec fn options(&self) -> WriteOptions {
        self.ro
    }

    /// The record of stale and cached meshes.
    pub closed spec fn tracker(&self) -> DirtyTracker {
        self.tracker
    }

    /// The keys of the chunks whose mesh is stale, oldest first.
    pub open spec fn dirty(&self) -> Seq<u64> {
        self.tracker().dirty()
    }

    /// The chunks by key.
    pub open spec fn chunks(&self) -> Map<u64, BGMCell> {
        self.base().chunks()
    }

    /// The store's invariant: the cells and the record are well formed.
    pub open spec fn inv(&self) -> bool {
        self.base().wf() && self.tracker().wf()
    }

    /// An empty store that hands out meshes as they are.
    pub fn new() -> (r: FSNVoxel)
        ensures
            r.inv(),
            r.dirty().len() == 0,
            r.options() == WriteOptions::Raw,
            r.chunks().dom() == Set::<u64>::empty(),
            r.base().slots() == Set::<(u64, int, int, int)>::empty(),
            r.base().spec_bounding_box().spec_count() == 0,
    {
        FSNVoxel { base: ChunkedBase::new(), ro: WriteOptions::Raw, tracker: DirtyTracker::new() }
    }

    /// Whether meshes are decimated before they are handed out.
    pub fn write_options(&self) -> (r: WriteOptions)
        ensures
            r == self.options(),
    {
        self.ro
    }

    /// The keys of the chunks whose mesh is stale, oldest first.
    pub fn dirty_keys(&self) -> (r: Vec<u64>)
        ensures
            r@ == self.dirty(),
    {
        self.tracker.dirty_list()
    }

    /// The keys of the chunks, each once, in no fixed order.
    pub fn chunk_keys(&self) -> (keys: Vec<u64>)
        ensures
            keys@.no_duplicates(),
            keys@.to_set() == self.chunks().dom(),
    {
        self.base.chunk_keys()
    }

    /// Forgets every cached mesh, so that the next request for a mesh builds
    /// it anew. What is stale stays stale.
    pub fn invalidate_cache(&mut self)
        requires
            old(self).inv(),
        ensures
            final(self).inv(),
            final(self).base() == old(self).base(),
            final(self).options() == old(self).options(),
            final(self).dirty() == old(self).dirty(),
            final(self).tracker().cache().dom() == Set::<u64>::empty(),
    {
        self.tracker.cache_clear();
    }

    /// Marks the chunk with the given chunk coordinates as stale and forgets
    /// its cached mesh. The chunk need not exist.
    pub fn setdirty(&mut self, coord_dirty: VoxelIdx)
        requires
            old(self).inv(),
        ensures
            final(self).inv(),
            final(self).base() == old(self).base(),
            final(self).options() == old(self).options(),
            final(self).dirty() == unique_push(old(self).dirty(), chunk_coord_key(coord_dirty)),
            final(self).tracker().cache() == old(self).tracker().cache().remove(
                chunk_coord_key(coord_dirty),
            ),
    {
        self.tracker.mark_chunk(coord_dirty);
    }

    /// The mesh cached for the chunk `key`, if there is one.
    pub fn cached_model(&self, key: u64) -> (r: Option<Rc<Model>>)
        ensures
            r is Some == self.tracker().cache().dom().contains(key),
            r is Some ==> r.unwrap() == self.tracker().cache()[key],
    {
        self.tracker.cache_get(key)
    }

    /// Installs a fresh mesh for the chunk `key`: it is cached, and the
    /// chunk is stale no longer.
    pub fn rebuild_model(&mut self, key: u64, model: Rc<Model>)
        requires
            old(self).inv(),
        ensures
            final(self).inv(),
            final(self).base() == old(self).base(),
            final(self).options() == old(self).options(),
            final(self).dirty() == without(old(self).dirty(), key),
            final(self).tracker().cache() == old(self).tracker().cache().insert(key, model),
    {
        self.tracker.cache_put(key, model);
    }

    /// Hands out the keys of the stale chunks that exist, oldest first, and
    /// forgets every stale key: afterwards nothing is stale.
    pub fn drain_dirty(&mut self) -> (keys: Vec<u64>)
        requires
            old(self).inv(),
        ensures
            final(self).inv(),
            final(self).base() == old(self).base(),
            final(self).options() == old(self).options(),
            final(self).tracker().cache() == old(self).tracker().cache(),
            final(self).dirty().len() == 0,
            keys@ == present(old(self).chunks(), old(self).dirty()),
    {
        let dirty = self.tracker.drain();
        self.base.existing(&dirty)
    }

    /// Finishes a drain: installs the mesh built for every key that the
    /// drain handed out, and appends the drain's payload.
    pub fn write_drained(&mut self, unit_bits: u32, meshes: &Vec<BuiltMesh>, writer: &mut Vec<u8>)
        requires
            old(self).inv(),
        ensures
            final(self).inv(),
            final(self).base() == old(self).base(),
            final(self).options() == old(self).options(),
            final(self).dirty() == without_all(old(self).dirty(), mesh_keys(meshes@)),
            final(self).tracker().cache() == installed(old(self).tracker().cache(), meshes@),
            final(writer)@ == old(writer)@ + surface_payload(unit_bits, meshes@),
    {
        let mut i: usize = 0;
        proof {
            assert(mesh_keys(meshes@.subrange(0, 0)) =~= Seq::<u64>::empty());
        }
        while i < meshes.len()
            invariant
                i <= meshes@.len(),
                self.inv(),
                self.base() == old(self).base(),
                self.options() == old(self).options(),
                self.dirty() == without_all(
                    old(self).dirty(),
                    mesh_keys(meshes@.subrange(0, i as int)),
                ),
                self.tracker().cache() == installed(
                    old(self).tracker().cache(),
                    meshes@.subrange(0, i as int),
                ),
            decreases meshes@.len() - i,
        {
            proof {
                let s = meshes@.subrange(0, i as int + 1);
                assert(s.drop_last() == meshes@.subrange(0, i as int));
                assert(s.last() == meshes@[i as int]);
                assert(mesh_keys(s).drop_last() =~= mesh_keys(meshes@.subrange(0, i as int)));
                assert(mesh_keys(s).last() == meshes@[i as int].0);
            }
            self.rebuild_model(meshes[i].0, share(&meshes[i].1));
            i = i + 1;
        }
        proof {
            assert(meshes@.subrange(0, meshes@.len() as int) == meshes@);
        }
        write_surface_payload(unit_bits, meshes, writer);
    }

    /// Fills `out` with the occupancy of the chunk `key` and of the layer of
    /// cells around it, in the order the mesher outside reads it (x runs
    /// fastest): 1 for a filled cell, 0 for an empty one. The chunk's own
    /// cells are at 1 to 32 on every axis; the cells at 0 and 33 are read
    /// from the neighbouring chunks.
    pub fn fill_samples(&self, key: u64, out: &mut [u16; CS_P3])
        requires
            self.inv(),
        ensures
            forall|i: int|
                0 <= i < padded_len() ==> #[trigger] final(out)@[i] == bit_value(
                    self.base().filled(sample_cell(key, i)),
                ),
    {
        let base = chunk_base(key);
        let mut i: usize = 0;
        while i < CS_P3
            invariant
                i <= 39304,
                base == chunk_origin(key),
                forall|j: int|
                    0 <= j < i ==> #[trigger] out@[j] == bit_value(
                        self.base().filled(sample_cell(key, j)),
                    ),
            decreases 39304 - i,
        {
            let x = (i % CS_P) as i32;
            let y = ((i / CS_P) % CS_P) as i32;
            let z = (i / CS_P2) as i32;
            proof {
                crate::chunk_key::lemma_origin_bounds(key);
            }
            let worldpos = VoxelIdx { x: base.x + x - 1, y: base.y + y - 1, z: base.z + z - 1 };
            assert(worldpos == sample_cell(key, i as int));
            if self.base.occupied(worldpos) {
                out[i] = 1;
            } else {
                out[i] = 0;
            }
            i = i + 1;
        }
    }
}

impl Default for FSNVoxel {
    fn default() -> (r: FSNVoxel)
        ensures
            r.inv(),
            r.dirty().len() == 0,
            r.options() == WriteOptions::Raw,
            r.chunks().dom() == Set::<u64>::empty(),
            r.base().slots() == Set::<(u64, int, int, int)>::empty(),
            r.base().spec_bounding_box().spec_count() == 0,
    {
        FSNVoxel::new()
    }
}

impl Voxel for FSNVoxel {
    open spec fn wf(&self) -> bool {
        self.inv()
    }

    open spec fn filled(&self, c: VoxelIdx) -> bool {
        self.base().filled(c)
    }

    open spec fn same_cell(a: VoxelIdx, b: VoxelIdx) -> bool {
        slot_of(a) == slot_of(b)
    }

    open spec fn accepts(c: VoxelIdx) -> bool {
        true
    }

    open spec fn tracks_changes() -> bool {
        true
    }

    open spec fn spec_bounding_box(&self) -> BoundingBox {
        self.base().spec_bounding_box()
    }

    fn ranges(&self) -> (r: usize)
        ensures
            r == 0,
    {
        0
    }

    fn bounding_box(&self) -> (r: &BoundingBox) {
        self.base.bounding_box()
    }

    fn occupied(&self, coord: VoxelIdx) -> (r: bool) {
        self.base.occupied(coord)
    }

    /// Fills the cell at `coord`. Where the cell was empty, its chunk
    /// becomes stale, and so does the chunk beyond every face of its chunk
    /// on which the cell lies, because the mesh of that chunk reads the cell.
    /// The cached mesh of every chunk that becomes stale is forgotten.
    fn add(&mut self, coord: VoxelIdx) -> (r: bool)
        ensures
            r == !old(self).filled(coord),
            final(self).options() == old(self).options(),
            final(self).base().slots() == old(self).base().slots().insert(slot_of(coord)),
            r ==> final(self).dirty() == mark_all(old(self).dirty(), marks_of(coord)),
            r ==> final(self).tracker().cache() == forget_all(
                old(self).tracker().cache(),
                marks_of(coord),
            ),
            !r ==> *final(self) == *old(self),
    {
        let added = self.base.add(coord);
        if !added {
            return false;
        }
        self.tracker.mark_write(coord);
        true
    }

    /// The stale chunks are handed out by the drain, so none is counted here.
    fn debug1(&mut self) -> (r: usize)
        ensures
            r == 0,
            *final(self) == *old(self),
    {
        0
    }

    /// Sets whether meshes are decimated. Where the options change, every
    /// cached mesh and every stale key is forgotten.
    fn set_options(&mut self, options: WriteOptions)
        ensures
            final(self).base() == old(self).base(),
            final(self).options() == options,
            options == old(self).options() ==> *final(self) == *old(self),
            options != old(self).options() ==> final(self).dirty().len() == 0 && final(self).tracker().cache().dom() == Set::<u64>::empty(),
    {
        if options != self.ro {
            self.ro = options;
            self.tracker.clear();
        }
    }
}

/// A mesher that finds no triangle leaves a model without triangles and
/// without vertices, tagged with the chunk's key.
pub proof fn lemma_surface_of_nothing(idx: u64, positions: Seq<[u32; 3]>, normals: Seq<[u32; 3]>)
    ensures
        surface_model(idx, positions, normals, Seq::<u32>::empty()).id == idx,
        surface_model(idx, positions, normals, Seq::<u32>::empty()).raw_triangles.len() == 0,
        surface_model(idx, positions, normals, Seq::<u32>::empty()).raw_vertices.len() == 0,
        surface_model(idx, positions, normals, Seq::<u32>::empty()).raw_normals.len() == 0,
{
}

/// A drain right after a drain finds nothing stale: it hands out no key,
/// and its payload is the header alone, with a count of zero.
pub proof fn lemma_second_drain_is_empty(unit_bits: u32, chunks: Map<u64, BGMCell>)
    ensures
        present(chunks, Seq::<u64>::empty()) == Seq::<u64>::empty(),
        surface_payload(unit_bits, Seq::<BuiltMesh>::empty()) == le_u32(1) + le_u32(unit_bits)
            + le_u32(0),
{
    reveal(Seq::filter);
    assert(present(chunks, Seq::<u64>::empty()) =~= Seq::<u64>::empty());
    assert(meshes_bytes(Seq::<BuiltMesh>::empty()) =~= Seq::<u8>::empty());
    assert(surface_payload(unit_bits, Seq::<BuiltMesh>::empty()) =~= le_u32(1) + le_u32(unit_bits)
        + le_u32(0));
}

} // verus!
