//! The byte layout of streamed chunk meshes.
use crate::cell::{BGMCell, CS_P3};
use crate::chunk_key::{chunk_base, chunk_origin};
use crate::chunked_base::present;
use crate::mesher::{greedy_mesh, greedy_quads};
use crate::smooth::smoothed;
use crate::void_closure::solid_padded;
use crate::voxel::WriteOptions;
use crate::wire::{le_i32, le_u32, le_u64, put_i32, put_u32, put_u64};
use vstd::prelude::*;

verus! {

/// The low 32 bits of `n`.
pub open spec fn low_u32(n: int) -> u32 {
    (n % 0x1_0000_0000) as u32
}

/// The quads of one side, four bytes each: the low 32 bits of every quad,
/// which hold its five fields.
pub open spec fn encode_quad_list(quads: Seq<u64>) -> Seq<u8>
    decreases quads.len(),
{
    if quads.len() == 0 {
        Seq::<u8>::empty()
    } else {
        encode_quad_list(quads.drop_last()) + le_u32(low_u32(quads.last() as int))
    }
}

/// One side: the number of its quads, then the quads.
pub open spec fn encode_side(quads: Seq<u64>) -> Seq<u8> {
    le_u32(low_u32(quads.len() as int)) + encode_quad_list(quads)
}

/// The first `n` sides, one after the other.
pub open spec fn encode_sides(quads: Seq<Seq<u64>>, n: int) -> Seq<u8>
    decreases n,
{
    if n <= 0 {
        Seq::<u8>::empty()
    } else {
        encode_sides(quads, n - 1) + encode_side(quads[n - 1])
    }
}

/// The key of a chunk and its origin: eight bytes and three times four.
pub open spec fn encode_chunk_head(key: u64) -> Seq<u8> {
    le_u64(key) + le_i32(chunk_origin(key).x) + le_i32(chunk_origin(key).y) + le_i32(
        chunk_origin(key).z,
    )
}

/// A chunk in the greedy layout: its key, its origin, and the quads of its
/// six sides as the mesher emits them for the chunk with its voids closed.
pub open spec fn greedy_chunk_bytes(key: u64, cell: Set<(int, int, int)>) -> Seq<u8> {
    encode_chunk_head(key) + encode_sides(greedy_quads(solid_padded(cell)), 6)
}

/// The chunk as it is written under the given options.
pub open spec fn written_cell(cell: Set<(int, int, int)>, ro: WriteOptions) -> Set<
    (int, int, int),
> {
    match ro {
        WriteOptions::Raw => cell,
        WriteOptions::Simplify => smoothed(cell).0,
    }
}

/// The chunks with the given keys in the greedy layout, one after the other.
pub open spec fn greedy_chunks_bytes(
    chunks: Map<u64, BGMCell>,
    ro: WriteOptions,
    keys: Seq<u64>,
) -> Seq<u8>
    decreases keys.len(),
{
    if keys.len() == 0 {
        Seq::<u8>::empty()
    } else {
        greedy_chunks_bytes(chunks, ro, keys.drop_last()) + greedy_chunk_bytes(
            keys.last(),
            written_cell(chunks[keys.last()]@, ro),
        )
    }
}

/// The payload of a drain in the greedy layout: backend id 2, the unit, the
/// number of chunks, and the chunks.
pub open spec fn greedy_dirty_payload(
    unit_bits: u32,
    chunks: Map<u64, BGMCell>,
    ro: WriteOptions,
    keys: Seq<u64>,
) -> Seq<u8> {
    le_u32(2) + le_u32(unit_bits) + le_u32(low_u32(keys.len() as int)) + greedy_chunks_bytes(
        chunks,
        ro,
        keys,
    )
}

/// The binary form of a greedy store: backend id 2, the number of chunks,
/// and the chunks.
pub open spec fn greedy_binary_payload(
    chunks: Map<u64, BGMCell>,
    ro: WriteOptions,
    keys: Seq<u64>,
) -> Seq<u8> {
    le_u32(2) + le_u32(low_u32(keys.len() as int)) + greedy_chunks_bytes(chunks, ro, keys)
}

/// The low 32 bits of a length.
pub fn len_u32(len: usize) -> (r: u32)
    ensures
        r == low_u32(len as int),
{
    ((len as u64) % 0x1_0000_0000u64) as u32
}

/// Appends the six sides of a chunk's mesh: for each side the number of its
/// quads and then the low 32 bits of every quad.
pub fn write_quads(quads: &Vec<Vec<u64>>, writer: &mut Vec<u8>)
    requires
        quads@.len() == 6,
    ensures
        final(writer)@ == old(writer)@ + encode_sides(quads.deep_view(), 6),
{
    let ghost dv = quads.deep_view();
    let mut side: usize = 0;
    assert(writer@ =~= old(writer)@ + encode_sides(dv, 0));
    while side < 6
        invariant
            side <= 6,
            quads@.len() == 6,
            dv == quads.deep_view(),
            writer@ == old(writer)@ + encode_sides(dv, side as int),
        decreases 6 - side,
    {
        let list = &quads[side];
        assert(dv[side as int] == list@);
        let ghost before = writer@;
        put_u32(writer, len_u32(list.len()));
        let ghost head = writer@;
        let mut i: usize = 0;
        assert(writer@ =~= head + encode_quad_list(list@.subrange(0, 0)));
        while i < list.len()
            invariant
                i <= list.len(),
                writer@ == head + encode_quad_list(list@.subrange(0, i as int)),
            decreases list.len() - i,
        {
            let quad = list[i];
            proof {
                let s = list@.subrange(0, i as int + 1);
                assert(s.drop_last() == list@.subrange(0, i as int));
                assert(s.last() == quad);
            }
            put_u32(writer, (quad % 0x1_0000_0000u64) as u32);
            proof {
                assert(writer@ =~= head + encode_quad_list(list@.subrange(0, i as int + 1)));
            }
            i = i + 1;
        }
        proof {
            assert(list@.subrange(0, list@.len() as int) == list@);
            assert(writer@ =~= old(writer)@ + encode_sides(dv, side as int + 1));
        }
        side = side + 1;
    }
}

/// Appends a chunk in the greedy layout: its key, its origin, and the quads
/// of the chunk with its voids closed.
pub fn write_cell0(idx: u64, cell: &BGMCell, writer: &mut Vec<u8>)
    ensures
        final(writer)@ == old(writer)@ + greedy_chunk_bytes(idx, cell@),
{
    let base = chunk_base(idx);
    put_u64(writer, idx);
    put_i32(writer, base.x);
    put_i32(writer, base.y);
    put_i32(writer, base.z);
    assert(writer@ =~= old(writer)@ + encode_chunk_head(idx));

    let mut voxels = [0u16; CS_P3];
    cell.fill_bgm_solid(&mut voxels);
    let quads = greedy_mesh(&voxels);
    write_quads(&quads, writer);
    assert(writer@ =~= old(writer)@ + greedy_chunk_bytes(idx, cell@));
}

/// Appends a chunk in the greedy layout, as it is or smoothed first.
pub fn write_cell(idx: u64, cell: &BGMCell, writer: &mut Vec<u8>, ro: WriteOptions)
    ensures
        final(writer)@ == old(writer)@ + greedy_chunk_bytes(idx, written_cell(cell@, ro)),
{
    match ro {
        WriteOptions::Raw => write_cell0(idx, cell, writer),
        WriteOptions::Simplify => {
            let mut cell = cell.clone();
            cell.simplify();
            write_cell0(idx, &cell, writer)
        },
    }
}

/// The pending payload for a host that asks for `len` bytes: the payload
/// if it has exactly that length, else nothing, and the host has to ask for
/// the length again.
pub fn payload_for(payload: &Vec<u8>, len: u64) -> (r: Option<&[u8]>)
    ensures
        r is Some == (payload@.len() == len),
        r is Some ==> r->0@ == payload@,
{
    if payload.len() as u64 == len {
        Some(payload.as_slice())
    } else {
        None
    }
}

/// A drain with nothing stale is the header alone, with a count of zero:
/// what a second drain right after a first one writes.
pub proof fn lemma_empty_drain(unit_bits: u32, chunks: Map<u64, BGMCell>, ro: WriteOptions)
    ensures
        present(chunks, Seq::<u64>::empty()) == Seq::<u64>::empty(),
        greedy_dirty_payload(unit_bits, chunks, ro, Seq::<u64>::empty()) == le_u32(2) + le_u32(
            unit_bits,
        ) + le_u32(0),
{
    assert(present(chunks, Seq::<u64>::empty()) =~= Seq::<u64>::empty()) by {
        reveal(Seq::filter);
    }
    assert(greedy_chunks_bytes(chunks, ro, Seq::<u64>::empty()) =~= Seq::<u8>::empty());
    assert(greedy_dirty_payload(unit_bits, chunks, ro, Seq::<u64>::empty()) =~= le_u32(2) + le_u32(
        unit_bits,
    ) + le_u32(0));
}

} // verus!
