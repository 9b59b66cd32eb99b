//! The padded buffer: a chunk with a halo of one cell on every side, one
//! 16-bit value per cell, in the order the mesher reads it.
use vstd::prelude::*;

verus! {

/// Number of cells in a padded chunk, as a mathematical integer.
pub open spec fn padded_len() -> int {
    39304
}

/// The padded z coordinate of the cell at linear index `i`.
pub open spec fn pad_z(i: int) -> int {
    i % 34
}

/// The padded x coordinate of the cell at linear index `i`.
pub open spec fn pad_x(i: int) -> int {
    (i / 34) % 34
}

/// The padded y coordinate of the cell at linear index `i`.
pub open spec fn pad_y(i: int) -> int {
    i / 1156
}

/// The linear index of the padded cell `(px, py, pz)`.
pub open spec fn pad_index(px: int, py: int, pz: int) -> int {
    pz + px * 34 + py * 1156
}

/// The cell at linear index `i` belongs to the chunk, not to its halo.
pub open spec fn interior(i: int) -> bool {
    &&& 0 <= i < padded_len()
    &&& 1 <= pad_x(i) <= 32
    &&& 1 <= pad_y(i) <= 32
    &&& 1 <= pad_z(i) <= 32
}

/// The position inside the chunk of the padded cell at linear index `i`.
pub open spec fn local_of(i: int) -> (int, int, int) {
    (pad_x(i) - 1, pad_y(i) - 1, pad_z(i) - 1)
}

/// The cell at linear index `i` is a filled cell of the chunk.
pub open spec fn solid_at(cell: Set<(int, int, int)>, i: int) -> bool {
    interior(i) && cell.contains(local_of(i))
}

/// Occupancy as a number: 1 for filled, 0 for empty.
pub open spec fn bit_value(filled: bool) -> u16 {
    if filled {
        1
    } else {
        0
    }
}

/// The padded buffer after the chunk was copied into it: every cell of the
/// chunk holds its occupancy bit combined with `xor` by exclusive or, and
/// the halo holds what `prev` held.
pub open spec fn padded_fill(cell: Set<(int, int, int)>, prev: Seq<u16>, xor: u16) -> Seq<u16> {
    Seq::new(
        padded_len() as nat,
        |i: int|
            if interior(i) {
                bit_value(cell.contains(local_of(i))) ^ xor
            } else {
                prev[i]
            },
    )
}

/// A padded position decomposes into its three coordinates.
pub proof fn lemma_pad_index(px: int, py: int, pz: int)
    requires
        0 <= px < 34,
        0 <= py < 34,
        0 <= pz < 34,
    ensures
        0 <= pad_index(px, py, pz) < padded_len(),
        pad_x(pad_index(px, py, pz)) == px,
        pad_y(pad_index(px, py, pz)) == py,
        pad_z(pad_index(px, py, pz)) == pz,
{
    let i = pad_index(px, py, pz);
    vstd::arithmetic::div_mod::lemma_fundamental_div_mod_converse(i, 34, px + py * 34, pz);
    vstd::arithmetic::div_mod::lemma_fundamental_div_mod_converse(px + py * 34, 34, py, px);
    vstd::arithmetic::div_mod::lemma_fundamental_div_mod_converse(i, 1156, py, pz + px * 34);
}

/// A linear index is the index of its three coordinates, each below 34.
pub proof fn lemma_pad_coords(i: int)
    requires
        0 <= i < padded_len(),
    ensures
        0 <= pad_x(i) < 34,
        0 <= pad_y(i) < 34,
        0 <= pad_z(i) < 34,
        pad_index(pad_x(i), pad_y(i), pad_z(i)) == i,
{
    vstd::arithmetic::div_mod::lemma_fundamental_div_mod(i, 34);
    vstd::arithmetic::div_mod::lemma_fundamental_div_mod(i / 34, 34);
    vstd::arithmetic::div_mod::lemma_div_denominator(i, 34, 34);
}

} // verus!
