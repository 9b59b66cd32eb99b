//! A dense 32 x 32 x 32 block of cells, one bit per cell.
use crate::padded::{bit_value, interior, lemma_pad_index, local_of, pad_x, pad_y, pad_z, padded_fill};
use vstd::prelude::*;

verus! {

/// Number of bits in a chunk's edge length.
pub const CELL_SIZE_BITS: u32 = 5;

/// Edge length of a chunk, in cells.
pub const CELL_SIZE: usize = 32;

/// Edge length of a chunk with a halo of one cell on every side.
pub const CS_P: usize = 34;

/// Number of cells in one layer of a padded chunk.
pub const CS_P2: usize = 1156;

/// Number of cells in a padded chunk.
pub const CS_P3: usize = 39304;

/// Number of 32-bit words that hold a chunk.
pub const CELL_WORDS: usize = 1024;

/// A cell position inside a chunk: every component in `0..32`.
pub open spec fn in_cell(p: (int, int, int)) -> bool {
    &&& 0 <= p.0 < 32
    &&& 0 <= p.1 < 32
    &&& 0 <= p.2 < 32
}

/// Bit `z` of the word `w`.
pub open spec fn word_has(w: u32, z: int) -> bool {
    (w >> (z as u32)) & 1 == 1
}

proof fn lemma_word_index(x: usize, y: usize)
    by (bit_vector)
    requires
        x < 32,
        y < 32,
    ensures
        (x << 5) | y == x * 32 + y,
{
}

proof fn lemma_bit_test(w: u32, z: u32)
    by (bit_vector)
    requires
        z < 32,
    ensures
        ((w & (1u32 << z)) != 0) == ((w >> z) & 1 == 1),
{
}

proof fn lemma_bit_set(w: u32, z: u32, k: u32)
    by (bit_vector)
    requires
        z < 32,
        k < 32,
    ensures
        (((w | (1u32 << z)) >> k) & 1 == 1) == (k == z || (w >> k) & 1 == 1),
{
}

proof fn lemma_bit_clear(w: u32, z: u32, k: u32)
    by (bit_vector)
    requires
        z < 32,
        k < 32,
    ensures
        (((w & !(1u32 << z)) >> k) & 1 == 1) == (k != z && (w >> k) & 1 == 1),
{
}

proof fn lemma_bit_value(w: u32, z: u32, xor: u16)
    by (bit_vector)
    requires
        z < 32,
    ensures
        ((w >> z) & 1 == 1) ==> (((w >> z) & 1) as u16 ^ xor) == 1u16 ^ xor,
        !((w >> z) & 1 == 1) ==> (((w >> z) & 1) as u16 ^ xor) == 0u16 ^ xor,
{
}

/// The cell at linear index `i` is written once row `row` is reached and,
/// inside that row, once `z` is passed.
spec fn written(i: int, row: int, z: int) -> bool {
    interior(i) && ((pad_x(i) - 1) * 32 + (pad_y(i) - 1) < row || ((pad_x(i) - 1) * 32 + (pad_y(i)
        - 1) == row && pad_z(i) - 1 < z))
}

proof fn lemma_zero_word(k: u32)
    by (bit_vector)
    requires
        k < 32,
    ensures
        (0u32 >> k) & 1 == 0,
{
}

/// A 32 x 32 x 32 occupancy bitfield. The cell `(x, y, z)` is bit `z` of
/// word `x * 32 + y`.
#[derive(Debug)]
pub struct BGMCell {
    data: [u32; 1024],
}

impl View for BGMCell {
    type V = Set<(int, int, int)>;

    /// The set of filled positions, each component in `0..32`.
    closed spec fn view(&self) -> Set<(int, int, int)> {
        Set::new(|p: (int, int, int)| in_cell(p) && word_has(self.data@[p.0 * 32 + p.1], p.2))
    }
}

impl Clone for BGMCell {
    fn clone(&self) -> (r: Self)
        ensures
            r == *self,
    {
        BGMCell { data: self.data }
    }
}

impl Default for BGMCell {
    fn default() -> (r: Self)
        ensures
            r@ == Set::<(int, int, int)>::empty(),
    {
        let r = BGMCell { data: [0u32; 1024] };
        proof {
            assert forall|p: (int, int, int)| !r@.contains(p) by {
                if in_cell(p) {
                    lemma_zero_word(p.2 as u32);
                }
            }
            assert(r@ =~= Set::<(int, int, int)>::empty());
        }
        r
    }
}

impl BGMCell {
    fn index(x: usize, y: usize) -> (r: usize)
        requires
            x < 32,
            y < 32,
        ensures
            r == x * 32 + y,
    {
        proof {
            lemma_word_index(x, y);
        }
        (x << 5) | y
    }

    fn bitmask(z: usize) -> (r: u32)
        requires
            z < 32,
        ensures
            r == 1u32 << (z as u32),
    {
        1u32 << (z as u32)
    }

    /// Whether the cell at `(x, y, z)` is filled.
    pub fn get(&self, x: usize, y: usize, z: usize) -> (r: bool)
        requires
            x < 32,
            y < 32,
            z < 32,
        ensures
            r == self@.contains((x as int, y as int, z as int)),
    {
        let idx = Self::index(x, y);
        let mask = Self::bitmask(z);
        proof {
            lemma_bit_test(self.data@[idx as int], z as u32);
        }
        (self.data[idx] & mask) != 0
    }

    /// Fills the cell at `(x, y, z)`.
    pub fn set(&mut self, x: usize, y: usize, z: usize)
        requires
            x < 32,
            y < 32,
            z < 32,
        ensures
            final(self)@ == old(self)@.insert((x as int, y as int, z as int)),
    {
        let idx = Self::index(x, y);
        let mask = Self::bitmask(z);
        let ghost before = self.data@[idx as int];
        let word = self.data[idx] | mask;
        self.data[idx] = word;
        proof {
            assert forall|p: (int, int, int)|
                self@.contains(p) == old(self)@.insert((x as int, y as int, z as int)).contains(
                    p,
                ) by {
                if in_cell(p) {
                    lemma_bit_set(before, z as u32, p.2 as u32);
                }
            }
            assert(self@ =~= old(self)@.insert((x as int, y as int, z as int)));
        }
    }

    /// Empties the cell at `(x, y, z)`.
    pub fn clear(&mut self, x: usize, y: usize, z: usize)
        requires
            x < 32,
            y < 32,
            z < 32,
        ensures
            final(self)@ == old(self)@.remove((x as int, y as int, z as int)),
    {
        let idx = Self::index(x, y);
        let mask = Self::bitmask(z);
        let ghost before = self.data@[idx as int];
        let word = self.data[idx] & !mask;
        self.data[idx] = word;
        proof {
            assert forall|p: (int, int, int)|
                self@.contains(p) == old(self)@.remove((x as int, y as int, z as int)).contains(
                    p,
                ) by {
                if in_cell(p) {
                    lemma_bit_clear(before, z as u32, p.2 as u32);
                }
            }
            assert(self@ =~= old(self)@.remove((x as int, y as int, z as int)));
        }
    }

    /// Copies the chunk into the padded buffer `voxels`: the entry of every
    /// cell of the chunk becomes the cell's occupancy bit combined with `xor`
    /// by exclusive or. The halo is left as it was.
    pub fn fill_bgm(&self, voxels: &mut [u16; CS_P3], xor: u16)
        ensures
            final(voxels)@ == padded_fill(self@, old(voxels)@, xor),
    {
        let mut row: usize = 0;
        while row < 1024
            invariant
                row <= 1024,
                forall|i: int|
                    0 <= i < 39304 ==> #[trigger] voxels@[i] == (if written(i, row as int, 0) {
                        bit_value(self@.contains(local_of(i))) ^ xor
                    } else {
                        old(voxels)@[i]
                    }),
            decreases 1024 - row,
        {
            let data = self.data[row];
            let x: usize = row / 32;
            let y: usize = row % 32;
            let offset: usize = 1 + (x + 1) * CS_P + (y + 1) * CS_P2;
            let mut z: usize = 0;
            while z < CELL_SIZE
                invariant
                    z <= 32,
                    row < 1024,
                    x == row / 32,
                    y == row % 32,
                    offset == 1 + (x + 1) * 34 + (y + 1) * 1156,
                    data == self.data@[row as int],
                    forall|i: int|
                        0 <= i < 39304 ==> #[trigger] voxels@[i] == (if written(
                            i,
                            row as int,
                            z as int,
                        ) {
                            bit_value(self@.contains(local_of(i))) ^ xor
                        } else {
                            old(voxels)@[i]
                        }),
                decreases 32 - z,
            {
                let idx: usize = offset + z;
                let ghost before = voxels@;
                proof {
                    lemma_pad_index(x as int + 1, y as int + 1, z as int + 1);
                    lemma_bit_value(data, z as u32, xor);
                }
                let bit: u16 = ((data >> (z as u32)) & 1) as u16;
                voxels[idx] = bit ^ xor;
                proof {
                    assert(self@.contains((x as int, y as int, z as int)) == word_has(
                        data,
                        z as int,
                    ));
                    assert forall|i: int| 0 <= i < 39304 implies #[trigger] voxels@[i] == (
                    if written(i, row as int, z as int + 1) {
                        bit_value(self@.contains(local_of(i))) ^ xor
                    } else {
                        old(voxels)@[i]
                    }) by {
                        if i == idx as int {
                        } else {
                            assert(voxels@[i] == before[i]);
                            if written(i, row as int, z as int + 1) && !written(
                                i,
                                row as int,
                                z as int,
                            ) {
                                crate::padded::lemma_pad_coords(i);
                            }
                        }
                    }
                }
                z = z + 1;
            }
            proof {
                assert forall|i: int| 0 <= i < 39304 implies written(i, row as int, 32) == written(
                    i,
                    row as int + 1,
                    0,
                ) by {}
            }
            row = row + 1;
        }
        proof {
            assert forall|i: int| 0 <= i < 39304 implies written(i, 1024, 0) == interior(i) by {}
            assert(voxels@ =~= padded_fill(self@, old(voxels)@, xor));
        }
    }
}

} // verus!
