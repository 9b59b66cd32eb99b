//! Neighbour counts inside a chunk, and the smoothing pass built on them.
use crate::cell::{in_cell, BGMCell, CELL_SIZE};
use crate::chunk_key::{cell_idx, cell_slot};
use crate::voxelidx::VoxelIdx;
use std::collections::VecDeque;
use vstd::prelude::*;

verus! {

/// Number of cells in a chunk, as a mathematical integer.
pub open spec fn chunk_len() -> int {
    32768
}

/// The position of the cell with linear index `i`, x outermost.
pub open spec fn pos_of(i: int) -> (int, int, int) {
    (i / 1024, (i / 32) % 32, i % 32)
}

/// The linear index of a position.
pub open spec fn idx_of(p: (int, int, int)) -> int {
    p.0 * 1024 + p.1 * 32 + p.2
}

/// The position of a lattice cell that lies inside the chunk at the origin.
pub open spec fn local(c: VoxelIdx) -> (int, int, int) {
    (c.x as int, c.y as int, c.z as int)
}

/// The lattice cell at a position.
pub open spec fn coord_at(p: (int, int, int)) -> VoxelIdx {
    VoxelIdx { x: p.0 as i32, y: p.1 as i32, z: p.2 as i32 }
}

/// 1 where the neighbour exists and is filled, else 0.
pub open spec fn filled_term(cell: Set<(int, int, int)>, exists_: bool, p: (int, int, int)) -> int {
    if exists_ && cell.contains(p) {
        1
    } else {
        0
    }
}

/// The number of filled face neighbours of `p` inside the chunk.
pub open spec fn nsum(cell: Set<(int, int, int)>, p: (int, int, int)) -> int {
    filled_term(cell, p.0 > 0, (p.0 - 1, p.1, p.2)) + filled_term(
        cell,
        p.0 < 31,
        (p.0 + 1, p.1, p.2),
    ) + filled_term(cell, p.1 > 0, (p.0, p.1 - 1, p.2)) + filled_term(
        cell,
        p.1 < 31,
        (p.0, p.1 + 1, p.2),
    ) + filled_term(cell, p.2 > 0, (p.0, p.1, p.2 - 1)) + filled_term(
        cell,
        p.2 < 31,
        (p.0, p.1, p.2 + 1),
    )
}

/// The number of faces of the cell with linear index `i` that no filled
/// neighbour inside the chunk covers; 0 for an empty cell.
pub open spec fn exposed(cell: Set<(int, int, int)>, i: int) -> int {
    if cell.contains(pos_of(i)) {
        6 - nsum(cell, pos_of(i))
    } else {
        0
    }
}

/// The surface area of the first `n` cells: the sum of their exposed faces.
pub open spec fn surface(cell: Set<(int, int, int)>, n: int) -> int
    decreases n,
{
    if n <= 0 {
        0
    } else {
        surface(cell, n - 1) + exposed(cell, n - 1)
    }
}

/// `s` with `v` appended where `cond` holds.
pub open spec fn push_if<T>(s: Seq<T>, cond: bool, v: T) -> Seq<T> {
    if cond {
        s.push(v)
    } else {
        s
    }
}

/// The face neighbours of `c` that lie inside the chunk at the origin, in
/// the order -x, +x, -y, +y, -z, +z. Only the side of `c` on which a
/// neighbour lies is tested, whether or not `c` itself lies inside.
pub open spec fn neighbor_cells(c: VoxelIdx) -> Seq<VoxelIdx> {
    push_if(
        push_if(
            push_if(
                push_if(
                    push_if(
                        push_if(
                            Seq::<VoxelIdx>::empty(),
                            c.x > 0,
                            VoxelIdx { x: (c.x - 1) as i32, y: c.y, z: c.z },
                        ),
                        c.x < 31,
                        VoxelIdx { x: (c.x + 1) as i32, y: c.y, z: c.z },
                    ),
                    c.y > 0,
                    VoxelIdx { x: c.x, y: (c.y - 1) as i32, z: c.z },
                ),
                c.y < 31,
                VoxelIdx { x: c.x, y: (c.y + 1) as i32, z: c.z },
            ),
            c.z > 0,
            VoxelIdx { x: c.x, y: c.y, z: (c.z - 1) as i32 },
        ),
        c.z < 31,
        VoxelIdx { x: c.x, y: c.y, z: (c.z + 1) as i32 },
    )
}

/// How many of the cells `ns`, each taken at its position inside its chunk,
/// are filled.
pub open spec fn count_filled(cell: Set<(int, int, int)>, ns: Seq<VoxelIdx>) -> int
    decreases ns.len(),
{
    if ns.len() == 0 {
        0
    } else {
        count_filled(cell, ns.drop_last()) + filled_term(cell, true, cell_slot(ns.last()))
    }
}

/// Every cell of `q` lies inside the chunk at the origin.
pub open spec fn all_in_chunk(q: Seq<VoxelIdx>) -> bool {
    forall|k: int| 0 <= k < q.len() ==> in_cell(local(#[trigger] q[k]))
}

/// The cells that the smoothing pass starts from: every cell of the first
/// `n` that is filled or has a filled neighbour, in linear order.
pub open spec fn seeds(cell: Set<(int, int, int)>, n: int) -> Seq<VoxelIdx>
    decreases n,
{
    if n <= 0 {
        Seq::<VoxelIdx>::empty()
    } else {
        push_if(
            seeds(cell, n - 1),
            cell.contains(pos_of(n - 1)) || nsum(cell, pos_of(n - 1)) > 0,
            coord_at(pos_of(n - 1)),
        )
    }
}

/// The smoothing pass from a given state: the chunk, the work queue and the
/// number of changes made so far. The cell at the head of the queue is
/// filled if it is empty and more than three of its neighbours are filled,
/// emptied if it is filled and fewer than three are; after a change its
/// neighbours and the cell itself join the queue. The pass ends when the
/// queue is empty; every change shrinks the chunk's surface area, so it does.
pub open spec fn smooth_run(cell: Set<(int, int, int)>, q: Seq<VoxelIdx>, done: int) -> (
    Set<(int, int, int)>,
    int,
)
    decreases 4 * surface(cell, chunk_len()) + q.len(),
    when all_in_chunk(q)
    via smooth_run_decreases
{
    if q.len() == 0 {
        (cell, done)
    } else {
        let c = q[0];
        let p = local(c);
        let rest = q.subrange(1, q.len() as int);
        let s = nsum(cell, p);
        if !cell.contains(p) && s > 3 {
            smooth_run(cell.insert(p), rest + neighbor_cells(c).push(c), done + 1)
        } else if cell.contains(p) && s < 3 {
            smooth_run(cell.remove(p), rest + neighbor_cells(c).push(c), done + 1)
        } else {
            smooth_run(cell, rest, done)
        }
    }
}

#[via_fn]
proof fn smooth_run_decreases(cell: Set<(int, int, int)>, q: Seq<VoxelIdx>, done: int) {
    if q.len() != 0 {
        let c = q[0];
        let p = local(c);
        assert(in_cell(p));
        lemma_neighbor_cells(c);
        lemma_surface_bounds(cell, chunk_len());
        if !cell.contains(p) && nsum(cell, p) > 3 {
            lemma_surface_insert(cell, p);
            lemma_surface_bounds(cell.insert(p), chunk_len());
        } else if cell.contains(p) && nsum(cell, p) < 3 {
            lemma_surface_remove(cell, p);
            lemma_surface_bounds(cell.remove(p), chunk_len());
        }
    }
}

/// The chunk after the smoothing pass, and the number of changes it made.
pub open spec fn smoothed(cell: Set<(int, int, int)>) -> (Set<(int, int, int)>, int) {
    smooth_run(cell, seeds(cell, chunk_len()), 0)
}

proof fn lemma_pos_idx(i: int)
    requires
        0 <= i < chunk_len(),
    ensures
        in_cell(pos_of(i)),
        idx_of(pos_of(i)) == i,
{
    vstd::arithmetic::div_mod::lemma_fundamental_div_mod(i, 32);
    vstd::arithmetic::div_mod::lemma_fundamental_div_mod(i / 32, 32);
    vstd::arithmetic::div_mod::lemma_div_denominator(i, 32, 32);
}

proof fn lemma_idx_pos(p: (int, int, int))
    requires
        in_cell(p),
    ensures
        0 <= idx_of(p) < chunk_len(),
        pos_of(idx_of(p)) == p,
{
    let i = idx_of(p);
    vstd::arithmetic::div_mod::lemma_fundamental_div_mod_converse(i, 32, p.0 * 32 + p.1, p.2);
    vstd::arithmetic::div_mod::lemma_fundamental_div_mod_converse(p.0 * 32 + p.1, 32, p.0, p.1);
    vstd::arithmetic::div_mod::lemma_fundamental_div_mod_converse(i, 1024, p.0, p.1 * 32 + p.2);
}

/// The surface area is never negative and at most six faces per cell.
pub proof fn lemma_surface_bounds(cell: Set<(int, int, int)>, n: int)
    requires
        0 <= n,
    ensures
        0 <= surface(cell, n) <= 6 * n,
    decreases n,
{
    if n > 0 {
        lemma_surface_bounds(cell, n - 1);
    }
}

/// 1 where the neighbour `q` of a cell exists, is filled and comes before
/// the linear index `n`.
spec fn hit(cell: Set<(int, int, int)>, exists_: bool, q: (int, int, int), n: int) -> int {
    if exists_ && cell.contains(q) && idx_of(q) < n {
        1
    } else {
        0
    }
}

/// What filling the empty cell `p` adds to the surface of the first `n`
/// cells: the exposed faces of `p`, less one face of every filled neighbour.
spec fn fill_gain(cell: Set<(int, int, int)>, p: (int, int, int), n: int) -> int {
    (if idx_of(p) < n {
        6 - nsum(cell, p)
    } else {
        0
    }) - hit(cell, p.0 > 0, (p.0 - 1, p.1, p.2), n) - hit(cell, p.0 < 31, (p.0 + 1, p.1, p.2), n)
        - hit(cell, p.1 > 0, (p.0, p.1 - 1, p.2), n) - hit(cell, p.1 < 31, (p.0, p.1 + 1, p.2), n)
        - hit(cell, p.2 > 0, (p.0, p.1, p.2 - 1), n) - hit(cell, p.2 < 31, (p.0, p.1, p.2 + 1), n)
}

proof fn lemma_exposed_change(cell: Set<(int, int, int)>, p: (int, int, int), i: int)
    requires
        in_cell(p),
        !cell.contains(p),
        0 <= i < chunk_len(),
    ensures
        exposed(cell.insert(p), i) - exposed(cell, i) == fill_gain(cell, p, i + 1) - fill_gain(
            cell,
            p,
            i,
        ),
{
    let r = pos_of(i);
    lemma_pos_idx(i);
    lemma_idx_pos(p);
    let b = cell.insert(p);
    if p.0 > 0 {
        lemma_idx_pos((p.0 - 1, p.1, p.2));
    }
    if p.0 < 31 {
        lemma_idx_pos((p.0 + 1, p.1, p.2));
    }
    if p.1 > 0 {
        lemma_idx_pos((p.0, p.1 - 1, p.2));
    }
    if p.1 < 31 {
        lemma_idx_pos((p.0, p.1 + 1, p.2));
    }
    if p.2 > 0 {
        lemma_idx_pos((p.0, p.1, p.2 - 1));
    }
    if p.2 < 31 {
        lemma_idx_pos((p.0, p.1, p.2 + 1));
    }
    if r == p {
        assert(nsum(b, p) == nsum(cell, p));
    } else {
        assert(b.contains(r) == cell.contains(r));
    }
}

proof fn lemma_surface_insert_upto(cell: Set<(int, int, int)>, p: (int, int, int), n: int)
    requires
        in_cell(p),
        !cell.contains(p),
        0 <= n <= chunk_len(),
    ensures
        surface(cell.insert(p), n) == surface(cell, n) + fill_gain(cell, p, n),
    decreases n,
{
    if n > 0 {
        lemma_surface_insert_upto(cell, p, n - 1);
        lemma_exposed_change(cell, p, n - 1);
    } else {
        lemma_idx_pos(p);
        if p.0 > 0 {
            lemma_idx_pos((p.0 - 1, p.1, p.2));
        }
        if p.0 < 31 {
            lemma_idx_pos((p.0 + 1, p.1, p.2));
        }
        if p.1 > 0 {
            lemma_idx_pos((p.0, p.1 - 1, p.2));
        }
        if p.1 < 31 {
            lemma_idx_pos((p.0, p.1 + 1, p.2));
        }
        if p.2 > 0 {
            lemma_idx_pos((p.0, p.1, p.2 - 1));
        }
        if p.2 < 31 {
            lemma_idx_pos((p.0, p.1, p.2 + 1));
        }
    }
}

/// Filling an empty cell with `s` filled neighbours changes the surface
/// area by `6 - 2 s`.
pub proof fn lemma_surface_insert(cell: Set<(int, int, int)>, p: (int, int, int))
    requires
        in_cell(p),
        !cell.contains(p),
    ensures
        surface(cell.insert(p), chunk_len()) == surface(cell, chunk_len()) + 6 - 2 * nsum(cell, p),
{
    lemma_surface_insert_upto(cell, p, chunk_len());
    lemma_idx_pos(p);
    if p.0 > 0 {
        lemma_idx_pos((p.0 - 1, p.1, p.2));
    }
    if p.0 < 31 {
        lemma_idx_pos((p.0 + 1, p.1, p.2));
    }
    if p.1 > 0 {
        lemma_idx_pos((p.0, p.1 - 1, p.2));
    }
    if p.1 < 31 {
        lemma_idx_pos((p.0, p.1 + 1, p.2));
    }
    if p.2 > 0 {
        lemma_idx_pos((p.0, p.1, p.2 - 1));
    }
    if p.2 < 31 {
        lemma_idx_pos((p.0, p.1, p.2 + 1));
    }
}

/// Emptying a filled cell with `s` filled neighbours changes the surface
/// area by `2 s - 6`.
pub proof fn lemma_surface_remove(cell: Set<(int, int, int)>, p: (int, int, int))
    requires
        in_cell(p),
        cell.contains(p),
    ensures
        surface(cell.remove(p), chunk_len()) == surface(cell, chunk_len()) - 6 + 2 * nsum(cell, p),
{
    let a = cell.remove(p);
    lemma_surface_insert(a, p);
    assert(a.insert(p) =~= cell);
    assert(nsum(a, p) == nsum(cell, p));
}

proof fn lemma_count_push_if(cell: Set<(int, int, int)>, s: Seq<VoxelIdx>, cond: bool, v: VoxelIdx)
    ensures
        count_filled(cell, push_if(s, cond, v)) == count_filled(cell, s) + filled_term(
            cell,
            cond,
            cell_slot(v),
        ),
{
    if cond {
        let t = s.push(v);
        assert(t.drop_last() == s);
        assert(t.last() == v);
    }
}

/// The neighbours of a cell are at most six, and those of a cell inside the
/// chunk lie inside the chunk.
pub proof fn lemma_neighbor_cells(c: VoxelIdx)
    ensures
        neighbor_cells(c).len() <= 6,
        in_cell(local(c)) ==> all_in_chunk(neighbor_cells(c)),
        in_cell(local(c)) ==> all_in_chunk(neighbor_cells(c).push(c)),
{
}

/// For a cell inside the chunk, counting its filled neighbours one by one
/// gives the number of its filled face neighbours.
pub proof fn lemma_neighbors_count(cell: Set<(int, int, int)>, c: VoxelIdx)
    requires
        in_cell(local(c)),
    ensures
        count_filled(cell, neighbor_cells(c)) == nsum(cell, local(c)),
{
    let n1 = VoxelIdx { x: (c.x - 1) as i32, y: c.y, z: c.z };
    let n2 = VoxelIdx { x: (c.x + 1) as i32, y: c.y, z: c.z };
    let n3 = VoxelIdx { x: c.x, y: (c.y - 1) as i32, z: c.z };
    let n4 = VoxelIdx { x: c.x, y: (c.y + 1) as i32, z: c.z };
    let n5 = VoxelIdx { x: c.x, y: c.y, z: (c.z - 1) as i32 };
    let n6 = VoxelIdx { x: c.x, y: c.y, z: (c.z + 1) as i32 };
    let s0 = Seq::<VoxelIdx>::empty();
    let s1 = push_if(s0, c.x > 0, n1);
    let s2 = push_if(s1, c.x < 31, n2);
    let s3 = push_if(s2, c.y > 0, n3);
    let s4 = push_if(s3, c.y < 31, n4);
    let s5 = push_if(s4, c.z > 0, n5);
    lemma_count_push_if(cell, s0, c.x > 0, n1);
    lemma_count_push_if(cell, s1, c.x < 31, n2);
    lemma_count_push_if(cell, s2, c.y > 0, n3);
    lemma_count_push_if(cell, s3, c.y < 31, n4);
    lemma_count_push_if(cell, s4, c.z > 0, n5);
    lemma_count_push_if(cell, s5, c.z < 31, n6);
}

proof fn lemma_count_bound(cell: Set<(int, int, int)>, ns: Seq<VoxelIdx>)
    ensures
        0 <= count_filled(cell, ns) <= ns.len(),
    decreases ns.len(),
{
    if ns.len() > 0 {
        lemma_count_bound(cell, ns.drop_last());
    }
}

/// The face neighbours of `coord` that lie inside the chunk at the origin,
/// in the order -x, +x, -y, +y, -z, +z.
pub fn cell_neighbors(coord: VoxelIdx) -> (v: Vec<VoxelIdx>)
    ensures
        v@ == neighbor_cells(coord),
        v@.len() <= 6,
{
    let mut v: Vec<VoxelIdx> = Vec::with_capacity(6);
    if coord.x > 0 {
        v.push(VoxelIdx { x: coord.x - 1, y: coord.y, z: coord.z });
    }
    if coord.x < CELL_SIZE as i32 - 1 {
        v.push(VoxelIdx { x: coord.x + 1, y: coord.y, z: coord.z });
    }
    if coord.y > 0 {
        v.push(VoxelIdx { x: coord.x, y: coord.y - 1, z: coord.z });
    }
    if coord.y < CELL_SIZE as i32 - 1 {
        v.push(VoxelIdx { x: coord.x, y: coord.y + 1, z: coord.z });
    }
    if coord.z > 0 {
        v.push(VoxelIdx { x: coord.x, y: coord.y, z: coord.z - 1 });
    }
    if coord.z < CELL_SIZE as i32 - 1 {
        v.push(VoxelIdx { x: coord.x, y: coord.y, z: coord.z + 1 });
    }
    v
}

impl BGMCell {
    /// The number of filled cells among the neighbours of `coord`, each
    /// neighbour taken at its position inside its chunk. For a cell inside
    /// the chunk this is the number of its filled face neighbours.
    pub fn neighbors_sum(&self, coord: VoxelIdx) -> (r: u8)
        ensures
            r == count_filled(self@, neighbor_cells(coord)),
            in_cell(local(coord)) ==> r == nsum(self@, local(coord)),
            r <= 6,
    {
        let ns = cell_neighbors(coord);
        let mut sum: u8 = 0;
        let mut k: usize = 0;
        while k < ns.len()
            invariant
                k <= ns@.len(),
                ns@.len() <= 6,
                sum == count_filled(self@, ns@.subrange(0, k as int)),
                sum <= k,
            decreases ns@.len() - k,
        {
            let p = cell_idx(ns[k]);
            proof {
                let s = ns@.subrange(0, k as int + 1);
                assert(s.drop_last() == ns@.subrange(0, k as int));
                assert(s.last() == ns@[k as int]);
            }
            if self.get(p[0], p[1], p[2]) {
                sum = sum + 1;
            }
            k = k + 1;
        }
        proof {
            assert(ns@.subrange(0, ns@.len() as int) == ns@);
            if in_cell(local(coord)) {
                lemma_neighbors_count(self@, coord);
            }
        }
        sum
    }

    /// Smooths the chunk and returns the number of changes made. Starting
    /// from every cell that is filled or has a filled neighbour, a cell is
    /// filled if it is empty and more than three of its neighbours are
    /// filled, and emptied if it is filled and fewer than three are; a
    /// change puts the cell and its neighbours back on the work queue.
    pub fn simplify(&mut self) -> (mutations: usize)
        ensures
            final(self)@ == smoothed(old(self)@).0,
            mutations == smoothed(old(self)@).1,
            surface(final(self)@, chunk_len()) + 2 * mutations <= surface(old(self)@, chunk_len()),
    {
        let mut v: VecDeque<VoxelIdx> = VecDeque::new();
        let mut i: usize = 0;
        while i < 32768
            invariant
                i <= 32768,
                self@ == old(self)@,
                v@ == seeds(self@, i as int),
                all_in_chunk(v@),
            decreases 32768 - i,
        {
            let c = VoxelIdx { x: (i / 1024) as i32, y: ((i / 32) % 32) as i32, z: (i % 32) as i32 };
            proof {
                lemma_pos_idx(i as int);
                assert(c == coord_at(pos_of(i as int)));
            }
            let val = self.get(i / 1024, (i / 32) % 32, i % 32);
            let sum = self.neighbors_sum(c);
            if val || sum > 0 {
                v.push_back(c);
            }
            i = i + 1;
        }

        let mut mutations: usize = 0;
        proof {
            lemma_surface_bounds(self@, chunk_len());
        }
        loop
            invariant
                all_in_chunk(v@),
                smooth_run(self@, v@, mutations as int) == smoothed(old(self)@),
                surface(self@, chunk_len()) + 2 * mutations <= surface(old(self)@, chunk_len()),
                0 <= surface(self@, chunk_len()),
                surface(old(self)@, chunk_len()) <= 196608,
            ensures
                v@.len() == 0,
            decreases 4 * surface(self@, chunk_len()) + v@.len(),
        {
            let ghost q0 = v@;
            let ghost cell0 = self@;
            let next = v.pop_front();
            let coord = match next {
                None => {
                    break ;
                },
                Some(coord) => coord,
            };
            proof {
                assert(coord == q0[0]);
                assert(in_cell(local(coord)));
                assert(v@ == q0.subrange(1, q0.len() as int));
                lemma_neighbor_cells(coord);
            }
            let p = cell_idx(coord);
            let val = self.get(p[0], p[1], p[2]);
            let sum = self.neighbors_sum(coord);
            if !val && sum > 3 {
                proof {
                    lemma_surface_insert(cell0, local(coord));
                    lemma_surface_bounds(cell0.insert(local(coord)), chunk_len());
                }
                self.set(p[0], p[1], p[2]);
                mutations = mutations + 1;
            } else if val && sum < 3 {
                proof {
                    lemma_surface_remove(cell0, local(coord));
                    lemma_surface_bounds(cell0.remove(local(coord)), chunk_len());
                }
                self.clear(p[0], p[1], p[2]);
                mutations = mutations + 1;
            } else {
                proof {
                    assert forall|k: int| 0 <= k < v@.len() implies in_cell(
                        local(#[trigger] v@[k]),
                    ) by {
                        assert(v@[k] == q0[k + 1]);
                    }
                }
                continue ;
            }
            let ghost rest = v@;
            let ns = cell_neighbors(coord);
            let mut k: usize = 0;
            while k < ns.len()
                invariant
                    k <= ns@.len(),
                    v@ == rest + ns@.subrange(0, k as int),
                decreases ns@.len() - k,
            {
                v.push_back(ns[k]);
                proof {
                    assert(ns@.subrange(0, k as int + 1) == ns@.subrange(0, k as int).push(
                        ns@[k as int],
                    ));
                }
                k = k + 1;
            }
            v.push_back(coord);
            proof {
                assert(ns@.subrange(0, ns@.len() as int) == ns@);
                assert(v@ == rest + neighbor_cells(coord).push(coord));
                assert forall|k: int| 0 <= k < v@.len() implies in_cell(local(#[trigger] v@[k])) by {
                    if k < rest.len() {
                        assert(v@[k] == q0[k + 1]);
                    } else {
                        assert(v@[k] == neighbor_cells(coord).push(coord)[k - rest.len()]);
                    }
                }
            }
        }
        mutations
    }
}

} // verus!
