//! Closing of interior voids before meshing: every empty cell that no chain
//! of empty cells connects to the halo is turned solid.
use crate::cell::{BGMCell, CS_P, CS_P2, CS_P3};
use crate::padded::{bit_value, interior, lemma_pad_coords, padded_len, solid_at};
use std::collections::VecDeque;
use vstd::prelude::*;
use vstd::set_lib::{lemma_int_range, lemma_set_subset_finite, set_int_range};

verus! {

/// Flag of a filled cell in the padded buffer.
pub const VALUE_MASK: u16 = 1;

/// Flag of a cell that the search has not reached.
pub const TOVISIT_MASK: u16 = 2;

/// Two padded cells are linked when their linear indices differ by 1, 34 or
/// 1156. For a cell of the chunk these are its six face neighbours.
pub open spec fn linked(a: int, b: int) -> bool {
    &&& 0 <= a < padded_len()
    &&& 0 <= b < padded_len()
    &&& (b == a + 1 || a == b + 1 || b == a + 34 || a == b + 34 || b == a + 1156 || a == b + 1156)
}

/// The padded cell at `i` is not a filled cell of the chunk.
pub open spec fn open_at(cell: Set<(int, int, int)>, i: int) -> bool {
    0 <= i < padded_len() && !solid_at(cell, i)
}

/// A chain of linked open cells that starts at the corner of the halo.
pub open spec fn open_path(cell: Set<(int, int, int)>, p: Seq<int>) -> bool {
    &&& p.len() > 0
    &&& p[0] == 0
    &&& forall|k: int| 0 <= k < p.len() ==> open_at(cell, #[trigger] p[k])
    &&& forall|k: int| 0 < k < p.len() ==> linked(p[k - 1], #[trigger] p[k])
}

/// The padded cell at `i` is open and a chain of open cells connects it to
/// the corner of the halo.
pub open spec fn outside(cell: Set<(int, int, int)>, i: int) -> bool {
    exists|p: Seq<int>| #[trigger] open_path(cell, p) && p.last() == i
}

/// The padded buffer of a chunk with its voids closed: 0 for every cell
/// outside, 1 for every other cell (the filled cells and the enclosed voids).
pub open spec fn solid_padded(cell: Set<(int, int, int)>) -> Seq<u16> {
    Seq::new(padded_len() as nat, |i: int| bit_value(!outside(cell, i)))
}

proof fn lemma_flags(v: u16)
    by (bit_vector)
    requires
        v == 0 || v == 2 || v == 3,
    ensures
        (v & 2 == 0) == (v == 0),
        (v & 1 != 0) == (v == 3),
        v == 2 ==> v & !2u16 == 0,
{
}

proof fn lemma_flag_values()
    by (bit_vector)
    ensures
        1u16 ^ 2u16 == 3u16,
        0u16 ^ 2u16 == 2u16,
{
}

/// The corner of the halo is outside.
proof fn lemma_corner_outside(cell: Set<(int, int, int)>)
    ensures
        outside(cell, 0),
{
    let p = seq![0int];
    assert(open_path(cell, p));
    assert(p.last() == 0);
}

/// An open cell linked to a cell outside is outside.
proof fn lemma_extend_outside(cell: Set<(int, int, int)>, i: int, n: int)
    requires
        outside(cell, i),
        linked(i, n),
        open_at(cell, n),
    ensures
        outside(cell, n),
{
    let p = choose|p: Seq<int>| #[trigger] open_path(cell, p) && p.last() == i;
    let q = p.push(n);
    assert forall|k: int| 0 <= k < q.len() implies open_at(cell, #[trigger] q[k]) by {
        if k < p.len() {
            assert(q[k] == p[k]);
        }
    }
    assert forall|k: int| 0 < k < q.len() implies linked(q[k - 1], #[trigger] q[k]) by {
        if k < p.len() {
            assert(q[k] == p[k]);
            assert(q[k - 1] == p[k - 1]);
        } else {
            assert(q[k - 1] == p.last());
        }
    }
    assert(open_path(cell, q));
    assert(q.last() == n);
}

/// What the search has established of the buffer `v`: a filled cell holds
/// both flags; an open cell holds the to-visit flag or nothing, and one that
/// holds nothing is outside.
spec fn marks_ok(cell: Set<(int, int, int)>, v: Seq<u16>) -> bool {
    &&& v.len() == padded_len()
    &&& forall|i: int|
        0 <= i < padded_len() ==> (if solid_at(cell, i) {
            #[trigger] v[i] == 3
        } else {
            v[i] == 2 || (v[i] == 0 && outside(cell, i))
        })
}

/// Every open cell linked to `i` has been reached or waits in the queue.
spec fn closed_at(cell: Set<(int, int, int)>, v: Seq<u16>, q: Seq<usize>, i: int) -> bool {
    forall|n: int| #[trigger] linked(i, n) && !solid_at(cell, n) ==> v[n] == 0 || q.contains(n as usize)
}

/// Every reached cell but `skip` is closed.
spec fn closed_but(cell: Set<(int, int, int)>, v: Seq<u16>, q: Seq<usize>, skip: int) -> bool {
    forall|i: int|
        0 <= i < padded_len() && #[trigger] v[i] == 0 && i != skip ==> closed_at(cell, v, q, i)
}

/// Every queued cell is an open cell outside.
spec fn queue_ok(cell: Set<(int, int, int)>, q: Seq<usize>) -> bool {
    forall|k: int|
        0 <= k < q.len() ==> (#[trigger] q[k]) < padded_len() && open_at(cell, q[k] as int)
            && outside(cell, q[k] as int)
}

/// The cells that still hold the to-visit flag alone.
spec fn pending(v: Seq<u16>) -> Set<int> {
    Set::new(|i: int| 0 <= i < padded_len() && v[i] == 2)
}

proof fn lemma_pending_finite(v: Seq<u16>)
    ensures
        pending(v).finite(),
{
    lemma_int_range(0, padded_len());
    assert(pending(v).subset_of(set_int_range(0, padded_len())));
    lemma_set_subset_finite(set_int_range(0, padded_len()), pending(v));
}

/// Once the queue is empty, every cell on a chain from the corner was reached.
proof fn lemma_reached_along_path(cell: Set<(int, int, int)>, v: Seq<u16>, p: Seq<int>, k: int)
    requires
        marks_ok(cell, v),
        v[0] == 0,
        closed_but(cell, v, Seq::<usize>::empty(), -1),
        open_path(cell, p),
        0 <= k < p.len(),
    ensures
        v[p[k]] == 0,
    decreases k,
{
    if k > 0 {
        lemma_reached_along_path(cell, v, p, k - 1);
        let i = p[k - 1];
        let n = p[k];
        assert(open_at(cell, i));
        assert(open_at(cell, n));
        assert(linked(i, n));
        assert(closed_at(cell, v, Seq::<usize>::empty(), i));
        assert(!Seq::<usize>::empty().contains(n as usize));
    }
}

/// Sets every cell of the halo to `value` and leaves the chunk's cells alone.
fn fill_shell(voxels: &mut [u16; CS_P3], value: u16)
    ensures
        forall|i: int|
            0 <= i < padded_len() ==> #[trigger] final(voxels)@[i] == (if interior(i) {
                old(voxels)@[i]
            } else {
                value
            }),
{
    let mut i: usize = 0;
    while i < CS_P3
        invariant
            i <= 39304,
            forall|j: int|
                0 <= j < padded_len() ==> #[trigger] voxels@[j] == (if j >= i || interior(j) {
                    old(voxels)@[j]
                } else {
                    value
                }),
        decreases 39304 - i,
    {
        let z = i % CS_P;
        let x = (i / CS_P) % CS_P;
        let y = i / CS_P2;
        if x == 0 || x == 33 || y == 0 || y == 33 || z == 0 || z == 33 {
            proof {
                lemma_pad_coords(i as int);
            }
            voxels[i] = value;
        }
        proof {
            lemma_pad_coords(i as int);
        }
        i = i + 1;
    }
}

/// Queues the cell at `n` if it is open and still to visit.
fn visit(voxels: &[u16; CS_P3], queue: &mut VecDeque<usize>, n: usize)
    requires
        n < 39304,
        voxels@[n as int] == 0 || voxels@[n as int] == 2 || voxels@[n as int] == 3,
    ensures
        final(queue)@ == (if voxels@[n as int] == 2 {
            old(queue)@.push(n)
        } else {
            old(queue)@
        }),
{
    let v = voxels[n];
    proof {
        lemma_flags(v);
    }
    // filled, skip
    if v & VALUE_MASK != 0 {
        return ;
    }
    // already visited, skip
    if v & TOVISIT_MASK == 0 {
        return ;
    }
    queue.push_back(n);
}

/// Queues `n`, a cell linked to the reached cell `cur`, if it is still to
/// visit, and keeps what the search has established.
fn visit_linked(
    voxels: &[u16; CS_P3],
    queue: &mut VecDeque<usize>,
    cur: usize,
    n: usize,
    Ghost(cell): Ghost<Set<(int, int, int)>>,
)
    requires
        linked(cur as int, n as int),
        marks_ok(cell, voxels@),
        voxels@[cur as int] == 0,
        queue_ok(cell, old(queue)@),
    ensures
        queue_ok(cell, final(queue)@),
        forall|x: usize| old(queue)@.contains(x) ==> final(queue)@.contains(x),
        !solid_at(cell, n as int) ==> voxels@[n as int] == 0 || final(queue)@.contains(n),
        final(queue)@.len() <= old(queue)@.len() + 1,
{
    visit(voxels, queue, n);
    proof {
        if voxels@[n as int] == 2 {
            lemma_extend_outside(cell, cur as int, n as int);
            assert(queue@.last() == n);
            assert forall|x: usize| old(queue)@.contains(x) implies queue@.contains(x) by {
                let k = choose|k: int| 0 <= k < old(queue)@.len() && old(queue)@[k] == x;
                assert(queue@[k] == x);
            }
            assert forall|k: int| 0 <= k < queue@.len() implies (#[trigger] queue@[k])
                < padded_len() && open_at(cell, queue@[k] as int) && outside(
                cell,
                queue@[k] as int,
            ) by {
                if k < old(queue)@.len() {
                    assert(queue@[k] == old(queue)@[k]);
                }
            }
        }
    }
}

impl BGMCell {
    /// Writes the chunk into the padded buffer with its interior voids
    /// closed. A breadth-first search starts at the corner of the halo and
    /// walks over linked open cells; what it reaches is outside and becomes
    /// 0, everything else, filled or enclosed, becomes 1. What `voxels` held
    /// before does not matter.
    pub fn fill_bgm_solid(&self, voxels: &mut [u16; CS_P3])
        ensures
            final(voxels)@ == solid_padded(self@),
    {
        let ghost cell = self@;
        self.fill_bgm(voxels, TOVISIT_MASK);
        fill_shell(voxels, TOVISIT_MASK);
        proof {
            lemma_flag_values();
            assert forall|i: int| 0 <= i < padded_len() implies (if solid_at(cell, i) {
                #[trigger] voxels@[i] == 3
            } else {
                voxels@[i] == 2
            }) by {}
        }

        // bfs surface search
        let mut queue: VecDeque<usize> = VecDeque::new();
        queue.push_back(0);
        proof {
            lemma_corner_outside(cell);
            lemma_pending_finite(voxels@);
            assert(queue@[0] == 0);
            assert(queue@.contains(0usize));
        }

        loop
            invariant
                cell == self@,
                marks_ok(cell, voxels@),
                queue_ok(cell, queue@),
                closed_but(cell, voxels@, queue@, -1),
                voxels@[0] == 0 || queue@.contains(0usize),
            ensures
                queue@.len() == 0,
            decreases pending(voxels@).len() * 7 + queue@.len(),
        {
            let ghost q0 = queue@;
            let ghost v0 = voxels@;
            proof {
                lemma_pending_finite(voxels@);
            }
            let next = queue.pop_front();
            let idx: usize = match next {
                None => {
                    break ;
                },
                Some(idx) => idx,
            };
            let ghost q1 = queue@;
            proof {
                assert(q0[0] == idx);
                assert forall|x: usize| q0.contains(x) && x != idx implies q1.contains(x) by {
                    let k = choose|k: int| 0 <= k < q0.len() && q0[k] == x;
                    assert(q1[k - 1] == x);
                }
                assert forall|k: int| 0 <= k < q1.len() implies (#[trigger] q1[k]) < padded_len()
                    && open_at(cell, q1[k] as int) && outside(cell, q1[k] as int) by {
                    assert(q1[k] == q0[k + 1]);
                }
            }
            let v = voxels[idx];
            proof {
                lemma_flags(v);
            }
            if v & TOVISIT_MASK == 0 {
                proof {
                    assert forall|i: int|
                        0 <= i < padded_len() && #[trigger] voxels@[i] == 0 implies closed_at(
                        cell,
                        voxels@,
                        q1,
                        i,
                    ) by {
                        assert(closed_at(cell, v0, q0, i));
                        assert forall|n: int| #[trigger]
                            linked(i, n) && !solid_at(cell, n) implies voxels@[n] == 0
                            || q1.contains(n as usize) by {
                            if voxels@[n] != 0 {
                                assert(q0.contains(n as usize));
                            }
                        }
                    }
                }
            } else {
                voxels[idx] = v & !TOVISIT_MASK;
                let ghost v1 = voxels@;
                proof {
                    assert(v1 == v0.update(idx as int, 0u16));
                    assert(pending(v1) =~= pending(v0).remove(idx as int));
                    assert(pending(v0).contains(idx as int));
                    assert(marks_ok(cell, v1));
                    assert forall|i: int|
                        0 <= i < padded_len() && #[trigger] v1[i] == 0 && i != idx implies closed_at(
                        cell,
                        v1,
                        q1,
                        i,
                    ) by {
                        assert(v0[i] == 0);
                        assert(closed_at(cell, v0, q0, i));
                        assert forall|n: int| #[trigger]
                            linked(i, n) && !solid_at(cell, n) implies v1[n] == 0 || q1.contains(
                            n as usize,
                        ) by {
                            if n != idx && v0[n] != 0 {
                                assert(q0.contains(n as usize));
                            }
                        }
                    }
                }
                if idx + 1 < CS_P3 {
                    visit_linked(voxels, &mut queue, idx, idx + 1, Ghost(cell));
                }
                if idx >= 1 {
                    visit_linked(voxels, &mut queue, idx, idx - 1, Ghost(cell));
                }
                if idx + CS_P < CS_P3 {
                    visit_linked(voxels, &mut queue, idx, idx + CS_P, Ghost(cell));
                }
                if idx >= CS_P {
                    visit_linked(voxels, &mut queue, idx, idx - CS_P, Ghost(cell));
                }
                if idx + CS_P2 < CS_P3 {
                    visit_linked(voxels, &mut queue, idx, idx + CS_P2, Ghost(cell));
                }
                if idx >= CS_P2 {
                    visit_linked(voxels, &mut queue, idx, idx - CS_P2, Ghost(cell));
                }
                proof {
                    assert(voxels@ == v1);
                    assert(closed_at(cell, v1, queue@, idx as int));
                    assert forall|i: int|
                        0 <= i < padded_len() && #[trigger] v1[i] == 0 implies closed_at(
                        cell,
                        v1,
                        queue@,
                        i,
                    ) by {
                        if i != idx {
                            assert(closed_at(cell, v1, q1, i));
                            assert forall|n: int| #[trigger]
                                linked(i, n) && !solid_at(cell, n) implies v1[n] == 0
                                || queue@.contains(n as usize) by {
                                if v1[n] != 0 {
                                    assert(q1.contains(n as usize));
                                }
                            }
                        }
                    }
                    if idx != 0 && v1[0] != 0 {
                        assert(q0.contains(0usize));
                        assert(q1.contains(0usize));
                    }
                    lemma_pending_finite(v1);
                }
            }
        }

        let ghost reached = voxels@;
        proof {
            assert(!queue@.contains(0usize));
            assert(queue@ =~= Seq::<usize>::empty());
            assert forall|i: int| 0 <= i < padded_len() implies (#[trigger] reached[i] == 0)
                == outside(cell, i) by {
                if outside(cell, i) {
                    let p = choose|p: Seq<int>| #[trigger] open_path(cell, p) && p.last() == i;
                    lemma_reached_along_path(cell, reached, p, p.len() - 1);
                } else {
                }
            }
        }

        // TOVISIT to value
        let mut i: usize = 0;
        while i < CS_P3
            invariant
                i <= 39304,
                marks_ok(cell, reached),
                forall|j: int|
                    0 <= j < padded_len() ==> (#[trigger] reached[j] == 0) == outside(cell, j),
                forall|j: int|
                    0 <= j < padded_len() ==> #[trigger] voxels@[j] == (if j < i {
                        bit_value(!outside(cell, j))
                    } else {
                        reached[j]
                    }),
            decreases 39304 - i,
        {
            proof {
                lemma_flags(voxels@[i as int]);
                assert(reached[i as int] == voxels@[i as int]);
            }
            if voxels[i] & TOVISIT_MASK != 0 {
                voxels[i] = VALUE_MASK;
            }
            i = i + 1;
        }
        proof {
            assert(voxels@ =~= solid_padded(cell));
        }
    }
}

/// The chunk with its voids closed, as a set of positions: every position
/// of the chunk that is not outside.
pub open spec fn closed_cell(cell: Set<(int, int, int)>) -> Set<(int, int, int)> {
    Set::new(
        |p: (int, int, int)|
            crate::cell::in_cell(p) && !outside(cell, crate::padded::pad_index(p.0 + 1, p.1 + 1, p.2 + 1)),
    )
}

/// Every cell on a chain of open cells from the corner is outside.
proof fn lemma_path_cells_outside(cell: Set<(int, int, int)>, p: Seq<int>, k: int)
    requires
        open_path(cell, p),
        0 <= k < p.len(),
    ensures
        outside(cell, p[k]),
{
    let q = p.subrange(0, k + 1);
    assert forall|j: int| 0 <= j < q.len() implies open_at(cell, #[trigger] q[j]) by {
        assert(q[j] == p[j]);
    }
    assert forall|j: int| 0 < j < q.len() implies linked(q[j - 1], #[trigger] q[j]) by {
        assert(q[j] == p[j]);
        assert(q[j - 1] == p[j - 1]);
    }
    assert(q[0] == p[0]);
    assert(open_path(cell, q));
    assert(q.last() == p[k]);
}

proof fn lemma_closed_same_outside(cell: Set<(int, int, int)>, i: int)
    requires
        0 <= i < padded_len(),
    ensures
        outside(closed_cell(cell), i) == outside(cell, i),
{
    let closed = closed_cell(cell);
    if outside(closed, i) {
        let p = choose|p: Seq<int>| #[trigger] open_path(closed, p) && p.last() == i;
        assert forall|k: int| 0 <= k < p.len() implies open_at(cell, #[trigger] p[k]) by {
            assert(open_at(closed, p[k]));
            if solid_at(cell, p[k]) {
                lemma_pad_coords(p[k]);
                let l = crate::padded::local_of(p[k]);
                if outside(cell, p[k]) {
                    let w = choose|w: Seq<int>| #[trigger] open_path(cell, w) && w.last() == p[k];
                    assert(open_at(cell, w[w.len() - 1]));
                }
                assert(closed.contains(l));
            }
        }
        assert(open_path(cell, p));
    }
    if outside(cell, i) {
        let p = choose|p: Seq<int>| #[trigger] open_path(cell, p) && p.last() == i;
        assert forall|k: int| 0 <= k < p.len() implies open_at(closed, #[trigger] p[k]) by {
            assert(open_at(cell, p[k]));
            lemma_path_cells_outside(cell, p, k);
            if solid_at(closed, p[k]) {
                lemma_pad_coords(p[k]);
            }
        }
        assert(open_path(closed, p));
    }
}

/// Closing the voids of a chunk whose voids are closed changes nothing: the
/// padded buffer of the closed chunk is the padded buffer of the chunk.
pub proof fn lemma_void_closure_idempotent(cell: Set<(int, int, int)>)
    ensures
        solid_padded(closed_cell(cell)) == solid_padded(cell),
{
    assert forall|i: int| 0 <= i < padded_len() implies solid_padded(closed_cell(cell))[i]
        == solid_padded(cell)[i] by {
        lemma_closed_same_outside(cell, i);
    }
    assert(solid_padded(closed_cell(cell)) =~= solid_padded(cell));
}

/// The padded buffer with voids closed holds 1 exactly at the cells of the
/// closed chunk.
pub proof fn lemma_solid_padded_cells(cell: Set<(int, int, int)>, p: (int, int, int))
    requires
        crate::cell::in_cell(p),
    ensures
        (solid_padded(cell)[crate::padded::pad_index(p.0 + 1, p.1 + 1, p.2 + 1)] == 1)
            == closed_cell(cell).contains(p),
{
    crate::padded::lemma_pad_index(p.0 + 1, p.1 + 1, p.2 + 1);
}

} // verus!
