//! The extruder: deposits a budget of cells around the seed cells of one
//! extrusion segment.
use crate::bounding_box::saturated;
use crate::chunkedvoxel::ChunkedVoxel;
use crate::voxel::Voxel;
use crate::voxelidx::VoxelIdx;
use std::collections::VecDeque;
use std::ops::Range;
use vstd::prelude::*;

verus! {

/// The distance between two integers.
pub open spec fn abs_diff(a: int, b: int) -> int {
    if a >= b {
        a - b
    } else {
        b - a
    }
}

/// The number of unit steps along the axes between two cells.
pub open spec fn manhattan(a: VoxelIdx, b: VoxelIdx) -> int {
    abs_diff(a.x as int, b.x as int) + abs_diff(a.y as int, b.y as int) + abs_diff(
        a.z as int,
        b.z as int,
    )
}

/// Whether `z` lies in the half-open range.
pub open spec fn in_range(z: i32, zrange: Range<i32>) -> bool {
    zrange.start <= z < zrange.end
}

/// Whether some seed lies within `dist` unit steps of `p`.
pub open spec fn near_seed(p: VoxelIdx, seeds: Seq<VoxelIdx>, dist: int) -> bool {
    exists|j: int| 0 <= j < seeds.len() && manhattan(p, #[trigger] seeds[j]) <= dist
}

/// `p` is a cell that the extruder may deposit and the store takes it for
/// the cell `c`: its height lies in the range and a seed lies within
/// `max_dist` unit steps.
pub open spec fn deposit_of<V: Voxel>(
    p: VoxelIdx,
    c: VoxelIdx,
    zrange: Range<i32>,
    seeds: Seq<VoxelIdx>,
    max_dist: int,
) -> bool {
    V::same_cell(p, c) && in_range(p.z, zrange) && near_seed(p, seeds, max_dist)
}

/// The extruder may have filled the cell `c`.
pub open spec fn deposited<V: Voxel>(
    c: VoxelIdx,
    zrange: Range<i32>,
    seeds: Seq<VoxelIdx>,
    max_dist: int,
) -> bool {
    exists|p: VoxelIdx| #[trigger] deposit_of::<V>(p, c, zrange, seeds, max_dist)
}

/// The number of cells that a queued cell with the given remaining depth
/// can still bring into the queue, itself included.
pub open spec fn weight(depth: nat) -> nat
    decreases depth,
{
    if depth == 0 {
        1
    } else {
        1 + 6 * weight((depth - 1) as nat)
    }
}

/// The weight of a queue: the sum of the weights of its cells.
pub open spec fn queue_weight(q: Seq<(VoxelIdx, usize)>) -> nat
    decreases q.len(),
{
    if q.len() == 0 {
        0
    } else {
        queue_weight(q.drop_last()) + weight(q.last().1 as nat)
    }
}

/// A queued cell with its remaining depth lies close enough to a seed that
/// the depth it has used and the depth it has left make up `max_dist`.
pub open spec fn item_ok(item: (VoxelIdx, usize), seeds: Seq<VoxelIdx>, max_dist: int) -> bool {
    near_seed(item.0, seeds, max_dist - item.1)
}

/// Every queued cell is close enough to a seed.
pub open spec fn items_ok(q: Seq<(VoxelIdx, usize)>, seeds: Seq<VoxelIdx>, max_dist: int) -> bool {
    forall|k: int| 0 <= k < q.len() ==> item_ok(#[trigger] q[k], seeds, max_dist)
}

proof fn lemma_queue_weight_pop(q: Seq<(VoxelIdx, usize)>)
    requires
        q.len() > 0,
    ensures
        queue_weight(q) == weight(q[0].1 as nat) + queue_weight(q.subrange(1, q.len() as int)),
    decreases q.len(),
{
    let rest = q.subrange(1, q.len() as int);
    if q.len() == 1 {
        reveal_with_fuel(queue_weight, 2);
        assert(q.drop_last().len() == 0);
        assert(rest.len() == 0);
        assert(q.last() == q[0]);
    } else {
        lemma_queue_weight_pop(q.drop_last());
        assert(q.drop_last().subrange(1, q.len() - 1) == rest.drop_last());
        assert(rest.last() == q.last());
        assert(q.drop_last()[0] == q[0]);
    }
}

proof fn lemma_queue_weight_push(q: Seq<(VoxelIdx, usize)>, item: (VoxelIdx, usize))
    ensures
        queue_weight(q.push(item)) == queue_weight(q) + weight(item.1 as nat),
{
    assert(q.push(item).drop_last() == q);
}

proof fn lemma_step(
    pos: VoxelIdx,
    next: VoxelIdx,
    depth: usize,
    seeds: Seq<VoxelIdx>,
    max_dist: int,
)
    requires
        depth > 0,
        item_ok((pos, depth), seeds, max_dist),
        manhattan(pos, next) == 1,
    ensures
        item_ok((next, (depth - 1) as usize), seeds, max_dist),
{
    let j = choose|j: int| 0 <= j < seeds.len() && manhattan(pos, #[trigger] seeds[j]) <= max_dist
        - depth;
    assert(manhattan(next, seeds[j]) <= manhattan(pos, seeds[j]) + 1);
}

/// The cells of a store, as a set.
pub open spec fn cells_of<V: Voxel>(v: V) -> Set<VoxelIdx> {
    Set::new(|c: VoxelIdx| v.filled(c))
}

/// The cells of a store of kind `V` after the cell at `p` was filled.
pub open spec fn with_cell<V: Voxel>(s: Set<VoxelIdx>, p: VoxelIdx) -> Set<VoxelIdx> {
    Set::new(|c: VoxelIdx| s.contains(c) || V::same_cell(p, c))
}

/// Whether a store of kind `V` with the cells `s` takes a write to `p`.
pub open spec fn takes<V: Voxel>(s: Set<VoxelIdx>, p: VoxelIdx) -> bool {
    !s.contains(p) && V::accepts(p)
}

/// The state of an extrusion: the cells of the target store, the cells
/// visited, the queue of cells with the steps each has left, and the number
/// of cells deposited.
#[verifier::ext_equal]
pub struct Extrusion {
    pub filled: Set<VoxelIdx>,
    pub visited: Set<VoxelIdx>,
    pub queue: Seq<(VoxelIdx, usize)>,
    pub count: int,
}

/// The face neighbour of `pos` one step along the axis (0, 1, 2 for x, y,
/// z), up or down; nothing where the coordinate would overflow.
pub open spec fn moved(pos: VoxelIdx, axis: int, up: bool) -> Option<VoxelIdx> {
    let d: int = if up {
        1
    } else {
        -1
    };
    if axis == 0 {
        if i32::MIN <= pos.x + d <= i32::MAX {
            Some(VoxelIdx { x: (pos.x + d) as i32, y: pos.y, z: pos.z })
        } else {
            None
        }
    } else if axis == 1 {
        if i32::MIN <= pos.y + d <= i32::MAX {
            Some(VoxelIdx { x: pos.x, y: (pos.y + d) as i32, z: pos.z })
        } else {
            None
        }
    } else {
        if i32::MIN <= pos.z + d <= i32::MAX {
            Some(VoxelIdx { x: pos.x, y: pos.y, z: (pos.z + d) as i32 })
        } else {
            None
        }
    }
}

/// The state after the neighbour `next` was offered to the queue: it is
/// marked visited and queued with `depth` steps left, unless there is no
/// such neighbour, its height is out of range, or it was visited before.
pub open spec fn push_step<W: Voxel>(
    e: Extrusion,
    next: Option<VoxelIdx>,
    depth: usize,
    zrange: Range<i32>,
) -> Extrusion {
    match next {
        Some(c) => if in_range(c.z, zrange) && takes::<W>(e.visited, c) {
            Extrusion {
                visited: with_cell::<W>(e.visited, c),
                queue: e.queue.push((c, depth)),
                ..e
            }
        } else {
            e
        },
        None => e,
    }
}

/// The state after the six face neighbours of `pos` were offered to the
/// queue, in the order +z, -z, +x, -x, +y, -y.
pub open spec fn expand<W: Voxel>(
    e: Extrusion,
    pos: VoxelIdx,
    depth: usize,
    zrange: Range<i32>,
) -> Extrusion {
    let e1 = push_step::<W>(e, moved(pos, 2, true), depth, zrange);
    let e2 = push_step::<W>(e1, moved(pos, 2, false), depth, zrange);
    let e3 = push_step::<W>(e2, moved(pos, 0, true), depth, zrange);
    let e4 = push_step::<W>(e3, moved(pos, 0, false), depth, zrange);
    let e5 = push_step::<W>(e4, moved(pos, 1, true), depth, zrange);
    push_step::<W>(e5, moved(pos, 1, false), depth, zrange)
}

/// The state in which an extrusion ends, from the state `e`. The cell at
/// the head of the queue is deposited if its height lies in the range and
/// the target takes it; at `n` deposits the extrusion ends. Otherwise a cell
/// with steps left offers its neighbours to the queue with one step less,
/// and the extrusion goes on until the queue is empty.
pub open spec fn run<V: Voxel, W: Voxel>(e: Extrusion, n: int, zrange: Range<i32>) -> Extrusion
    decreases queue_weight(e.queue),
    via run_decreases::<V, W>
{
    if e.queue.len() == 0 {
        e
    } else {
        let pos = e.queue[0].0;
        let depth = e.queue[0].1;
        let rest = Extrusion { queue: e.queue.subrange(1, e.queue.len() as int), ..e };
        let hit = in_range(pos.z, zrange) && takes::<V>(e.filled, pos);
        let after = if hit {
            Extrusion { filled: with_cell::<V>(e.filled, pos), count: e.count + 1, ..rest }
        } else {
            rest
        };
        if hit && after.count == n {
            after
        } else if depth == 0 {
            run::<V, W>(after, n, zrange)
        } else {
            run::<V, W>(expand::<W>(after, pos, (depth - 1) as usize, zrange), n, zrange)
        }
    }
}

#[via_fn]
proof fn run_decreases<V: Voxel, W: Voxel>(e: Extrusion, n: int, zrange: Range<i32>) {
    if e.queue.len() != 0 {
        lemma_queue_weight_pop(e.queue);
        let pos = e.queue[0].0;
        let depth = e.queue[0].1;
        let rest = Extrusion { queue: e.queue.subrange(1, e.queue.len() as int), ..e };
        let hit = in_range(pos.z, zrange) && takes::<V>(e.filled, pos);
        let after = if hit {
            Extrusion { filled: with_cell::<V>(e.filled, pos), count: e.count + 1, ..rest }
        } else {
            rest
        };
        if depth > 0 {
            lemma_expand_weight::<W>(after, pos, (depth - 1) as usize, zrange);
            assert(weight(depth as nat) == 1 + 6 * weight((depth - 1) as nat));
        } else {
            assert(weight(0) == 1);
        }
    }
}

/// The state after the seed cells were marked visited and queued, each with
/// `max_dist` steps left. A seed that was visited before is queued again.
pub open spec fn seeded<W: Voxel>(e: Extrusion, cells: Seq<VoxelIdx>, max_dist: usize) -> Extrusion
    decreases cells.len(),
{
    if cells.len() == 0 {
        e
    } else {
        let before = seeded::<W>(e, cells.drop_last(), max_dist);
        let pos = cells.last();
        Extrusion {
            visited: if takes::<W>(before.visited, pos) {
                with_cell::<W>(before.visited, pos)
            } else {
                before.visited
            },
            queue: before.queue.push((pos, max_dist)),
            ..before
        }
    }
}

/// The state in which an extrusion of up to `n` cells ends, for a target
/// with the cells `filled` and a record of visited cells `visited`. With
/// `n == 0` nothing happens at all.
pub open spec fn extrusion<V: Voxel, W: Voxel>(
    filled: Set<VoxelIdx>,
    visited: Set<VoxelIdx>,
    zrange: Range<i32>,
    max_dist: usize,
    cells: Seq<VoxelIdx>,
    n: int,
) -> Extrusion {
    let start = Extrusion { filled: filled, visited: visited, queue: Seq::empty(), count: 0 };
    if n == 0 {
        start
    } else {
        run::<V, W>(seeded::<W>(start, cells, max_dist), n, zrange)
    }
}

proof fn lemma_push_step_weight<W: Voxel>(
    e: Extrusion,
    next: Option<VoxelIdx>,
    depth: usize,
    zrange: Range<i32>,
)
    ensures
        queue_weight(push_step::<W>(e, next, depth, zrange).queue) <= queue_weight(e.queue)
            + weight(depth as nat),
{
    if next is Some {
        lemma_queue_weight_push(e.queue, (next->0, depth));
    }
}

proof fn lemma_expand_weight<W: Voxel>(
    e: Extrusion,
    pos: VoxelIdx,
    depth: usize,
    zrange: Range<i32>,
)
    ensures
        queue_weight(expand::<W>(e, pos, depth, zrange).queue) <= queue_weight(e.queue) + 6
            * weight(depth as nat),
{
    let e1 = push_step::<W>(e, moved(pos, 2, true), depth, zrange);
    let e2 = push_step::<W>(e1, moved(pos, 2, false), depth, zrange);
    let e3 = push_step::<W>(e2, moved(pos, 0, true), depth, zrange);
    let e4 = push_step::<W>(e3, moved(pos, 0, false), depth, zrange);
    let e5 = push_step::<W>(e4, moved(pos, 1, true), depth, zrange);
    lemma_push_step_weight::<W>(e, moved(pos, 2, true), depth, zrange);
    lemma_push_step_weight::<W>(e1, moved(pos, 2, false), depth, zrange);
    lemma_push_step_weight::<W>(e2, moved(pos, 0, true), depth, zrange);
    lemma_push_step_weight::<W>(e3, moved(pos, 0, false), depth, zrange);
    lemma_push_step_weight::<W>(e4, moved(pos, 1, true), depth, zrange);
    lemma_push_step_weight::<W>(e5, moved(pos, 1, false), depth, zrange);
}

/// The face neighbour of `pos` one step along an axis, or nothing where the
/// coordinate would overflow.
fn step_to(pos: VoxelIdx, axis: u8, up: bool) -> (r: Option<VoxelIdx>)
    requires
        axis < 3,
    ensures
        r == moved(pos, axis as int, up),
        r is Some ==> manhattan(pos, r->0) == 1,
{
    let c = if axis == 0 {
        pos.x
    } else if axis == 1 {
        pos.y
    } else {
        pos.z
    };
    let stepped = if up {
        c.checked_add(1)
    } else {
        c.checked_sub(1)
    };
    match stepped {
        Some(v) => {
            if axis == 0 {
                Some(VoxelIdx { x: v, y: pos.y, z: pos.z })
            } else if axis == 1 {
                Some(VoxelIdx { x: pos.x, y: v, z: pos.z })
            } else {
                Some(VoxelIdx { x: pos.x, y: pos.y, z: v })
            }
        },
        None => None,
    }
}

/// Offers `next` to the queue at the given depth: it is marked visited and
/// queued unless its height is out of range or it was visited before.
fn push_next<W: Voxel>(
    visited: &mut W,
    queue: &mut VecDeque<(VoxelIdx, usize)>,
    next: Option<VoxelIdx>,
    depth: usize,
    zrange: &Range<i32>,
    Ghost(e): Ghost<Extrusion>,
    Ghost(seeds): Ghost<Seq<VoxelIdx>>,
    Ghost(max_dist): Ghost<int>,
)
    requires
        old(visited).wf(),
        e.visited == cells_of(*old(visited)),
        e.queue == old(queue)@,
        items_ok(old(queue)@, seeds, max_dist),
        next is Some ==> item_ok((next->0, depth), seeds, max_dist),
    ensures
        final(visited).wf(),
        forall|c: VoxelIdx| old(visited).filled(c) ==> #[trigger] final(visited).filled(c),
        items_ok(final(queue)@, seeds, max_dist),
        push_step::<W>(e, next, depth, *zrange).visited == cells_of(*final(visited)),
        push_step::<W>(e, next, depth, *zrange).queue == final(queue)@,
{
    let next = match next {
        Some(c) => c,
        None => {
            return ;
        },
    };
    if !(zrange.start <= next.z && next.z < zrange.end) {
        return ;
    }
    let taken = visited.add(next);
    proof {
        if taken {
            assert(cells_of(*visited) =~= with_cell::<W>(cells_of(*old(visited)), next));
        } else {
            assert(cells_of(*visited) =~= cells_of(*old(visited)));
        }
    }
    if !taken {
        return ;
    }
    queue.push_back((next, depth));
    proof {
        assert forall|k: int| 0 <= k < queue@.len() implies item_ok(
            #[trigger] queue@[k],
            seeds,
            max_dist,
        ) by {
            if k < old(queue)@.len() {
                assert(queue@[k] == old(queue)@[k]);
            }
        }
    }
}

/// Deposits up to `n` cells into `v`, breadth first from the seed cells.
///
/// Every seed is marked in `visited` and queued with `max_dist` steps left.
/// The cell at the head of the queue is added to `v` if its height lies in
/// `zrange`; a cell that `v` takes counts towards `n`, and at `n` the
/// extruder stops. A cell with steps left then offers its six face
/// neighbours to the queue, in the order +z, -z, +x, -x, +y, -y, each with
/// one step less; a neighbour is queued unless its height is out of range,
/// it was visited before, or its coordinate would overflow.
///
/// Returns the number of cells that `v` took. With `n == 0` nothing is
/// touched, `visited` included.
pub fn extrude_into<V: Voxel, W: Voxel>(
    v: &mut V,
    visited: &mut W,
    zrange: Range<i32>,
    max_dist: usize,
    cells: &[VoxelIdx],
    n: usize,
) -> (count: usize)
    requires
        old(v).wf(),
        old(visited).wf(),
    ensures
        final(v).wf(),
        final(visited).wf(),
        cells_of(*final(v)) == extrusion::<V, W>(
            cells_of(*old(v)),
            cells_of(*old(visited)),
            zrange,
            max_dist,
            cells@,
            n as int,
        ).filled,
        cells_of(*final(visited)) == extrusion::<V, W>(
            cells_of(*old(v)),
            cells_of(*old(visited)),
            zrange,
            max_dist,
            cells@,
            n as int,
        ).visited,
        count == extrusion::<V, W>(
            cells_of(*old(v)),
            cells_of(*old(visited)),
            zrange,
            max_dist,
            cells@,
            n as int,
        ).count,
        count <= n,
        forall|c: VoxelIdx| old(v).filled(c) ==> final(v).filled(c),
        forall|c: VoxelIdx|
            final(v).filled(c) && !old(v).filled(c) ==> deposited::<V>(
                c,
                zrange,
                cells@,
                max_dist as int,
            ),
        final(v).spec_bounding_box().spec_count() == saturated(
            old(v).spec_bounding_box().spec_count() + count,
        ),
        count == 0 ==> forall|c: VoxelIdx| final(v).filled(c) == old(v).filled(c),
        count == 0 ==> final(v).spec_bounding_box() == old(v).spec_bounding_box(),
        n == 0 ==> *final(v) == *old(v) && *final(visited) == *old(visited),
        forall|c: VoxelIdx| old(visited).filled(c) ==> final(visited).filled(c),
{
    let ghost start = Extrusion {
        filled: cells_of(*old(v)),
        visited: cells_of(*old(visited)),
        queue: Seq::empty(),
        count: 0,
    };
    if n == 0 {
        return 0;
    }
    let ghost seeds = cells@;
    let ghost dist = max_dist as int;
    let mut extruded: usize = 0;
    let mut candidates: VecDeque<(VoxelIdx, usize)> = VecDeque::with_capacity(1024 * 8);

    let mut i: usize = 0;
    let ghost mut cur = start;
    proof {
        assert(cells@.subrange(0, 0).len() == 0);
    }
    while i < cells.len()
        invariant
            i <= cells@.len(),
            seeds == cells@,
            dist == max_dist as int,
            visited.wf(),
            forall|c: VoxelIdx| old(visited).filled(c) ==> #[trigger] visited.filled(c),
            items_ok(candidates@, seeds, dist),
            cur == seeded::<W>(start, cells@.subrange(0, i as int), max_dist),
            cur.filled == cells_of(*old(v)),
            cur.visited == cells_of(*visited),
            cur.queue == candidates@,
            cur.count == 0,
        decreases cells@.len() - i,
    {
        let pos = cells[i];
        let ghost seen = *visited;
        let taken = visited.add(pos);
        let ghost before = candidates@;
        candidates.push_back((pos, max_dist));
        proof {
            let s = cells@.subrange(0, i as int + 1);
            assert(s.drop_last() == cells@.subrange(0, i as int));
            assert(s.last() == pos);
            if taken {
                assert(cells_of(*visited) =~= with_cell::<W>(cells_of(seen), pos));
            } else {
                assert(cells_of(*visited) =~= cells_of(seen));
            }
            let next = seeded::<W>(start, s, max_dist);
            assert(next.visited == cells_of(*visited));
            assert(next.queue == candidates@);
            cur = next;
            assert(manhattan(pos, seeds[i as int]) == 0);
            assert(item_ok((pos, max_dist), seeds, dist));
            assert forall|k: int| 0 <= k < candidates@.len() implies item_ok(
                #[trigger] candidates@[k],
                seeds,
                dist,
            ) by {
                if k < before.len() {
                    assert(candidates@[k] == before[k]);
                }
            }
        }
        i = i + 1;
    }
    let ghost result = run::<V, W>(cur, n as int, zrange);
    proof {
        assert(cells@.subrange(0, cells@.len() as int) == cells@);
    }

    loop
        invariant_except_break
            extruded < n,
            cur.filled == cells_of(*v),
            cur.visited == cells_of(*visited),
            cur.queue == candidates@,
            cur.count == extruded,
            run::<V, W>(cur, n as int, zrange) == result,
        invariant
            seeds == cells@,
            dist == max_dist as int,
            n > 0,
            v.wf(),
            visited.wf(),
            items_ok(candidates@, seeds, dist),
            forall|c: VoxelIdx| old(v).filled(c) ==> #[trigger] v.filled(c),
            forall|c: VoxelIdx| old(visited).filled(c) ==> #[trigger] visited.filled(c),
            forall|c: VoxelIdx|
                #[trigger] v.filled(c) && !old(v).filled(c) ==> deposited::<V>(
                    c,
                    zrange,
                    seeds,
                    dist,
                ),
            v.spec_bounding_box().spec_count() == saturated(
                old(v).spec_bounding_box().spec_count() + extruded,
            ),
            extruded == 0 ==> forall|c: VoxelIdx| #[trigger] v.filled(c) == old(v).filled(c),
            extruded == 0 ==> v.spec_bounding_box() == old(v).spec_bounding_box(),
        ensures
            extruded <= n,
            result.filled == cells_of(*v),
            result.visited == cells_of(*visited),
            result.count == extruded,
        decreases queue_weight(candidates@),
    {
        let ghost q0 = candidates@;
        let ghost cur0 = cur;
        let next = candidates.pop_front();
        let (pos, depth) = match next {
            None => {
                break ;
            },
            Some(item) => item,
        };
        let ghost q1 = candidates@;
        let ghost rest = Extrusion { queue: cur0.queue.subrange(1, cur0.queue.len() as int), ..cur0 };
        let ghost hit = in_range(pos.z, zrange) && takes::<V>(cur0.filled, pos);
        let ghost after = if hit {
            Extrusion { filled: with_cell::<V>(cur0.filled, pos), count: cur0.count + 1, ..rest }
        } else {
            rest
        };
        proof {
            lemma_queue_weight_pop(q0);
            assert(q0[0] == (pos, depth));
            assert(item_ok(q0[0], seeds, dist));
            assert forall|k: int| 0 <= k < q1.len() implies item_ok(
                #[trigger] q1[k],
                seeds,
                dist,
            ) by {
                assert(q1[k] == q0[k + 1]);
            }
        }

        if zrange.start <= pos.z && pos.z < zrange.end {
            let ghost before = *v;
            let taken = v.add(pos);
            proof {
                if taken {
                    assert(cells_of(*v) =~= with_cell::<V>(cells_of(before), pos));
                } else {
                    assert(cells_of(*v) =~= cells_of(before));
                }
                assert(taken == hit);
            }
            if taken {
                proof {
                    assert forall|c: VoxelIdx| v.filled(c) && !old(v).filled(c) implies deposited::<
                        V,
                    >(c, zrange, seeds, dist) by {
                        if !before.filled(c) {
                            assert(V::same_cell(pos, c));
                            let j = choose|j: int|
                                0 <= j < seeds.len() && manhattan(pos, #[trigger] seeds[j]) <= dist
                                    - depth;
                            assert(manhattan(pos, seeds[j]) <= dist);
                            assert(deposit_of::<V>(pos, c, zrange, seeds, dist));
                        }
                    }
                }
                extruded = extruded + 1;
                if n == extruded {
                    proof {
                        assert(result == after);
                    }
                    break ;
                }
            }
        } else {
            proof {
                assert(!hit);
            }
        }
        proof {
            assert(after.filled == cells_of(*v));
            assert(after.count == extruded);
            cur = after;
        }

        if depth == 0 {
            proof {
                assert(run::<V, W>(cur0, n as int, zrange) == run::<V, W>(after, n as int, zrange));
            }
            continue ;
        }
        let d = depth - 1;
        proof {
            assert(weight(depth as nat) == 1 + 6 * weight(d as nat));
            lemma_expand_weight::<W>(after, pos, d, zrange);
        }

        // +z, -z, +x, -x, +y, -y
        let mut k: u8 = 0;
        while k < 6
            invariant
                k <= 6,
                depth > 0,
                d == depth - 1,
                seeds == cells@,
                dist == max_dist as int,
                visited.wf(),
                item_ok((pos, depth), seeds, dist),
                items_ok(candidates@, seeds, dist),
                forall|c: VoxelIdx| old(visited).filled(c) ==> #[trigger] visited.filled(c),
                cur.filled == after.filled,
                cur.count == after.count,
                cur.visited == cells_of(*visited),
                cur.queue == candidates@,
                cur == offered::<W>(after, pos, d, zrange, k as int),
            decreases 6 - k,
        {
            let axis: u8 = if k < 2 {
                2
            } else if k < 4 {
                0
            } else {
                1
            };
            let up = k % 2 == 0;
            let nx = step_to(pos, axis, up);
            proof {
                if nx is Some {
                    lemma_step(pos, nx->0, depth, seeds, dist);
                }
            }
            push_next(
                visited,
                &mut candidates,
                nx,
                d,
                &zrange,
                Ghost(cur),
                Ghost(seeds),
                Ghost(dist),
            );
            proof {
                let stepped = push_step::<W>(cur, nx, d, zrange);
                assert(stepped == offered::<W>(after, pos, d, zrange, k as int + 1));
                cur = stepped;
            }
            k = k + 1;
        }
        proof {
            lemma_offered_all::<W>(after, pos, d, zrange);
            assert(cur == expand::<W>(after, pos, d, zrange));
            assert(run::<V, W>(cur0, n as int, zrange) == run::<V, W>(cur, n as int, zrange));
        }
    }

    extruded
}

/// The state after the first `k` of the six face neighbours of `pos` were
/// offered to the queue.
pub open spec fn offered<W: Voxel>(
    e: Extrusion,
    pos: VoxelIdx,
    depth: usize,
    zrange: Range<i32>,
    k: int,
) -> Extrusion
    decreases k,
{
    if k <= 0 {
        e
    } else {
        push_step::<W>(
            offered::<W>(e, pos, depth, zrange, k - 1),
            moved(
                pos,
                if k <= 2 {
                    2
                } else if k <= 4 {
                    0
                } else {
                    1
                },
                k % 2 == 1,
            ),
            depth,
            zrange,
        )
    }
}

proof fn lemma_offered_all<W: Voxel>(e: Extrusion, pos: VoxelIdx, depth: usize, zrange: Range<i32>)
    ensures
        offered::<W>(e, pos, depth, zrange, 6) == expand::<W>(e, pos, depth, zrange),
{
    reveal_with_fuel(offered, 7);
}

/// Deposits up to `n` cells into `v`, breadth first from the seed cells,
/// with a fresh record of the cells visited. Returns the number of cells
/// that `v` took.
pub fn extrude_at_deque<V: Voxel>(
    v: &mut V,
    zrange: Range<i32>,
    max_dist: usize,
    cells: &[VoxelIdx],
    n: usize,
) -> (count: usize)
    requires
        old(v).wf(),
    ensures
        final(v).wf(),
        cells_of(*final(v)) == extrusion::<V, ChunkedVoxel>(
            cells_of(*old(v)),
            Set::empty(),
            zrange,
            max_dist,
            cells@,
            n as int,
        ).filled,
        count == extrusion::<V, ChunkedVoxel>(
            cells_of(*old(v)),
            Set::empty(),
            zrange,
            max_dist,
            cells@,
            n as int,
        ).count,
        count <= n,
        forall|c: VoxelIdx| old(v).filled(c) ==> final(v).filled(c),
        forall|c: VoxelIdx|
            final(v).filled(c) && !old(v).filled(c) ==> deposited::<V>(
                c,
                zrange,
                cells@,
                max_dist as int,
            ),
        final(v).spec_bounding_box().spec_count() == saturated(
            old(v).spec_bounding_box().spec_count() + count,
        ),
        count == 0 ==> forall|c: VoxelIdx| final(v).filled(c) == old(v).filled(c),
        count == 0 ==> final(v).spec_bounding_box() == old(v).spec_bounding_box(),
        n == 0 ==> *final(v) == *old(v),
{
    let mut visited = ChunkedVoxel::default();
    proof {
        assert(cells_of(visited) =~= Set::<VoxelIdx>::empty());
    }
    extrude_into(v, &mut visited, zrange, max_dist, cells, n)
}

/// Deposits up to `n` cells into `v` around the seed cells: the breadth-first
/// extruder. Returns the number of cells that `v` took.
pub fn extrude_at<V: Voxel>(
    v: &mut V,
    zrange: Range<i32>,
    max_dist: usize,
    cells: &[VoxelIdx],
    n: usize,
) -> (count: usize)
    requires
        old(v).wf(),
    ensures
        final(v).wf(),
        cells_of(*final(v)) == extrusion::<V, ChunkedVoxel>(
            cells_of(*old(v)),
            Set::empty(),
            zrange,
            max_dist,
            cells@,
            n as int,
        ).filled,
        count == extrusion::<V, ChunkedVoxel>(
            cells_of(*old(v)),
            Set::empty(),
            zrange,
            max_dist,
            cells@,
            n as int,
        ).count,
        count <= n,
        forall|c: VoxelIdx| old(v).filled(c) ==> final(v).filled(c),
        forall|c: VoxelIdx|
            final(v).filled(c) && !old(v).filled(c) ==> deposited::<V>(
                c,
                zrange,
                cells@,
                max_dist as int,
            ),
        final(v).spec_bounding_box().spec_count() == saturated(
            old(v).spec_bounding_box().spec_count() + count,
        ),
        count == 0 ==> forall|c: VoxelIdx| final(v).filled(c) == old(v).filled(c),
        count == 0 ==> final(v).spec_bounding_box() == old(v).spec_bounding_box(),
        n == 0 ==> *final(v) == *old(v),
{
    extrude_at_deque(v, zrange, max_dist, cells, n)
}

/// Where the range of heights is empty, no cell can be deposited.
pub proof fn lemma_empty_range_deposits_nothing<V: Voxel>(
    c: VoxelIdx,
    zrange: Range<i32>,
    seeds: Seq<VoxelIdx>,
    max_dist: int,
)
    requires
        zrange.start >= zrange.end,
    ensures
        !deposited::<V>(c, zrange, seeds, max_dist),
{
}

proof fn lemma_seeded_keeps<W: Voxel>(e: Extrusion, cells: Seq<VoxelIdx>, max_dist: usize)
    ensures
        seeded::<W>(e, cells, max_dist).filled == e.filled,
        seeded::<W>(e, cells, max_dist).count == e.count,
    decreases cells.len(),
{
    if cells.len() > 0 {
        lemma_seeded_keeps::<W>(e, cells.drop_last(), max_dist);
    }
}

proof fn lemma_empty_range_run<V: Voxel, W: Voxel>(e: Extrusion, n: int, zrange: Range<i32>)
    requires
        zrange.start >= zrange.end,
    ensures
        run::<V, W>(e, n, zrange).filled == e.filled,
        run::<V, W>(e, n, zrange).count == e.count,
    decreases queue_weight(e.queue),
{
    if e.queue.len() != 0 {
        lemma_queue_weight_pop(e.queue);
        let pos = e.queue[0].0;
        let depth = e.queue[0].1;
        let rest = Extrusion { queue: e.queue.subrange(1, e.queue.len() as int), ..e };
        if depth == 0 {
            assert(weight(0) == 1);
            lemma_empty_range_run::<V, W>(rest, n, zrange);
        } else {
            let d = (depth - 1) as usize;
            lemma_expand_weight::<W>(rest, pos, d, zrange);
            assert(weight(depth as nat) == 1 + 6 * weight(d as nat));
            let next = expand::<W>(rest, pos, d, zrange);
            assert(next.filled == e.filled && next.count == e.count);
            lemma_empty_range_run::<V, W>(next, n, zrange);
        }
    }
}

/// An extrusion with a budget of zero deposits nothing and visits nothing;
/// one whose range of heights is empty deposits nothing.
pub proof fn lemma_extrusion_of_nothing<V: Voxel, W: Voxel>(
    filled: Set<VoxelIdx>,
    visited: Set<VoxelIdx>,
    zrange: Range<i32>,
    max_dist: usize,
    cells: Seq<VoxelIdx>,
    n: int,
)
    ensures
        n == 0 ==> extrusion::<V, W>(filled, visited, zrange, max_dist, cells, n).filled == filled,
        n == 0 ==> extrusion::<V, W>(filled, visited, zrange, max_dist, cells, n).visited
            == visited,
        n == 0 ==> extrusion::<V, W>(filled, visited, zrange, max_dist, cells, n).count == 0,
        zrange.start >= zrange.end ==> extrusion::<V, W>(
            filled,
            visited,
            zrange,
            max_dist,
            cells,
            n,
        ).filled == filled,
        zrange.start >= zrange.end ==> extrusion::<V, W>(
            filled,
            visited,
            zrange,
            max_dist,
            cells,
            n,
        ).count == 0,
{
    let start = Extrusion { filled: filled, visited: visited, queue: Seq::empty(), count: 0 };
    if zrange.start >= zrange.end && n != 0 {
        lemma_seeded_keeps::<W>(start, cells, max_dist);
        lemma_empty_range_run::<V, W>(seeded::<W>(start, cells, max_dist), n, zrange);
    }
}

/// The cells of a line and the cell it ends on: the start, then every
/// sample that differs from the cell before it.
pub open spec fn line_trace(pos0: VoxelIdx, samples: Seq<VoxelIdx>) -> (Seq<VoxelIdx>, VoxelIdx)
    decreases samples.len(),
{
    if samples.len() == 0 {
        (seq![pos0], pos0)
    } else {
        let before = line_trace(pos0, samples.drop_last());
        if samples.last() == before.1 {
            before
        } else {
            (before.0.push(samples.last()), samples.last())
        }
    }
}

/// Appends the cells of a line to `cells`: the start `pos0`, then every
/// sample along the line that differs from the cell before it. The samples
/// are the rounded points of the line, in order.
pub fn line_cells(pos0: VoxelIdx, samples: &[VoxelIdx], cells: &mut Vec<VoxelIdx>)
    ensures
        final(cells)@ == old(cells)@ + line_trace(pos0, samples@).0,
{
    let mut cur = pos0;
    cells.push(cur);
    let mut i: usize = 0;
    proof {
        assert(samples@.subrange(0, 0).len() == 0);
        assert(cells@ =~= old(cells)@ + line_trace(pos0, samples@.subrange(0, 0)).0);
    }
    while i < samples.len()
        invariant
            i <= samples@.len(),
            cells@ == old(cells)@ + line_trace(pos0, samples@.subrange(0, i as int)).0,
            cur == line_trace(pos0, samples@.subrange(0, i as int)).1,
        decreases samples@.len() - i,
    {
        let next = samples[i];
        proof {
            let s = samples@.subrange(0, i as int + 1);
            assert(s.drop_last() == samples@.subrange(0, i as int));
            assert(s.last() == next);
        }
        if !(next.x == cur.x && next.y == cur.y && next.z == cur.z) {
            cells.push(next);
            cur = next;
            proof {
                assert(cells@ =~= old(cells)@ + line_trace(
                    pos0,
                    samples@.subrange(0, i as int + 1),
                ).0);
            }
        }
        i = i + 1;
    }
    proof {
        assert(samples@.subrange(0, samples@.len() as int) == samples@);
    }
}

} // verus!
