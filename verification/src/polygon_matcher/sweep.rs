use vstd::prelude::*;

use crate::polygon_matcher::shifts::{are_sorted_shifts, collect_all_shifts};
use crate::shapes::boundary::is_common_boundary;
use crate::shapes::collision::collides;
use crate::shapes::placement::each_shifted;
use crate::shapes::polygon::{ring_index, wrap_index, Polygon};
use crate::traits::intersection::IntersectsHeuristic;
use crate::traits::vertex::Vertex;

verus! {

/// The most vertices of a polygon that the search takes: with more, an index
/// into the polygon and a step of the overlap scan may not fit an `i32`.
pub const MAX_VERTICES: usize = 0x3fff_ffff;

/// Where a sweep stands: the first polygon as moved so far, the shift that
/// brought it there, the best shared boundary found with the shift that gave
/// it, and the vertex pair at which the overlap scan starts.
pub struct Sweep<P: Vertex> {
    pub polygon: Polygon<P>,
    pub at: P::Length,
    pub best: (P::Length, P::Length),
    pub prev: (i32, i32),
}

/// The sweep is at its start: the polygon unmoved, nothing found, the scan
/// at vertex 0 of both polygons.
pub open spec fn sweep_starts<P: Vertex>(polygon1: &Polygon<P>, start: Sweep<P>) -> bool {
    &&& start.polygon@ == polygon1@
    &&& call_ensures(P::no_length, (), start.at)
    &&& start.best == (start.at, start.at)
    &&& start.prev == (0i32, 0i32)
}

/// `hit` and `found` are what the overlap scan of the two polygons gave when
/// started at `prev`.
pub open spec fn is_overlap_test<P: Vertex>(
    moved: &Polygon<P>,
    polygon2: &Polygon<P>,
    prev: (i32, i32),
    hit: bool,
    found: (i32, i32),
) -> bool {
    if hit {
        exists|k: nat, l: nat| moved.scan_stopped_at(polygon2, prev, found, collides::<P>, k, l)
    } else {
        found == prev && moved.scan_missed_before(polygon2, prev, collides::<P>, moved@.len(), 0)
    }
}

/// The vertex pair `found` with each index brought to its place on the ring
/// of its polygon.
pub open spec fn wrapped(found: (i32, i32), n: nat, m: nat) -> (i32, i32) {
    if n > 0 && m > 0 {
        (ring_index(found.0 as int, n) as i32, ring_index(found.1 as int, m) as i32)
    } else {
        found
    }
}

/// `after` is the best shared boundary once the boundary of the moved
/// polygon at the shift `x` has been measured: that boundary with `x` where
/// the vertex type found it longer than the best so far, else the best so
/// far.
pub open spec fn is_measure<P: Vertex>(
    moved: &Polygon<P>,
    polygon2: &Polygon<P>,
    x: P::Length,
    before: (P::Length, P::Length),
    after: (P::Length, P::Length),
) -> bool {
    exists|boundary: P::Length| #[trigger]
        is_common_boundary(moved, polygon2, boundary) && {
            ||| call_ensures(P::longer, (boundary, before.0), true) && after == (boundary, x)
            ||| call_ensures(P::longer, (boundary, before.0), false) && after == before
        }
}

/// The shift `x` was passed over: the vertex type found its gap to the last
/// shift tried negligible.
pub open spec fn is_skip<P: Vertex>(before: Sweep<P>, x: P::Length, after: Sweep<P>) -> bool {
    &&& after == before
    &&& exists|gap: P::Length| #[trigger]
        call_ensures(P::gap, (x, before.at), gap) && call_ensures(P::negligible, (gap,), true)
}

/// The shift `x` was tried, with `gap` as its gap to the last shift tried
/// and `hit` and `found` as the outcome of the overlap scan: the polygon
/// moved on by the gap, the scan run from where it last stopped, and, where
/// it found no overlap, the shared boundary measured.
pub open spec fn is_try_with<P: Vertex>(
    before: Sweep<P>,
    x: P::Length,
    polygon2: &Polygon<P>,
    after: Sweep<P>,
    gap: P::Length,
    hit: bool,
    found: (i32, i32),
) -> bool {
    &&& call_ensures(P::gap, (x, before.at), gap)
    &&& call_ensures(P::negligible, (gap,), false)
    &&& each_shifted(before.polygon@, gap, after.polygon@)
    &&& after.at == x
    &&& is_overlap_test(&after.polygon, polygon2, before.prev, hit, found)
    &&& after.prev == wrapped(found, after.polygon@.len(), polygon2@.len())
    &&& if hit {
        after.best == before.best
    } else {
        is_measure(&after.polygon, polygon2, x, before.best, after.best)
    }
}

/// The shift `x` was tried.
pub open spec fn is_try<P: Vertex>(
    before: Sweep<P>,
    x: P::Length,
    polygon2: &Polygon<P>,
    after: Sweep<P>,
) -> bool {
    exists|gap: P::Length, hit: bool, found: (i32, i32)|
        is_try_with(before, x, polygon2, after, gap, hit, found)
}

/// One step of the sweep: the shift `x` passed over or tried.
pub open spec fn is_sweep_step<P: Vertex>(
    before: Sweep<P>,
    x: P::Length,
    polygon2: &Polygon<P>,
    after: Sweep<P>,
) -> bool {
    is_skip(before, x, after) || is_try(before, x, polygon2, after)
}

/// `states` are the states of a sweep of `polygon1` against `polygon2` over
/// the given shifts, one step for each shift in its turn.
pub open spec fn are_sweep_states<P: Vertex>(
    polygon1: &Polygon<P>,
    polygon2: &Polygon<P>,
    shifts: Seq<P::Length>,
    states: Seq<Sweep<P>>,
) -> bool {
    &&& states.len() == shifts.len() + 1
    &&& sweep_starts(polygon1, states[0])
    &&& forall|t: int|
        0 <= t < shifts.len() ==> is_sweep_step(states[t], shifts[t], polygon2, #[trigger] states[t + 1])
}

/// `best` is the best shared boundary, with the shift that gave it, that a
/// sweep of `polygon1` against `polygon2` over the given shifts found.
pub open spec fn is_sweep<P: Vertex>(
    polygon1: &Polygon<P>,
    polygon2: &Polygon<P>,
    shifts: Seq<P::Length>,
    best: (P::Length, P::Length),
) -> bool {
    exists|states: Seq<Sweep<P>>| #[trigger]
        are_sweep_states(polygon1, polygon2, shifts, states) && best == states.last().best
}

/// `best` is the best shared boundary, with the shift that gave it, that the
/// sweep over the sorted shifts of the two polygons found.
pub open spec fn is_optimal_shift<P: Vertex>(
    polygon1: &Polygon<P>,
    polygon2: &Polygon<P>,
    base1: P::Length,
    base2: P::Length,
    best: (P::Length, P::Length),
) -> bool {
    exists|shifts: Seq<P::Length>| #[trigger]
        are_sorted_shifts(polygon1, polygon2, base1, base2, shifts) && is_sweep(
            polygon1,
            polygon2,
            shifts,
            best,
        )
}

/// Where the vertex type never finds one length longer than another, a sweep
/// keeps what it started with: nothing, at the shift of nothing.
pub proof fn lemma_sweep_keeps_nothing<P: Vertex>(
    polygon1: &Polygon<P>,
    polygon2: &Polygon<P>,
    shifts: Seq<P::Length>,
    states: Seq<Sweep<P>>,
    t: int,
)
    requires
        are_sweep_states(polygon1, polygon2, shifts, states),
        forall|a: P::Length, b: P::Length| !call_ensures(P::longer, (a, b), true),
        0 <= t <= shifts.len(),
    ensures
        states[t].best == states[0].best,
        call_ensures(P::no_length, (), states[t].best.0),
    decreases t,
{
    if t > 0 {
        lemma_sweep_keeps_nothing(polygon1, polygon2, shifts, states, t - 1);
        let u = t - 1;
        let before = states[u];
        let after = states[u + 1];
        let x = shifts[u];
        assert(is_sweep_step(before, x, polygon2, after));
        if is_try(before, x, polygon2, after) {
            let (gap, hit, found) = choose|gap: P::Length, hit: bool, found: (i32, i32)|
                is_try_with(before, x, polygon2, after, gap, hit, found);
            if !hit {
                assert(is_measure(&after.polygon, polygon2, x, before.best, after.best));
            }
        }
    }
}

/// Slides the first polygon along the x-axis over the second, from shift to
/// shift in ascending order, and returns the
/// longest shared boundary found at a shift without overlap, with that
/// shift. A shift whose gap to the last one tried is negligible is passed
/// over. The overlap scan starts each time where it last stopped. Of two
/// shifts with the same boundary the earlier stays.
pub fn optimal_shift<P: Vertex>(
    polygon1: &Polygon<P>,
    polygon2: &Polygon<P>,
    base1: P::Length,
    base2: P::Length,
) -> (best: (P::Length, P::Length))
    requires
        polygon1@.len() <= MAX_VERTICES,
        polygon2@.len() <= MAX_VERTICES,
    ensures
        is_optimal_shift(polygon1, polygon2, base1, base2, best),
{
    let shifts: Vec<P::Length> = collect_all_shifts(polygon1, polygon2, base1, base2);
    let n: usize = polygon1.len();
    let m: usize = polygon2.len();
    let nothing: P::Length = P::no_length();
    let mut moved: Polygon<P> = polygon1.clone();
    let mut prev_shift_x: P::Length = nothing;
    let mut solution: (P::Length, P::Length) = (nothing, nothing);
    let mut prev: (i32, i32) = (0, 0);
    let ghost mut states: Seq<Sweep<P>> = seq![
        Sweep { polygon: moved, at: prev_shift_x, best: solution, prev },
    ];
    let mut t: usize = 0;
    while t < shifts.len()
        invariant
            t <= shifts@.len(),
            n == polygon1@.len(),
            m == polygon2@.len(),
            n <= MAX_VERTICES,
            m <= MAX_VERTICES,
            moved@.len() == n,
            n > 0 && m > 0 ==> 0 <= prev.0 < n && 0 <= prev.1 < m,
            n == 0 || m == 0 ==> prev == (0i32, 0i32),
            states.len() == t + 1,
            states.last() == (Sweep { polygon: moved, at: prev_shift_x, best: solution, prev }),
            sweep_starts(polygon1, states[0]),
            forall|u: int|
                0 <= u < t ==> is_sweep_step(states[u], shifts@[u], polygon2, #[trigger] states[u + 1]),
        decreases shifts@.len() - t,
    {
        let x: P::Length = shifts[t];
        let ghost before = states.last();
        let ghost old_states = states;
        let gap: P::Length = P::gap(x, prev_shift_x);
        if P::negligible(gap) {
            proof {
                assert(is_skip(before, x, before));
                states = states.push(before);
            }
        } else {
            moved = moved.shifted(gap);
            let ghost start = prev;
            let hit: bool = moved.intersects(polygon2, &mut prev);
            let ghost found = prev;
            assert(is_overlap_test(&moved, polygon2, start, hit, found));
            if !hit {
                let boundary: P::Length = moved.common_boundary(polygon2);
                let ghost best_before = solution;
                if P::longer(boundary, solution.0) {
                    solution = (boundary, x);
                }
                assert(is_measure(&moved, polygon2, x, best_before, solution));
            }
            if n > 0 && m > 0 {
                prev = (wrap_index(prev.0, n) as i32, wrap_index(prev.1, m) as i32);
            }
            prev_shift_x = x;
            proof {
                let after = Sweep { polygon: moved, at: prev_shift_x, best: solution, prev };
                assert(is_try_with(before, x, polygon2, after, gap, hit, found));
                states = states.push(after);
            }
        }
        proof {
            assert forall|u: int| 0 <= u < t + 1 implies is_sweep_step(
                states[u],
                shifts@[u],
                polygon2,
                #[trigger] states[u + 1],
            ) by {
                if u < t {
                    assert(states[u] == old_states[u]);
                    assert(states[u + 1] == old_states[u + 1]);
                }
            }
        }
        t += 1;
    }
    proof {
        assert(are_sweep_states(polygon1, polygon2, shifts@, states));
        assert(is_sweep(polygon1, polygon2, shifts@, solution));
    }
    solution
}

} // verus!
