pub mod order;
pub mod shifts;
pub mod sweep;

use vstd::arithmetic::div_mod::lemma_fundamental_div_mod_converse;
use vstd::prelude::*;

use crate::iterators::edge_iterator::spec_edge;
use crate::polygon_matcher::sweep::{
    are_sweep_states, is_optimal_shift, is_sweep, lemma_sweep_keeps_nothing, optimal_shift,
    MAX_VERTICES,
};
use crate::shapes::placement::{are_placements, each_negated, each_shifted};
use crate::shapes::polygon::Polygon;
use crate::shapes::segment::Segment;
use crate::traits::vertex::Vertex;

verus! {

/// `bases` holds, for each placement, the length that the vertex type gave
/// for its pegged edge: edge `i` of placement `i`.
pub open spec fn are_bases<P: Vertex>(rotations: Seq<Polygon<P>>, bases: Seq<P::Length>) -> bool {
    &&& bases.len() == rotations.len()
    &&& forall|i: int|
        0 <= i < rotations.len() ==> call_ensures(
            P::dist,
            (spec_edge(&rotations[i], i).p, spec_edge(&rotations[i], i).q),
            #[trigger] bases[i],
        )
}

/// The length of the pegged edge of each placement of a polygon.
pub fn bases<P: Vertex>(polygon: &Polygon<P>, rotations: &Vec<Polygon<P>>) -> (lengths: Vec<
    P::Length,
>)
    requires
        rotations@.len() == polygon@.len(),
        forall|i: int| 0 <= i < rotations@.len() ==> (#[trigger] rotations@[i])@.len() == polygon@.len(),
    ensures
        are_bases(rotations@, lengths@),
{
    let mut lengths: Vec<P::Length> = Vec::new();
    let mut i: usize = 0;
    while i < polygon.len()
        invariant
            i <= polygon@.len(),
            rotations@.len() == polygon@.len(),
            forall|k: int|
                0 <= k < rotations@.len() ==> (#[trigger] rotations@[k])@.len() == polygon@.len(),
            are_bases(rotations@.subrange(0, i as int), lengths@),
        decreases polygon@.len() - i,
    {
        let ghost before = lengths@;
        let edge: Segment<P> = rotations[i].edge_at(i);
        lengths.push(edge.length());
        proof {
            assert forall|k: int| 0 <= k < i + 1 implies call_ensures(
                P::dist,
                (
                    spec_edge(&rotations@.subrange(0, i as int + 1)[k], k).p,
                    spec_edge(&rotations@.subrange(0, i as int + 1)[k], k).q,
                ),
                #[trigger] lengths@[k],
            ) by {
                if k < i {
                    assert(rotations@.subrange(0, i as int)[k] == rotations@[k]);
                    assert(lengths@[k] == before[k]);
                }
            }
        }
        i += 1;
    }
    assert(rotations@.subrange(0, i as int) =~= rotations@);
    lengths
}

/// `rotations1` are the placements of `polygon1`, each turned to its
/// opposite across the origin, and `rotations2` the placements of
/// `polygon2`.
pub open spec fn are_both_rotations<P: Vertex>(
    polygon1: &Polygon<P>,
    polygon2: &Polygon<P>,
    rotations1: Seq<Polygon<P>>,
    rotations2: Seq<Polygon<P>>,
) -> bool {
    &&& rotations1.len() == polygon1@.len()
    &&& rotations2.len() == polygon2@.len()
    &&& forall|i: int| 0 <= i < rotations1.len() ==> (#[trigger] rotations1[i])@.len() == polygon1@.len()
    &&& forall|j: int| 0 <= j < rotations2.len() ==> (#[trigger] rotations2[j])@.len() == polygon2@.len()
    &&& are_placements(polygon2@, rotations2)
    &&& exists|placements: Seq<Polygon<P>>|
        {
            &&& placements.len() == rotations1.len()
            &&& #[trigger] are_placements(polygon1@, placements)
            &&& forall|i: int|
                0 <= i < rotations1.len() ==> each_negated(placements[i]@, (#[trigger] rotations1[i])@)
        }
}

/// The placements of the two polygons, those of the first turned to their
/// opposites: the two polygons then approach each other from opposite sides
/// of the line on which the pegged edges lie.
pub fn both_rotations<P: Vertex>(polygon1: &Polygon<P>, polygon2: &Polygon<P>) -> (both: (
    Vec<Polygon<P>>,
    Vec<Polygon<P>>,
))
    ensures
        are_both_rotations(polygon1, polygon2, both.0@, both.1@),
{
    let placements: Vec<Polygon<P>> = polygon1.rotations();
    let mut rotations1: Vec<Polygon<P>> = Vec::new();
    let mut i: usize = 0;
    while i < placements.len()
        invariant
            i <= placements@.len(),
            rotations1@.len() == i,
            forall|k: int| 0 <= k < i ==> each_negated(placements@[k]@, (#[trigger] rotations1@[k])@),
        decreases placements@.len() - i,
    {
        rotations1.push(placements[i].negate());
        i += 1;
    }
    let rotations2: Vec<Polygon<P>> = polygon2.rotations();
    (rotations1, rotations2)
}

/// `sweeps` holds the outcome of the sweep of every placement of the first
/// polygon against every placement of the second: the pairs with the first
/// placement of the first polygon first.
pub open spec fn are_sweeps<P: Vertex>(
    rotations1: Seq<Polygon<P>>,
    rotations2: Seq<Polygon<P>>,
    base1: Seq<P::Length>,
    base2: Seq<P::Length>,
    sweeps: Seq<(P::Length, P::Length)>,
) -> bool {
    &&& sweeps.len() == rotations1.len() * rotations2.len()
    &&& forall|t: int|
        0 <= t < sweeps.len() ==> is_pair_sweep(
            rotations1,
            rotations2,
            base1,
            base2,
            spec_pair(t, rotations2.len() as int),
            #[trigger] sweeps[t],
        )
}

/// `best` is the outcome of the sweep of the placement `pair.0` of the first
/// polygon against the placement `pair.1` of the second.
pub open spec fn is_pair_sweep<P: Vertex>(
    rotations1: Seq<Polygon<P>>,
    rotations2: Seq<Polygon<P>>,
    base1: Seq<P::Length>,
    base2: Seq<P::Length>,
    pair: (int, int),
    best: (P::Length, P::Length),
) -> bool {
    &&& 0 <= pair.0 < rotations1.len()
    &&& 0 <= pair.1 < rotations2.len()
    &&& is_optimal_shift(
        &rotations1[pair.0],
        &rotations2[pair.1],
        base1[pair.0],
        base2[pair.1],
        best,
    )
}

/// The sweep at place `t` takes the lead where the vertex type found its
/// boundary longer than that of the leader before it; else that leader
/// stays.
pub open spec fn is_lead_step<P: Vertex>(
    sweeps: Seq<(P::Length, P::Length)>,
    leaders: Seq<int>,
    t: int,
) -> bool {
    let before = leaders[t - 1];
    ||| call_ensures(P::longer, (sweeps[t].0, sweeps[before].0), true) && leaders[t] == t
    ||| call_ensures(P::longer, (sweeps[t].0, sweeps[before].0), false) && leaders[t] == before
}

/// `leaders[t]` is the place of the longest boundary among the first `t + 1`
/// sweeps, the earliest of them where the vertex type found none longer.
pub open spec fn are_leaders<P: Vertex>(sweeps: Seq<(P::Length, P::Length)>, leaders: Seq<int>) -> bool {
    &&& leaders.len() == sweeps.len()
    &&& leaders.len() > 0 ==> leaders[0] == 0
    &&& forall|t: int| 0 <= t < leaders.len() ==> 0 <= #[trigger] leaders[t] <= t
    &&& forall|t: int| 0 < t < leaders.len() ==> #[trigger] is_lead_step::<P>(sweeps, leaders, t)
}

/// `matched` is the match that the sweep at place `w` stands for: its
/// placement of the first polygon moved by the shift that the sweep found,
/// its placement of the second polygon, and the boundary that the sweep
/// found.
pub open spec fn is_winner<P: Vertex>(
    rotations1: Seq<Polygon<P>>,
    rotations2: Seq<Polygon<P>>,
    sweeps: Seq<(P::Length, P::Length)>,
    w: int,
    matched: (Polygon<P>, Polygon<P>, P::Length),
) -> bool {
    let (i, j) = spec_pair(w, rotations2.len() as int);
    &&& 0 <= w < sweeps.len()
    &&& 0 <= i < rotations1.len()
    &&& 0 <= j < rotations2.len()
    &&& each_shifted(rotations1[i]@, sweeps[w].1, matched.0@)
    &&& matched.1@ == rotations2[j]@
    &&& matched.2 == sweeps[w].0
}

/// `matched` is the match that the first sweep with the longest boundary
/// stands for.
pub open spec fn is_pick<P: Vertex>(
    rotations1: Seq<Polygon<P>>,
    rotations2: Seq<Polygon<P>>,
    sweeps: Seq<(P::Length, P::Length)>,
    matched: (Polygon<P>, Polygon<P>, P::Length),
) -> bool {
    exists|leaders: Seq<int>| #[trigger]
        are_leaders::<P>(sweeps, leaders) && leaders.len() > 0 && is_winner(
            rotations1,
            rotations2,
            sweeps,
            leaders.last(),
            matched,
        )
}

/// What led to `matched`: the placements, their base lengths and the sweeps
/// of all pairs of placements, of which `matched` stands for the first with
/// the longest boundary.
pub open spec fn is_best_match_by<P: Vertex>(
    polygon1: &Polygon<P>,
    polygon2: &Polygon<P>,
    matched: (Polygon<P>, Polygon<P>, P::Length),
    rotations1: Seq<Polygon<P>>,
    rotations2: Seq<Polygon<P>>,
    base1: Seq<P::Length>,
    base2: Seq<P::Length>,
    sweeps: Seq<(P::Length, P::Length)>,
) -> bool {
    &&& are_both_rotations(polygon1, polygon2, rotations1, rotations2)
    &&& are_bases(rotations1, base1)
    &&& are_bases(rotations2, base2)
    &&& are_sweeps(rotations1, rotations2, base1, base2, sweeps)
    &&& is_pick(rotations1, rotations2, sweeps, matched)
}

/// `matched` is the best match of the two polygons: of the sweeps of every
/// placement of the first, turned to its opposite, against every placement
/// of the second, the first one with the longest shared boundary.
pub open spec fn is_best_match<P: Vertex>(
    polygon1: &Polygon<P>,
    polygon2: &Polygon<P>,
    matched: (Polygon<P>, Polygon<P>, P::Length),
) -> bool {
    exists|
        rotations1: Seq<Polygon<P>>,
        rotations2: Seq<Polygon<P>>,
        base1: Seq<P::Length>,
        base2: Seq<P::Length>,
        sweeps: Seq<(P::Length, P::Length)>,
    |
        is_best_match_by(
            polygon1,
            polygon2,
            matched,
            rotations1,
            rotations2,
            base1,
            base2,
            sweeps,
        )
}

/// The sweep of every placement of the first polygon against every
/// placement of the second, the pairs in the order of [`pairs`].
pub fn sweep_all<P: Vertex>(
    rotations1: &Vec<Polygon<P>>,
    rotations2: &Vec<Polygon<P>>,
    base1: &Vec<P::Length>,
    base2: &Vec<P::Length>,
) -> (sweeps: Vec<(P::Length, P::Length)>)
    requires
        base1@.len() == rotations1@.len(),
        base2@.len() == rotations2@.len(),
        rotations1@.len() * rotations2@.len() <= usize::MAX,
        forall|i: int| 0 <= i < rotations1@.len() ==> (#[trigger] rotations1@[i])@.len() <= MAX_VERTICES,
        forall|j: int| 0 <= j < rotations2@.len() ==> (#[trigger] rotations2@[j])@.len() <= MAX_VERTICES,
    ensures
        are_sweeps(rotations1@, rotations2@, base1@, base2@, sweeps@),
{
    let all: Vec<(usize, usize)> = pairs(rotations1.len(), rotations2.len());
    let mut sweeps: Vec<(P::Length, P::Length)> = Vec::new();
    let mut t: usize = 0;
    while t < all.len()
        invariant
            t <= all@.len(),
            all@.len() == rotations1@.len() * rotations2@.len(),
            base1@.len() == rotations1@.len(),
            base2@.len() == rotations2@.len(),
            forall|i: int|
                0 <= i < rotations1@.len() ==> (#[trigger] rotations1@[i])@.len() <= MAX_VERTICES,
            forall|j: int|
                0 <= j < rotations2@.len() ==> (#[trigger] rotations2@[j])@.len() <= MAX_VERTICES,
            forall|u: int|
                0 <= u < all@.len() ==> (#[trigger] all@[u]).0 == spec_pair(
                    u,
                    rotations2@.len() as int,
                ).0 && all@[u].1 == spec_pair(u, rotations2@.len() as int).1 && all@[u].0
                    < rotations1@.len() && all@[u].1 < rotations2@.len(),
            sweeps@.len() == t,
            forall|u: int|
                0 <= u < t ==> is_pair_sweep(
                    rotations1@,
                    rotations2@,
                    base1@,
                    base2@,
                    spec_pair(u, rotations2@.len() as int),
                    #[trigger] sweeps@[u],
                ),
        decreases all@.len() - t,
    {
        let ghost before = sweeps@;
        let (i, j) = all[t];
        let found: (P::Length, P::Length) = optimal_shift(
            &rotations1[i],
            &rotations2[j],
            base1[i],
            base2[j],
        );
        sweeps.push(found);
        proof {
            assert forall|u: int| 0 <= u < t + 1 implies is_pair_sweep(
                rotations1@,
                rotations2@,
                base1@,
                base2@,
                spec_pair(u, rotations2@.len() as int),
                #[trigger] sweeps@[u],
            ) by {
                if u < t {
                    assert(sweeps@[u] == before[u]);
                }
            }
        }
        t += 1;
    }
    sweeps
}

/// The match that the sweep with the longest boundary stands for: its
/// placement of the first polygon moved by the shift that the sweep found,
/// its placement of the second polygon, and that boundary. Of sweeps with
/// the same boundary the first one counts.
pub fn pick_best<P: Vertex>(
    rotations1: &Vec<Polygon<P>>,
    rotations2: &Vec<Polygon<P>>,
    sweeps: &Vec<(P::Length, P::Length)>,
) -> (matched: (Polygon<P>, Polygon<P>, P::Length))
    requires
        sweeps@.len() > 0,
        sweeps@.len() == rotations1@.len() * rotations2@.len(),
    ensures
        is_pick(rotations1@, rotations2@, sweeps@, matched),
{
    let m: usize = rotations2.len();
    let mut winner: usize = 0;
    let ghost mut leaders: Seq<int> = seq![0int];
    let mut t: usize = 1;
    while t < sweeps.len()
        invariant
            1 <= t <= sweeps@.len(),
            leaders.len() == t,
            are_leaders::<P>(sweeps@.subrange(0, t as int), leaders),
            winner == leaders.last(),
        decreases sweeps@.len() - t,
    {
        let takes: bool = P::longer(sweeps[t].0, sweeps[winner].0);
        proof {
            assert(0 <= leaders[t - 1] <= t - 1);
            assert(sweeps@.subrange(0, t as int)[leaders.last()] == sweeps@[winner as int]);
            lemma_leaders_grow::<P>(sweeps@.subrange(0, t as int), leaders, sweeps@[t as int], takes);
            assert(sweeps@.subrange(0, t as int).push(sweeps@[t as int]) =~= sweeps@.subrange(
                0,
                t as int + 1,
            ));
            leaders = leaders.push(if takes { t as int } else { leaders.last() });
        }
        if takes {
            winner = t;
        }
        t += 1;
    }
    proof {
        assert(sweeps@.subrange(0, t as int) =~= sweeps@);
        assert(0 <= leaders[t - 1] <= t - 1);
        assert(m > 0) by (nonlinear_arith)
            requires
                sweeps@.len() == rotations1@.len() * m,
                sweeps@.len() > 0,
        ;
        let w = winner as int;
        let width = m as int;
        let rows = rotations1@.len() as int;
        let row = w / width;
        let column = w % width;
        vstd::arithmetic::div_mod::lemma_fundamental_div_mod(w, width);
        vstd::arithmetic::div_mod::lemma_mod_bound(w, width);
        assert(0 <= row && row < rows) by (nonlinear_arith)
            requires
                0 <= w,
                w < rows * width,
                width > 0,
                w == width * row + column,
                0 <= column,
                column < width,
        ;
    }
    let i: usize = winner / m;
    let j: usize = winner % m;
    let p1: Polygon<P> = rotations1[i].shifted(sweeps[winner].1);
    let p2: Polygon<P> = rotations2[j].clone();
    let matched = (p1, p2, sweeps[winner].0);
    proof {
        assert(is_winner(rotations1@, rotations2@, sweeps@, leaders.last(), matched));
    }
    matched
}

/// The best way to lay the two polygons against each other: the first
/// polygon, placed and moved, the second polygon, placed, and the length of
/// the boundary that they then share, the longest that any sweep found.
/// Every edge of the first polygon is pegged in turn, and with it every edge
/// of the second. Among matches of the same length, the one found first
/// stays.
pub fn best_match<P: Vertex>(polygon1: &Polygon<P>, polygon2: &Polygon<P>) -> (matched: (
    Polygon<P>,
    Polygon<P>,
    P::Length,
))
    requires
        0 < polygon1@.len() <= MAX_VERTICES,
        0 < polygon2@.len() <= MAX_VERTICES,
        polygon1@.len() * polygon2@.len() <= usize::MAX,
    ensures
        is_best_match(polygon1, polygon2, matched),
{
    let (rotations1, rotations2) = both_rotations(polygon1, polygon2);
    let base1: Vec<P::Length> = bases(polygon1, &rotations1);
    let base2: Vec<P::Length> = bases(polygon2, &rotations2);
    let sweeps: Vec<(P::Length, P::Length)> = sweep_all(&rotations1, &rotations2, &base1, &base2);
    assert(sweeps@.len() > 0) by (nonlinear_arith)
        requires
            sweeps@.len() == polygon1@.len() * polygon2@.len(),
            polygon1@.len() > 0,
            polygon2@.len() > 0,
    ;
    let matched = pick_best(&rotations1, &rotations2, &sweeps);
    proof {
        assert(is_best_match_by(
            polygon1,
            polygon2,
            matched,
            rotations1@,
            rotations2@,
            base1@,
            base2@,
            sweeps@,
        ));
    }
    matched
}

/// Where the vertex type never finds one length longer than another, the
/// first sweep stays the leader.
pub proof fn lemma_first_sweep_leads<P: Vertex>(
    sweeps: Seq<(P::Length, P::Length)>,
    leaders: Seq<int>,
    t: int,
)
    requires
        are_leaders::<P>(sweeps, leaders),
        forall|a: P::Length, b: P::Length| !call_ensures(P::longer, (a, b), true),
        0 <= t < leaders.len(),
    ensures
        leaders[t] == 0,
    decreases t,
{
    if t > 0 {
        lemma_first_sweep_leads::<P>(sweeps, leaders, t - 1);
        assert(is_lead_step::<P>(sweeps, leaders, t));
    }
}

/// Where no placement and no shift gives a shared boundary that the vertex
/// type finds longer than nothing, the best match has the length of nothing:
/// where the vertex type never finds one length longer than another, the
/// length that `best_match` returns is the vertex type's length of nothing.
pub proof fn lemma_nothing_longer_gives_nothing<P: Vertex>(
    polygon1: &Polygon<P>,
    polygon2: &Polygon<P>,
    matched: (Polygon<P>, Polygon<P>, P::Length),
)
    requires
        is_best_match(polygon1, polygon2, matched),
        forall|a: P::Length, b: P::Length| !call_ensures(P::longer, (a, b), true),
    ensures
        call_ensures(P::no_length, (), matched.2),
{
    let (rotations1, rotations2, base1, base2, sweeps) = choose|
        rotations1: Seq<Polygon<P>>,
        rotations2: Seq<Polygon<P>>,
        base1: Seq<P::Length>,
        base2: Seq<P::Length>,
        sweeps: Seq<(P::Length, P::Length)>,
    |
        is_best_match_by(
            polygon1,
            polygon2,
            matched,
            rotations1,
            rotations2,
            base1,
            base2,
            sweeps,
        );
    let leaders = choose|leaders: Seq<int>| #[trigger]
        are_leaders::<P>(sweeps, leaders) && leaders.len() > 0 && is_winner(
            rotations1,
            rotations2,
            sweeps,
            leaders.last(),
            matched,
        );
    lemma_first_sweep_leads::<P>(sweeps, leaders, leaders.len() - 1);
    assert(matched.2 == sweeps[0].0);
    let pair = spec_pair(0, rotations2.len() as int);
    assert(is_pair_sweep(rotations1, rotations2, base1, base2, pair, sweeps[0]));
    let first = &rotations1[pair.0];
    let second = &rotations2[pair.1];
    let shifts = choose|shifts: Seq<P::Length>| #[trigger]
        crate::polygon_matcher::shifts::are_sorted_shifts(
            first,
            second,
            base1[pair.0],
            base2[pair.1],
            shifts,
        ) && is_sweep(first, second, shifts, sweeps[0]);
    let states = choose|states: Seq<crate::polygon_matcher::sweep::Sweep<P>>| #[trigger]
        are_sweep_states(first, second, shifts, states) && sweeps[0] == states.last().best;
    lemma_sweep_keeps_nothing(first, second, shifts, states, shifts.len() as int);
}

/// One more sweep keeps the leaders what they were and adds one: the new
/// sweep where it takes the lead, else the last leader.
pub proof fn lemma_leaders_grow<P: Vertex>(
    sweeps: Seq<(P::Length, P::Length)>,
    leaders: Seq<int>,
    found: (P::Length, P::Length),
    takes: bool,
)
    requires
        sweeps.len() > 0,
        are_leaders::<P>(sweeps, leaders),
        call_ensures(P::longer, (found.0, sweeps[leaders.last()].0), takes),
    ensures
        are_leaders::<P>(
            sweeps.push(found),
            leaders.push(
                if takes {
                    sweeps.len() as int
                } else {
                    leaders.last()
                },
            ),
        ),
{
    let t = sweeps.len() as int;
    let more = sweeps.push(found);
    let next = leaders.push(if takes { t } else { leaders.last() });
    assert(0 <= leaders[t - 1] <= t - 1);
    assert forall|u: int| 0 <= u < next.len() implies 0 <= #[trigger] next[u] <= u by {
        if u < t {
            assert(next[u] == leaders[u]);
        }
    }
    assert forall|u: int| 0 < u < next.len() implies #[trigger] is_lead_step::<P>(
        more,
        next,
        u,
    ) by {
        assert(next[u - 1] == leaders[u - 1]);
        assert(0 <= leaders[u - 1] <= u - 1);
        assert(more[leaders[u - 1]] == sweeps[leaders[u - 1]]);
        if u < t {
            assert(is_lead_step::<P>(sweeps, leaders, u));
            assert(next[u] == leaders[u]);
            assert(more[u] == sweeps[u]);
        } else {
            assert(more[u] == found);
            assert(leaders[u - 1] == leaders.last());
        }
    }
}

/// The `t`-th pair in the row-by-row enumeration of a table with `b` columns.
pub open spec fn spec_pair(t: int, b: int) -> (int, int)
    recommends
        b > 0,
{
    (t / b, t % b)
}

/// Every pair `(i, j)` with `i < a` and `j < b`, those with the smaller `i`
/// first and, among these, those with the smaller `j` first.
pub fn pairs(a: usize, b: usize) -> (all: Vec<(usize, usize)>)
    requires
        a * b <= usize::MAX,
    ensures
        all@.len() == a * b,
        forall|t: int|
            0 <= t < all@.len() ==> (#[trigger] all@[t]).0 == spec_pair(t, b as int).0 && all@[t].1
                == spec_pair(t, b as int).1 && all@[t].0 < a && all@[t].1 < b,
{
    let mut all: Vec<(usize, usize)> = Vec::new();
    let mut i: usize = 0;
    while i < a
        invariant
            i <= a,
            a * b <= usize::MAX,
            all@.len() == i * b,
            forall|t: int|
                0 <= t < all@.len() ==> (#[trigger] all@[t]).0 == spec_pair(t, b as int).0
                    && all@[t].1 == spec_pair(t, b as int).1 && all@[t].0 < a && all@[t].1 < b,
        decreases a - i,
    {
        let mut j: usize = 0;
        while j < b
            invariant
                i < a,
                j <= b,
                a * b <= usize::MAX,
                all@.len() == i * b + j,
                forall|t: int|
                    0 <= t < all@.len() ==> (#[trigger] all@[t]).0 == spec_pair(t, b as int).0
                        && all@[t].1 == spec_pair(t, b as int).1 && all@[t].0 < a && all@[t].1 < b,
            decreases b - j,
        {
            proof {
                lemma_fundamental_div_mod_converse(i * b + j, b as int, i as int, j as int);
                assert(i * b + j < a * b) by (nonlinear_arith)
                    requires
                        i < a,
                        j < b,
                ;
            }
            all.push((i, j));
            j += 1;
        }
        assert((i + 1) * b == i * b + b) by (nonlinear_arith);
        i += 1;
    }
    all
}

} // verus!
