use vstd::prelude::*;

use crate::iterators::edge_iterator::spec_edge;
use crate::polygon_matcher::order::{ascending, is_ascending};
use crate::shapes::boundary::{lemma_cell, somes};
use crate::shapes::polygon::Polygon;
use crate::shapes::segment::Segment;
use crate::traits::vertex::Vertex;
use crate::util::{ccw, not_left, oriented};

verus! {

/// The answers of the vertex type make one of the two edges at the vertex
/// `v.1` fall.
pub open spec fn faces_left<P: Vertex>(v: (P, P, P)) -> bool {
    Segment { p: v.0, q: v.1 }.falls() || Segment { p: v.1, q: v.2 }.falls()
}

/// The answers of the vertex type keep both edges at the vertex `v.1` from
/// falling.
pub open spec fn faces_left_not<P: Vertex>(v: (P, P, P)) -> bool {
    Segment { p: v.0, q: v.1 }.falls_not() && Segment { p: v.1, q: v.2 }.falls_not()
}

/// The answers of the vertex type make one of the two edges at the vertex
/// `v.1` rise.
pub open spec fn faces_right<P: Vertex>(v: (P, P, P)) -> bool {
    Segment { p: v.0, q: v.1 }.rises() || Segment { p: v.1, q: v.2 }.rises()
}

/// The answers of the vertex type keep both edges at the vertex `v.1` from
/// rising.
pub open spec fn faces_right_not<P: Vertex>(v: (P, P, P)) -> bool {
    Segment { p: v.0, q: v.1 }.rises_not() && Segment { p: v.1, q: v.2 }.rises_not()
}

/// Whether one of the two edges at the vertex `v.1` falls.
pub fn face_left<P: Vertex>(v: (P, P, P)) -> (left: bool)
    ensures
        left ==> faces_left(v),
        !left ==> faces_left_not(v),
{
    Segment { p: v.0, q: v.1 }.face_left() || Segment { p: v.1, q: v.2 }.face_left()
}

/// Whether one of the two edges at the vertex `v.1` rises.
pub fn face_right<P: Vertex>(v: (P, P, P)) -> (right: bool)
    ensures
        right ==> faces_right(v),
        !right ==> faces_right_not(v),
{
    Segment { p: v.0, q: v.1 }.face_right() || Segment { p: v.1, q: v.2 }.face_right()
}

/// The answers of the vertex type let the vertex `v.1` slide onto the edge
/// `wall`: the corner at the vertex turns left, its height is within those
/// of the edge, and where the edge rises an edge at the vertex falls, where
/// it falls one rises.
pub open spec fn slides_onto<P: Vertex>(wall: Segment<P>, v: (P, P, P)) -> bool {
    &&& oriented(v.0, v.1, v.2, 1)
    &&& call_ensures(P::within_heights, (wall.p, wall.q, v.1), true)
    &&& wall.rises_not() || faces_left(v)
    &&& wall.falls_not() || faces_right(v)
}

/// The answers of the vertex type keep the vertex `v.1` from sliding onto
/// the edge `wall`.
pub open spec fn slides_not_onto<P: Vertex>(wall: Segment<P>, v: (P, P, P)) -> bool {
    ||| not_left(v.0, v.1, v.2)
    ||| call_ensures(P::within_heights, (wall.p, wall.q, v.1), false)
    ||| wall.rises() && faces_left_not(v)
    ||| wall.falls() && faces_right_not(v)
}

/// Whether the vertex `v.1` can come to touch the edge `wall` by sliding
/// along the x-axis.
pub fn may_touch<P: Vertex>(wall: &Segment<P>, v: (P, P, P)) -> (touch: bool)
    ensures
        touch ==> slides_onto(*wall, v),
        !touch ==> slides_not_onto(*wall, v),
{
    if !ccw(v.0, v.1, v.2) {
        return false;
    }
    if !P::within_heights(wall.p, wall.q, v.1) {
        return false;
    }
    if wall.face_right() && !face_left(v) {
        return false;
    }
    if wall.face_left() && !face_right(v) {
        return false;
    }
    true
}

/// `x` is the shift that brings the vertex `v` onto the line through the
/// edge `wall`: the distance along the x-axis that the vertex type gave,
/// taken the other way where `right` is false.
pub open spec fn is_shift_onto<P: Vertex>(wall: Segment<P>, v: P, right: bool, x: P::Length) -> bool {
    if right {
        call_ensures(P::horizontal_distance, (wall.p, wall.q, v), x)
    } else {
        exists|distance: P::Length| #[trigger]
            call_ensures(P::horizontal_distance, (wall.p, wall.q, v), distance) && call_ensures(
                P::reversed,
                (distance,),
                x,
            )
    }
}

/// `cell` is what is kept of the shift that brings the vertex `v` onto the
/// line through the edge `wall`: the shift where the vertex type found it
/// inside the range from nothing to `max_shift`, else nothing.
pub open spec fn is_shift_in_range<P: Vertex>(
    wall: Segment<P>,
    v: P,
    right: bool,
    max_shift: P::Length,
    cell: Option<P::Length>,
) -> bool {
    exists|x: P::Length| #[trigger]
        is_shift_onto(wall, v, right, x) && match cell {
            Some(kept) => kept == x && call_ensures(P::in_range, (x, max_shift), true),
            None => call_ensures(P::in_range, (x, max_shift), false),
        }
}

/// `cell` is the shift at which the vertex `v.1` comes to touch the edge
/// `wall`: none where the edge is level or the vertex cannot slide onto it,
/// else what is kept of the shift onto the line through the edge.
pub open spec fn is_shift_cell<P: Vertex>(
    wall: Segment<P>,
    v: (P, P, P),
    right: bool,
    max_shift: P::Length,
    cell: Option<P::Length>,
) -> bool {
    ||| wall.flat() && cell is None
    ||| wall.steep() && slides_not_onto(wall, v) && cell is None
    ||| wall.steep() && slides_onto(wall, v) && is_shift_in_range(
        wall,
        v.1,
        right,
        max_shift,
        cell,
    )
}

/// `cells` holds the shift of every edge of `edges` and every vertex of
/// `vertices`: the pairs with the first edge first, and for each edge the
/// vertices in their order.
pub open spec fn are_shift_cells<P: Vertex>(
    edges: &Polygon<P>,
    vertices: &Polygon<P>,
    right: bool,
    max_shift: P::Length,
    cells: Seq<Option<P::Length>>,
) -> bool {
    &&& cells.len() == edges@.len() * vertices@.len()
    &&& forall|i: int, j: int|
        0 <= i < edges@.len() && 0 <= j < vertices@.len() ==> is_shift_cell(
            spec_edge(edges, i),
            vertices.spec_vertices_at(j),
            right,
            max_shift,
            #[trigger] cells[i * vertices@.len() + j],
        )
}

/// `shifts` are the shifts at which a vertex of `vertices` comes to touch an
/// edge of `edges`.
pub open spec fn are_shifts<P: Vertex>(
    edges: &Polygon<P>,
    vertices: &Polygon<P>,
    right: bool,
    max_shift: P::Length,
    shifts: Seq<P::Length>,
) -> bool {
    exists|cells: Seq<Option<P::Length>>| #[trigger]
        are_shift_cells(edges, vertices, right, max_shift, cells) && shifts == somes(cells)
}

/// The shifts along the x-axis, inside the range from nothing to
/// `max_shift`, at which a vertex of `vertices` comes to touch the line
/// through an edge of `edges` that is not level.
pub fn collect_shifts<P: Vertex>(
    edges: &Polygon<P>,
    vertices: &Polygon<P>,
    right: bool,
    max_shift: P::Length,
) -> (shifts: Vec<P::Length>)
    ensures
        are_shifts(edges, vertices, right, max_shift, shifts@),
{
    let n: usize = edges.len();
    let m: usize = vertices.len();
    let mut shifts: Vec<P::Length> = Vec::new();
    let ghost mut cells: Seq<Option<P::Length>> = Seq::empty();
    let mut i: usize = 0;
    while i < n
        invariant
            n == edges@.len(),
            m == vertices@.len(),
            i <= n,
            cells.len() == i * m,
            shifts@ == somes(cells),
            forall|i2: int, j2: int|
                0 <= i2 < i && 0 <= j2 < m ==> is_shift_cell(
                    spec_edge(edges, i2),
                    vertices.spec_vertices_at(j2),
                    right,
                    max_shift,
                    #[trigger] cells[i2 * m + j2],
                ),
        decreases n - i,
    {
        let wall: Segment<P> = edges.edge_at(i);
        let level: bool = wall.is_horizontal();
        let mut j: usize = 0;
        while j < m
            invariant
                n == edges@.len(),
                m == vertices@.len(),
                i < n,
                j <= m,
                wall == spec_edge(edges, i as int),
                level ==> wall.flat(),
                !level ==> wall.steep(),
                cells.len() == i * m + j,
                shifts@ == somes(cells),
                forall|i2: int, j2: int|
                    0 <= i2 <= i && 0 <= j2 < m && (i2 < i || j2 < j) ==> is_shift_cell(
                        spec_edge(edges, i2),
                        vertices.spec_vertices_at(j2),
                        right,
                        max_shift,
                        #[trigger] cells[i2 * m + j2],
                    ),
            decreases m - j,
        {
            let ghost old_cells = cells;
            let mut cell: Option<P::Length> = None;
            if !level {
                let v: (P, P, P) = vertices.triple_at(j);
                if may_touch(&wall, v) {
                    let distance: P::Length = wall.horizontal_distance(v.1);
                    let x: P::Length = if right { distance } else { P::reversed(distance) };
                    assert(is_shift_onto(wall, v.1, right, x));
                    if P::in_range(x, max_shift) {
                        cell = Some(x);
                        shifts.push(x);
                    }
                    assert(is_shift_in_range(wall, v.1, right, max_shift, cell));
                }
            }
            proof {
                assert(is_shift_cell(
                    wall,
                    vertices.spec_vertices_at(j as int),
                    right,
                    max_shift,
                    cell,
                ));
                cells = cells.push(cell);
                assert(cells.drop_last() =~= old_cells);
                assert forall|i2: int, j2: int|
                    0 <= i2 <= i && 0 <= j2 < m && (i2 < i || j2 < j + 1) implies is_shift_cell(
                    spec_edge(edges, i2),
                    vertices.spec_vertices_at(j2),
                    right,
                    max_shift,
                    #[trigger] cells[i2 * m + j2],
                ) by {
                    lemma_cell(i2, j2, i as int, j as int, m as int);
                    if i2 == i && j2 == j {
                    } else {
                        assert(cells[i2 * m + j2] == old_cells[i2 * m + j2]);
                    }
                }
            }
            j += 1;
        }
        assert((i + 1) * m == i * m + m) by (nonlinear_arith);
        i += 1;
    }
    proof {
        assert(are_shift_cells(edges, vertices, right, max_shift, cells));
    }
    shifts
}

/// `unsorted` holds the shifts to try for the two polygons: the two base
/// lengths, then the shifts at which a vertex of the second touches an edge
/// of the first, then those at which a vertex of the first touches an edge
/// of the second, all within the sum of the two base lengths.
pub open spec fn are_all_shifts<P: Vertex>(
    polygon1: &Polygon<P>,
    polygon2: &Polygon<P>,
    base1: P::Length,
    base2: P::Length,
    unsorted: Seq<P::Length>,
) -> bool {
    exists|max_shift: P::Length, first: Seq<P::Length>, second: Seq<P::Length>|
        {
            &&& call_ensures(P::sum, (base1, base2), max_shift)
            &&& #[trigger] are_shifts(polygon1, polygon2, true, max_shift, first)
            &&& #[trigger] are_shifts(polygon2, polygon1, false, max_shift, second)
            &&& unsorted == seq![base1, base2] + first + second
        }
}

/// `shifts` holds the shifts to try for the two polygons, each as often as
/// it came, in ascending order as the vertex type compares them.
pub open spec fn are_sorted_shifts<P: Vertex>(
    polygon1: &Polygon<P>,
    polygon2: &Polygon<P>,
    base1: P::Length,
    base2: P::Length,
    shifts: Seq<P::Length>,
) -> bool {
    &&& is_ascending::<P>(shifts)
    &&& exists|unsorted: Seq<P::Length>| #[trigger]
        are_all_shifts(polygon1, polygon2, base1, base2, unsorted) && shifts.to_multiset()
            == unsorted.to_multiset()
}

/// Every shift to try for the two polygons, in ascending order: the base
/// lengths of the two, and the shifts at which a vertex of the one comes to
/// touch an edge of the other.
pub fn collect_all_shifts<P: Vertex>(
    polygon1: &Polygon<P>,
    polygon2: &Polygon<P>,
    base1: P::Length,
    base2: P::Length,
) -> (shifts: Vec<P::Length>)
    ensures
        are_sorted_shifts(polygon1, polygon2, base1, base2, shifts@),
{
    let max_shift: P::Length = P::sum(base1, base2);
    let mut unsorted: Vec<P::Length> = Vec::new();
    unsorted.push(base1);
    unsorted.push(base2);
    let first: Vec<P::Length> = collect_shifts(polygon1, polygon2, true, max_shift);
    let second: Vec<P::Length> = collect_shifts(polygon2, polygon1, false, max_shift);
    let mut k: usize = 0;
    while k < first.len()
        invariant
            k <= first@.len(),
            unsorted@ == seq![base1, base2] + first@.subrange(0, k as int),
        decreases first@.len() - k,
    {
        unsorted.push(first[k]);
        assert(first@.subrange(0, k as int).push(first@[k as int]) =~= first@.subrange(
            0,
            k as int + 1,
        ));
        assert(unsorted@ =~= seq![base1, base2] + first@.subrange(0, k as int + 1));
        k += 1;
    }
    assert(first@.subrange(0, k as int) =~= first@);
    let mut k: usize = 0;
    while k < second.len()
        invariant
            k <= second@.len(),
            unsorted@ == seq![base1, base2] + first@ + second@.subrange(0, k as int),
        decreases second@.len() - k,
    {
        unsorted.push(second[k]);
        assert(second@.subrange(0, k as int).push(second@[k as int]) =~= second@.subrange(
            0,
            k as int + 1,
        ));
        assert(unsorted@ =~= seq![base1, base2] + first@ + second@.subrange(0, k as int + 1));
        k += 1;
    }
    assert(second@.subrange(0, k as int) =~= second@);
    assert(are_all_shifts(polygon1, polygon2, base1, base2, unsorted@));
    ascending::<P>(&unsorted)
}

} // verus!
