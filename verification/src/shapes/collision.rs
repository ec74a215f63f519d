use vstd::prelude::*;

use crate::shapes::polygon::Polygon;
use crate::shapes::segment::Segment;
use crate::traits::intersection::{crossing, not_crossing, Intersects};
use crate::traits::vertex::{differ, same, Vertex};
use crate::util::{angle, ccw, not_left, oriented};

verus! {

/// The answers of the vertex type put the vertex `v.1` on the edge `e`, away
/// from its ends, with one of its two neighbours to the left of the edge.
pub open spec fn presses_into<P: Vertex>(e: Segment<P>, v: (P, P, P)) -> bool {
    e.holds_inside(v.1) && (oriented(e.p, e.q, v.2, 1) || oriented(e.p, e.q, v.0, 1))
}

/// The answers of the vertex type put the vertex `v.1` off the inside of the
/// edge `e`, or none of its two neighbours to the left of the edge.
pub open spec fn not_presses_into<P: Vertex>(e: Segment<P>, v: (P, P, P)) -> bool {
    e.holds_not_inside(v.1) || (not_left(e.p, e.q, v.2) && not_left(e.p, e.q, v.0))
}

/// The corner of the triple `b`, by the answers of the vertex type: `from`
/// is the direction from the vertex `b.1` to the vertex after it, `to` the
/// direction to the vertex before it, and `whole` the angle swept from the
/// one to the other.
pub open spec fn is_corner<P: Vertex>(b: (P, P, P), from: P, to: P, whole: P::Angle) -> bool {
    &&& call_ensures(P::minus, (b.2, b.1), from)
    &&& call_ensures(P::minus, (b.0, b.1), to)
    &&& call_ensures(P::angle, (from, to), whole)
}

/// `part` is the angle that the vertex type gave as swept from the
/// direction `from` to the direction from `apex` to `r`.
pub open spec fn is_swept_to<P: Vertex>(apex: P, from: P, r: P, part: P::Angle) -> bool {
    exists|direction: P| #[trigger]
        call_ensures(P::minus, (r, apex), direction) && call_ensures(
            P::angle,
            (from, direction),
            part,
        )
}

/// The answers of the vertex type put the direction from `apex` to `r`
/// inside the corner that starts at the direction `from` and sweeps the
/// angle `whole`, away from both of its sides.
pub open spec fn is_inside_corner<P: Vertex>(apex: P, from: P, whole: P::Angle, r: P) -> bool {
    exists|part: P::Angle| #[trigger]
        is_swept_to(apex, from, r, part) && call_ensures(
            P::strictly_inside_angle,
            (part, whole),
            true,
        )
}

/// The answers of the vertex type put the direction from `apex` to `r`
/// outside that corner, or on one of its sides.
pub open spec fn is_not_inside_corner<P: Vertex>(apex: P, from: P, whole: P::Angle, r: P) -> bool {
    exists|part: P::Angle| #[trigger]
        is_swept_to(apex, from, r, part) && call_ensures(
            P::strictly_inside_angle,
            (part, whole),
            false,
        )
}

/// The answers of the vertex type put an edge of `a` into the corner of `b`
/// with the first side `from` and the angle `whole`: the direction to the
/// vertex before `a.1` or the direction to the vertex after it lies inside
/// the corner, away from both of its sides.
pub open spec fn enters_corner<P: Vertex>(a: (P, P, P), b: (P, P, P), from: P, whole: P::Angle) -> bool {
    is_inside_corner(b.1, from, whole, a.0) || is_inside_corner(b.1, from, whole, a.2)
}

/// The answers of the vertex type keep both edges of `a` out of the inside
/// of the corner of `b` with the first side `from` and the angle `whole`.
pub open spec fn stays_out_of_corner<P: Vertex>(
    a: (P, P, P),
    b: (P, P, P),
    from: P,
    whole: P::Angle,
) -> bool {
    is_not_inside_corner(b.1, from, whole, a.0) && is_not_inside_corner(b.1, from, whole, a.2)
}

/// The answers of the vertex type put an edge of `a` into the corner that
/// `b` has at its middle vertex.
pub open spec fn wedge_overlap<P: Vertex>(a: (P, P, P), b: (P, P, P)) -> bool {
    exists|from: P, to: P, whole: P::Angle| #[trigger]
        is_corner(b, from, to, whole) && enters_corner(a, b, from, whole)
}

/// The answers of the vertex type keep the edges of `a` out of the corner
/// that `b` has at its middle vertex.
pub open spec fn no_wedge_overlap<P: Vertex>(a: (P, P, P), b: (P, P, P)) -> bool {
    exists|from: P, to: P, whole: P::Angle| #[trigger]
        is_corner(b, from, to, whole) && stays_out_of_corner(a, b, from, whole)
}

/// For two vertex triples whose middle vertices are the same point: whether
/// an edge of `a` at that point runs into the corner that `b` has there,
/// the corner swept from the edge that leaves `b.1` to the edge that comes
/// to it. An edge that runs along a side of the corner does not run into it.
pub fn wedge_overlaps<P: Vertex>(a: (P, P, P), b: (P, P, P)) -> (inside: bool)
    ensures
        inside ==> wedge_overlap(a, b),
        !inside ==> no_wedge_overlap(a, b),
{
    let (a0, _, a2) = a;
    let (b0, b1, b2) = b;
    let from: P = b2.minus(b1);
    let to: P = b0.minus(b1);
    let th: P::Angle = angle(from, to);
    assert(is_corner(b, from, to, th));

    let th2: P::Angle = angle(from, a0.minus(b1));
    assert(is_swept_to(b1, from, a0, th2));
    if P::strictly_inside_angle(th2, th) {
        assert(is_inside_corner(b1, from, th, a0));
        return true;
    }
    assert(is_not_inside_corner(b1, from, th, a0));
    let th3: P::Angle = angle(from, a2.minus(b1));
    assert(is_swept_to(b1, from, a2, th3));
    let inside: bool = P::strictly_inside_angle(th3, th);
    proof {
        if inside {
            assert(is_inside_corner(b1, from, th, a2));
        } else {
            assert(is_not_inside_corner(b1, from, th, a2));
        }
    }
    inside
}

/// The answers of the vertex type make the two polygons overlap where the
/// vertex `a.1` of the one meets the vertex `b.1` of the other: the edges
/// that leave the two vertices cross; or one of the vertices lies inside the
/// edge that leaves the other, with a neighbour to the left of that edge; or
/// the two vertices are the same point and an edge of `a` runs into the
/// corner of `b`.
pub open spec fn collision<P: Vertex>(a: (P, P, P), b: (P, P, P)) -> bool {
    let edge_a = Segment { p: a.1, q: a.2 };
    let edge_b = Segment { p: b.1, q: b.2 };
    ||| crossing(edge_a, edge_b)
    ||| presses_into(edge_b, a)
    ||| presses_into(edge_a, b)
    ||| same(a.1, b.1) && wedge_overlap(a, b)
}

/// The answers of the vertex type rule out each of the ways in which the two
/// polygons could overlap where the vertex `a.1` meets the vertex `b.1`.
pub open spec fn no_collision<P: Vertex>(a: (P, P, P), b: (P, P, P)) -> bool {
    let edge_a = Segment { p: a.1, q: a.2 };
    let edge_b = Segment { p: b.1, q: b.2 };
    &&& not_crossing(edge_a, edge_b)
    &&& not_presses_into(edge_b, a)
    &&& not_presses_into(edge_a, b)
    &&& differ(a.1, b.1) || no_wedge_overlap(a, b)
}

/// Whether two polygons overlap where the middle vertex of the triple `a`,
/// taken from the one, meets the middle vertex of the triple `b`, taken from
/// the other. Edges that lie on each other without any of this are shared
/// boundary, no overlap.
pub fn collides<P: Vertex>(a: (P, P, P), b: (P, P, P)) -> (hit: bool)
    ensures
        hit ==> collision(a, b),
        !hit ==> no_collision(a, b),
{
    let (a0, a1, a2) = a;
    let (b0, b1, b2) = b;
    let edge_a = Segment { p: a1, q: a2 };
    let edge_b = Segment { p: b1, q: b2 };

    if edge_a.intersects(&edge_b) {
        return true;
    }
    if edge_b.contains_except_endpoints(a1) && (ccw(b1, b2, a2) || ccw(b1, b2, a0)) {
        return true;
    }
    if edge_a.contains_except_endpoints(b1) && (ccw(a1, a2, b2) || ccw(a1, a2, b0)) {
        return true;
    }
    if a1 == b1 {
        if wedge_overlaps(a, b) {
            return true;
        }
    }
    false
}

impl<P: Vertex> Polygon<P> {
    /// Whether the two polygons overlap where vertex `i` of the one meets
    /// vertex `j` of the other.
    pub fn intersection_aux(p1: &Self, p2: &Self, i: i32, j: i32) -> (hit: bool)
        requires
            p1@.len() > 0,
            p2@.len() > 0,
        ensures
            hit ==> collision(p1.spec_vertices_at(i as int), p2.spec_vertices_at(j as int)),
            !hit ==> no_collision(p1.spec_vertices_at(i as int), p2.spec_vertices_at(j as int)),
    {
        collides(p1.vertices_at(i), p2.vertices_at(j))
    }
}

} // verus!
