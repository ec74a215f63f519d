use vstd::prelude::*;

use crate::shapes::polygon::{lemma_ring_neighbours, ring_index, Polygon};
use crate::traits::vertex::Vertex;

verus! {

/// `to` holds, place by place, the vertex type's `minus` of the point of
/// `from` there and `origin`.
pub open spec fn each_minus<P: Vertex>(from: Seq<P>, origin: P, to: Seq<P>) -> bool {
    &&& to.len() == from.len()
    &&& forall|k: int|
        0 <= k < from.len() ==> call_ensures(P::minus, (from[k], origin), #[trigger] to[k])
}

/// `to` holds, place by place, the vertex type's `negate` of the point of
/// `from` there.
pub open spec fn each_negated<P: Vertex>(from: Seq<P>, to: Seq<P>) -> bool {
    &&& to.len() == from.len()
    &&& forall|k: int| 0 <= k < from.len() ==> call_ensures(P::negate, (from[k],), #[trigger] to[k])
}

/// `to` holds, place by place, the vertex type's `rot_ccw` of the point of
/// `from` there and the angle `t`.
pub open spec fn each_turned<P: Vertex>(from: Seq<P>, t: P::Angle, to: Seq<P>) -> bool {
    &&& to.len() == from.len()
    &&& forall|k: int| 0 <= k < from.len() ==> call_ensures(P::rot_ccw, (from[k], t), #[trigger] to[k])
}

/// `to` holds, place by place, the vertex type's `shifted` of the point of
/// `from` there and `by`.
pub open spec fn each_shifted<P: Vertex>(from: Seq<P>, by: P::Length, to: Seq<P>) -> bool {
    &&& to.len() == from.len()
    &&& forall|k: int|
        0 <= k < from.len() ==> call_ensures(P::shifted, (from[k], by), #[trigger] to[k])
}

/// `next` is the placement of the vertices `prev` with edge `i` pegged, made
/// by way of `centred`, the angle `t` and `turned`: the vertices as seen from
/// vertex `i`, then turned by the angle that brings vertex `i + 1` onto the
/// negative x-axis, then as seen from that vertex.
pub open spec fn is_placement_by<P: Vertex>(
    prev: Seq<P>,
    i: int,
    next: Seq<P>,
    centred: Seq<P>,
    t: P::Angle,
    turned: Seq<P>,
) -> bool {
    let after = ring_index(i + 1, prev.len());
    &&& each_minus(prev, prev[i], centred)
    &&& call_ensures(P::axis_angle, (centred[after],), t)
    &&& each_turned(centred, t, turned)
    &&& each_minus(turned, turned[after], next)
}

/// `next` is the placement of the vertices `prev` with edge `i` pegged: the
/// vertices as seen from vertex `i`, then turned so that vertex `i + 1` comes
/// onto the negative x-axis, then as seen from that vertex. So vertex `i + 1`
/// comes to the origin and the edge lies along the x-axis.
pub open spec fn is_placement<P: Vertex>(prev: Seq<P>, i: int, next: Seq<P>) -> bool {
    exists|centred: Seq<P>, t: P::Angle, turned: Seq<P>|
        is_placement_by(prev, i, next, centred, t, turned)
}

/// Each placement is made from the one before it, the first from `start`.
pub open spec fn are_placements<P: Vertex>(start: Seq<P>, placements: Seq<Polygon<P>>) -> bool {
    forall|i: int|
        0 <= i < placements.len() ==> is_placement(
            if i == 0 {
                start
            } else {
                placements[i - 1]@
            },
            i,
            (#[trigger] placements[i])@,
        )
}

fn minus_all<P: Vertex>(vertices: &Vec<P>, origin: P) -> (moved: Vec<P>)
    ensures
        each_minus(vertices@, origin, moved@),
{
    let mut moved: Vec<P> = Vec::new();
    let mut k: usize = 0;
    while k < vertices.len()
        invariant
            k <= vertices@.len(),
            each_minus(vertices@.subrange(0, k as int), origin, moved@),
        decreases vertices@.len() - k,
    {
        moved.push(vertices[k].minus(origin));
        k += 1;
    }
    moved
}

fn turn_all<P: Vertex>(vertices: &Vec<P>, t: P::Angle) -> (moved: Vec<P>)
    ensures
        each_turned(vertices@, t, moved@),
{
    let mut moved: Vec<P> = Vec::new();
    let mut k: usize = 0;
    while k < vertices.len()
        invariant
            k <= vertices@.len(),
            each_turned(vertices@.subrange(0, k as int), t, moved@),
        decreases vertices@.len() - k,
    {
        moved.push(vertices[k].rot_ccw(t));
        k += 1;
    }
    moved
}

impl<P: Vertex> Polygon<P> {
    /// The polygon opposite to this one across the origin.
    pub fn negate(&self) -> (opposite: Self)
        ensures
            each_negated(self@, opposite@),
    {
        let mut vertices: Vec<P> = Vec::new();
        let mut k: usize = 0;
        while k < self.vertices.len()
            invariant
                k <= self@.len(),
                each_negated(self@.subrange(0, k as int), vertices@),
            decreases self@.len() - k,
        {
            vertices.push(self.vertices[k].negate());
            k += 1;
        }
        Self { vertices }
    }

    /// The polygon moved along the x-axis by `by`.
    pub fn shifted(&self, by: P::Length) -> (moved: Self)
        ensures
            each_shifted(self@, by, moved@),
    {
        let mut vertices: Vec<P> = Vec::new();
        let mut k: usize = 0;
        while k < self.vertices.len()
            invariant
                k <= self@.len(),
                each_shifted(self@.subrange(0, k as int), by, vertices@),
            decreases self@.len() - k,
        {
            vertices.push(self.vertices[k].shifted(by));
            k += 1;
        }
        Self { vertices }
    }

    /// The placements of the polygon, one for each edge, each made from the
    /// one before it. Where the arithmetic of the vertex type is that of the
    /// plane, placement `i` has vertex `i + 1` at the origin and vertex `i`
    /// on the positive x-axis.
    pub fn rotations(&self) -> (placements: Vec<Self>)
        ensures
            placements@.len() == self@.len(),
            forall|i: int| 0 <= i < placements@.len() ==> (#[trigger] placements@[i])@.len() == self@.len(),
            are_placements(self@, placements@),
    {
        let n: usize = self.vertices.len();
        let mut placements: Vec<Self> = Vec::new();
        let mut i: usize = 0;
        while i < n
            invariant
                i <= n,
                n == self@.len(),
                placements@.len() == i,
                forall|t: int| 0 <= t < i ==> (#[trigger] placements@[t])@.len() == n,
                are_placements(self@, placements@),
            decreases n - i,
        {
            let after: usize = if i == n - 1 { 0 } else { i + 1 };
            proof {
                lemma_ring_neighbours(i as int, n as nat);
                vstd::arithmetic::div_mod::lemma_small_mod(i as nat, n as nat);
            }
            let ghost before = placements@;
            let centred: Vec<P> = if i == 0 {
                minus_all(&self.vertices, self.vertices[i])
            } else {
                minus_all(&placements[i - 1].vertices, placements[i - 1].vertices[i])
            };
            let ang: P::Angle = P::axis_angle(centred[after]);
            let turned: Vec<P> = turn_all(&centred, ang);
            let placed: Vec<P> = minus_all(&turned, turned[after]);
            proof {
                let prev = if i == 0 { self@ } else { placements@[i - 1]@ };
                assert(is_placement_by(prev, i as int, placed@, centred@, ang, turned@));
            }
            placements.push(Self { vertices: placed });
            proof {
                assert forall|t: int| 0 <= t < placements@.len() implies is_placement(
                    if t == 0 {
                        self@
                    } else {
                        placements@[t - 1]@
                    },
                    t,
                    (#[trigger] placements@[t])@,
                ) by {
                    if t < i {
                        assert(placements@[t] == before[t]);
                        if t > 0 {
                            assert(placements@[t - 1] == before[t - 1]);
                        }
                    }
                }
            }
            i += 1;
        }
        placements
    }
}

} // verus!
