use vstd::prelude::*;

use crate::shapes::collision::collides;
use crate::shapes::polygon::{scan_fits, Polygon};
use crate::shapes::segment::Segment;
use crate::traits::vertex::Vertex;
use crate::util::{orientation, oriented};

verus! {

/// A shape that can tell whether it crosses another of its kind.
pub trait Intersects {
    fn intersects(&self, other: &Self) -> bool;
}

/// A shape that can look for an overlap with another of its kind near the
/// place where the last search stopped.
pub trait IntersectsHeuristic {
    /// The states of the search from which it may be run on the two shapes.
    spec fn admits(&self, other: &Self, prev: (i32, i32)) -> bool;

    /// Whether the two shapes overlap. `prev` is where the search starts,
    /// and where it found an overlap, if it found one.
    fn intersects(&self, other: &Self, prev: &mut (i32, i32)) -> bool
        requires
            self.admits(other, *old(prev)),
    ;
}

/// The vertex type put the end points of `t` on opposite sides of the line
/// through `s`: one to the left, one to the right.
pub open spec fn straddles<P: Vertex>(s: Segment<P>, t: Segment<P>) -> bool {
    ||| oriented(s.p, s.q, t.p, 1) && oriented(s.p, s.q, t.q, -1)
    ||| oriented(s.p, s.q, t.p, -1) && oriented(s.p, s.q, t.q, 1)
}

/// The vertex type did not put the end points of `t` on opposite sides of
/// the line through `s`: one of them on the line, or both on one side.
pub open spec fn keeps_to_a_side<P: Vertex>(s: Segment<P>, t: Segment<P>) -> bool {
    ||| oriented(s.p, s.q, t.p, 0)
    ||| oriented(s.p, s.q, t.q, 0)
    ||| oriented(s.p, s.q, t.p, 1) && oriented(s.p, s.q, t.q, 1)
    ||| oriented(s.p, s.q, t.p, -1) && oriented(s.p, s.q, t.q, -1)
}

/// The answers of the vertex type make the two segments cross.
pub open spec fn crossing<P: Vertex>(s: Segment<P>, t: Segment<P>) -> bool {
    straddles(s, t) && straddles(t, s)
}

/// The answers of the vertex type keep the two segments from crossing.
pub open spec fn not_crossing<P: Vertex>(s: Segment<P>, t: Segment<P>) -> bool {
    keeps_to_a_side(s, t) || keeps_to_a_side(t, s)
}

/// The product of two signs is negative where one is 1 and the other -1,
/// and only there.
pub proof fn lemma_sign_product(s1: int, s2: int)
    requires
        -1 <= s1 <= 1,
        -1 <= s2 <= 1,
    ensures
        -1 <= s1 * s2 <= 1,
        s1 * s2 < 0 <==> (s1 == 1 && s2 == -1) || (s1 == -1 && s2 == 1),
{
    assert(-1 <= s1 * s2 <= 1 && (s1 * s2 < 0 <==> (s1 == 1 && s2 == -1) || (s1 == -1 && s2 == 1)))
        by (nonlinear_arith)
        requires
            -1 <= s1 <= 1,
            -1 <= s2 <= 1,
    ;
}

impl<P: Vertex> Intersects for Segment<P> {
    /// Whether the two segments properly cross: the end points of each lie
    /// on opposite sides of the line through the other. Segments that only
    /// touch, or that lie on one line, do not cross.
    fn intersects(&self, other: &Self) -> (crosses: bool)
        ensures
            crosses ==> crossing(*self, *other),
            !crosses ==> not_crossing(*self, *other),
    {
        let o1: i8 = orientation(self.p, self.q, other.p);
        let o2: i8 = orientation(self.p, self.q, other.q);

        proof {
            lemma_sign_product(o1 as int, o2 as int);
        }
        if o1 * o2 >= 0 {
            return false;
        }
        let o3: i8 = orientation(other.p, other.q, self.p);
        let o4: i8 = orientation(other.p, other.q, self.q);
        proof {
            lemma_sign_product(o3 as int, o4 as int);
        }
        o3 * o4 < 0
    }
}

impl<P: Vertex> IntersectsHeuristic for Polygon<P> {
    open spec fn admits(&self, other: &Self, prev: (i32, i32)) -> bool {
        scan_fits(prev.0, self@.len()) && scan_fits(prev.1, other@.len())
    }

    /// The scan of [`Polygon::intersects_by`] with [`collides`] as its test.
    fn intersects(&self, other: &Self, prev: &mut (i32, i32)) -> (hit: bool)
        ensures
            hit ==> exists|k: nat, l: nat|
                self.scan_stopped_at(other, *old(prev), *final(prev), collides::<P>, k, l),
            !hit ==> *final(prev) == *old(prev) && self.scan_missed_before(
                other,
                *old(prev),
                collides::<P>,
                self@.len(),
                0,
            ),
    {
        self.intersects_by(other, prev, collides::<P>)
    }
}

} // verus!
