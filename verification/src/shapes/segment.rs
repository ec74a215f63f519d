use vstd::prelude::*;

use crate::traits::vertex::{differ, same, Vertex};
use crate::util::{orientation, oriented};

verus! {

/// An ordered pair of end points.
pub struct Segment<P> {
    pub p: P,
    pub q: P,
}

impl<P: Copy> Clone for Segment<P> {
    fn clone(&self) -> (copy: Self)
        ensures
            copy == *self,
    {
        Self { p: self.p, q: self.q }
    }
}

impl<P: Copy> Copy for Segment<P> {

}

/// `answer` is what the vertex type said on whether `r` lies ahead of
/// `from` on the way to `to`: whether the dot product of the directions from
/// `from` to `to` and from `from` to `r` is more than what counts as zero.
pub open spec fn is_ahead<P: Vertex>(from: P, to: P, r: P, answer: bool) -> bool {
    exists|along: P, out: P, product: P::Length|
        {
            &&& #[trigger] call_ensures(P::minus, (to, from), along)
            &&& #[trigger] call_ensures(P::minus, (r, from), out)
            &&& #[trigger] call_ensures(P::dot, (along, out), product)
            &&& call_ensures(P::significant, (product,), answer)
        }
}

/// Whether `r` lies ahead of `from` on the way to `to`.
pub fn ahead<P: Vertex>(from: P, to: P, r: P) -> (answer: bool)
    ensures
        is_ahead(from, to, r, answer),
{
    P::significant(to.minus(from).dot(r.minus(from)))
}

impl<P: Vertex> Segment<P> {
    /// The answers of the vertex type put `r` on the segment, away from its
    /// end points: on the line through them, ahead of `p` and ahead of `q`.
    pub open spec fn holds_inside(&self, r: P) -> bool {
        oriented(self.p, self.q, r, 0) && is_ahead(self.p, self.q, r, true) && is_ahead(
            self.q,
            self.p,
            r,
            true,
        )
    }

    /// The answers of the vertex type put `r` off the line through the
    /// segment, or not ahead of one of its end points.
    pub open spec fn holds_not_inside(&self, r: P) -> bool {
        ||| oriented(self.p, self.q, r, 1)
        ||| oriented(self.p, self.q, r, -1)
        ||| is_ahead(self.p, self.q, r, false)
        ||| is_ahead(self.q, self.p, r, false)
    }

    /// The answers of the vertex type put `r` on the segment, its end points
    /// included.
    pub open spec fn holds(&self, r: P) -> bool {
        same(self.p, r) || same(self.q, r) || self.holds_inside(r)
    }

    /// The answers of the vertex type put `r` off the segment.
    pub open spec fn holds_not(&self, r: P) -> bool {
        differ(self.p, r) && differ(self.q, r) && self.holds_not_inside(r)
    }

    /// `on` is an answer to the question whether `r` is on the segment.
    pub open spec fn answers(&self, r: P, on: bool) -> bool {
        if on {
            self.holds(r)
        } else {
            self.holds_not(r)
        }
    }

    /// The vertex type said that the end points are at the same height.
    pub open spec fn flat(&self) -> bool {
        call_ensures(P::level, (self.p, self.q), true)
    }

    /// The vertex type said that the end points are at different heights.
    pub open spec fn steep(&self) -> bool {
        call_ensures(P::level, (self.p, self.q), false)
    }

    /// The answers of the vertex type make the segment rise from `p` to `q`.
    pub open spec fn rises(&self) -> bool {
        self.steep() && call_ensures(P::below, (self.p, self.q), true)
    }

    /// The answers of the vertex type keep the segment from rising from `p`
    /// to `q`.
    pub open spec fn rises_not(&self) -> bool {
        self.flat() || call_ensures(P::below, (self.p, self.q), false)
    }

    /// The answers of the vertex type make the segment fall from `p` to `q`.
    pub open spec fn falls(&self) -> bool {
        self.steep() && call_ensures(P::below, (self.q, self.p), true)
    }

    /// The answers of the vertex type keep the segment from falling from `p`
    /// to `q`.
    pub open spec fn falls_not(&self) -> bool {
        self.flat() || call_ensures(P::below, (self.q, self.p), false)
    }

    /// Whether the end points are at the same height.
    pub fn is_horizontal(&self) -> (level: bool)
        ensures
            level ==> self.flat(),
            !level ==> self.steep(),
    {
        P::level(self.p, self.q)
    }

    /// Whether the segment rises from `p` to `q`.
    pub fn face_right(&self) -> (rising: bool)
        ensures
            rising ==> self.rises(),
            !rising ==> self.rises_not(),
    {
        !self.is_horizontal() && P::below(self.p, self.q)
    }

    /// Whether the segment falls from `p` to `q`.
    pub fn face_left(&self) -> (falling: bool)
        ensures
            falling ==> self.falls(),
            !falling ==> self.falls_not(),
    {
        !self.is_horizontal() && P::below(self.q, self.p)
    }

    /// The distance along the x-axis from the line through the segment to
    /// the point `v`.
    pub fn horizontal_distance(&self, v: P) -> (distance: P::Length)
        ensures
            call_ensures(P::horizontal_distance, (self.p, self.q, v), distance),
    {
        P::horizontal_distance(self.p, self.q, v)
    }

    /// The distance between the end points.
    pub fn length(&self) -> (length: P::Length)
        ensures
            call_ensures(P::dist, (self.p, self.q), length),
    {
        self.p.dist(self.q)
    }

    /// Whether `r` lies on the segment and is neither of its end points.
    pub fn contains_except_endpoints(&self, r: P) -> (inside: bool)
        ensures
            inside ==> self.holds_inside(r),
            !inside ==> self.holds_not_inside(r),
    {
        if orientation(self.p, self.q, r) == 0 {
            ahead(self.p, self.q, r) && ahead(self.q, self.p, r)
        } else {
            false
        }
    }

    /// Whether `r` lies on the segment, its end points included.
    pub fn contains(&self, r: P) -> (on: bool)
        ensures
            self.answers(r, on),
    {
        self.p == r || self.q == r || self.contains_except_endpoints(r)
    }
}

} // verus!
