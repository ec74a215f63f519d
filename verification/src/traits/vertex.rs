use vstd::prelude::*;

verus! {

/// What the library asks of a vertex type: the elementary tests on points
/// and the arithmetic on points and lengths. Nothing is assumed of the
/// answers. Every function of the library that asks for them is proved for
/// every implementation, and its contract says how its result follows from
/// the answers it got.
pub trait Vertex: Copy + PartialEq {
    /// A length, or a shift along the x-axis.
    type Length: Copy;

    /// An angle.
    type Angle: Copy;

    /// The cross product of the directions of `self` and `other`, both seen
    /// from the origin.
    fn cross(self, other: Self) -> Self::Length;

    /// The dot product of the directions of `self` and `other`, both seen
    /// from the origin.
    fn dot(self, other: Self) -> Self::Length;

    /// Whether a product counts as zero.
    fn zero(x: Self::Length) -> bool;

    /// Whether a product is more than zero.
    fn positive(x: Self::Length) -> bool;

    /// Whether a product is more than what counts as zero.
    fn significant(x: Self::Length) -> bool;

    /// The angle swept from the direction of `a` to the direction of `b`,
    /// both seen from the origin.
    fn angle(a: Self, b: Self) -> Self::Angle;

    /// Whether the angle `part` is inside the angle `whole`, away from both
    /// of its ends.
    fn strictly_inside_angle(part: Self::Angle, whole: Self::Angle) -> bool;

    /// Whether `p` and `q` are at the same height.
    fn level(p: Self, q: Self) -> bool;

    /// Whether `p` is lower than `q`.
    fn below(p: Self, q: Self) -> bool;

    /// Whether the height of `r` is within the heights of `p` and `q`.
    fn within_heights(p: Self, q: Self, r: Self) -> bool;

    /// The point `self` as seen from `origin`.
    fn minus(self, origin: Self) -> Self;

    /// The point opposite to `self` across the origin.
    fn negate(self) -> Self;

    /// The angle of the turn about the origin that brings `q` onto the
    /// negative x-axis.
    fn axis_angle(q: Self) -> Self::Angle;

    /// The point `self` after a turn about the origin by the angle `t`.
    fn rot_ccw(self, t: Self::Angle) -> Self;

    /// The point `self` moved along the x-axis by `by`.
    fn shifted(self, by: Self::Length) -> Self;

    /// The distance between two points.
    fn dist(self, other: Self) -> Self::Length;

    /// The length of nothing.
    fn no_length() -> Self::Length;

    /// The sum of two lengths.
    fn sum(a: Self::Length, b: Self::Length) -> Self::Length;

    /// The difference of two shifts.
    fn gap(to: Self::Length, from: Self::Length) -> Self::Length;

    /// Whether a gap between two shifts is too small for the second to be
    /// tried after the first.
    fn negligible(gap: Self::Length) -> bool;

    /// Whether a length is too small to count as shared boundary.
    fn noise(length: Self::Length) -> bool;

    /// Whether `a` is more than `b`.
    fn longer(a: Self::Length, b: Self::Length) -> bool;

    /// The distance along the x-axis from the line through `p` and `q` to
    /// the point `v`.
    fn horizontal_distance(p: Self, q: Self, v: Self) -> Self::Length;

    /// The shift `x` taken the other way.
    fn reversed(x: Self::Length) -> Self::Length;

    /// Whether the shift `x` is inside the range from nothing to `max`, away
    /// from both.
    fn in_range(x: Self::Length, max: Self::Length) -> bool;
}

/// The equality of the vertex type said that `a` and `b` are the same point.
pub open spec fn same<P: Vertex>(a: P, b: P) -> bool {
    call_ensures(P::eq, (&a, &b), true)
}

/// The equality of the vertex type said that `a` and `b` are different
/// points.
pub open spec fn differ<P: Vertex>(a: P, b: P) -> bool {
    call_ensures(P::eq, (&a, &b), false)
}

} // verus!
