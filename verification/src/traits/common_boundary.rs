use vstd::prelude::*;

use crate::shapes::segment::Segment;
use crate::traits::vertex::Vertex;

verus! {

/// A shape that can tell what boundary it shares with another of its kind.
pub trait CommonBoundary<T> {
    fn common_boundary(&self, other: &Self) -> T;
}

/// The part that the segments `s` and `o` share, where `o_p` and `o_q` say
/// whether the end points of `o` are on `s`, and `s_p` and `s_q` whether
/// those of `s` are on `o`: the one that lies within the other, else the
/// stretch between an end point of `s` that is on `o` and an end point of `o`
/// that is on `s`.
pub open spec fn overlap_of<P>(
    s: Segment<P>,
    o: Segment<P>,
    o_p: bool,
    o_q: bool,
    s_p: bool,
    s_q: bool,
) -> Option<Segment<P>> {
    if o_p && o_q {
        Some(o)
    } else if s_p && s_q {
        Some(s)
    } else if o_p && s_p {
        Some(Segment { p: s.p, q: o.p })
    } else if o_p && s_q {
        Some(Segment { p: s.q, q: o.p })
    } else if o_q && s_p {
        Some(Segment { p: s.p, q: o.q })
    } else if o_q && s_q {
        Some(Segment { p: s.q, q: o.q })
    } else {
        None
    }
}

/// The four answers are answers of the vertex type to the four questions of
/// [`overlap_of`].
pub open spec fn end_points_answered<P: Vertex>(
    s: Segment<P>,
    o: Segment<P>,
    o_p: bool,
    o_q: bool,
    s_p: bool,
    s_q: bool,
) -> bool {
    &&& s.answers(o.p, o_p)
    &&& s.answers(o.q, o_q)
    &&& o.answers(s.p, s_p)
    &&& o.answers(s.q, s_q)
}

/// `shared` is the part that `s` and `o` share, by some answers of the vertex
/// type on where their end points are.
pub open spec fn is_overlap<P: Vertex>(
    s: Segment<P>,
    o: Segment<P>,
    shared: Option<Segment<P>>,
) -> bool {
    exists|o_p: bool, o_q: bool, s_p: bool, s_q: bool| #[trigger]
        end_points_answered(s, o, o_p, o_q, s_p, s_q) && shared == overlap_of(
            s,
            o,
            o_p,
            o_q,
            s_p,
            s_q,
        )
}

impl<P: Vertex> CommonBoundary<Option<Segment<P>>> for Segment<P> {
    /// The part of the two segments that lies on both, if there is one.
    fn common_boundary(&self, other: &Self) -> (shared: Option<Segment<P>>)
        ensures
            is_overlap(*self, *other, shared),
    {
        let o_p: bool = self.contains(other.p);
        let o_q: bool = self.contains(other.q);
        let s_p: bool = other.contains(self.p);
        let s_q: bool = other.contains(self.q);
        assert(end_points_answered(*self, *other, o_p, o_q, s_p, s_q));
        if o_p && o_q {
            Some(*other)
        } else if s_p && s_q {
            Some(*self)
        } else if o_p && s_p {
            Some(Segment { p: self.p, q: other.p })
        } else if o_p && s_q {
            Some(Segment { p: self.q, q: other.p })
        } else if o_q && s_p {
            Some(Segment { p: self.p, q: other.q })
        } else if o_q && s_q {
            Some(Segment { p: self.q, q: other.q })
        } else {
            None
        }
    }
}

} // verus!
