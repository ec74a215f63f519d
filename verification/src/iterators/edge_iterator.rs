use vstd::prelude::*;

use crate::shapes::polygon::Polygon;
use crate::shapes::segment::Segment;

verus! {

/// The edge that leaves vertex `i` of `polygon`: from that vertex to the next
/// one around the loop.
pub open spec fn spec_edge<P: Copy>(polygon: &Polygon<P>, i: int) -> Segment<P>
    recommends
        0 <= i < polygon@.len(),
{
    Segment { p: polygon@[i], q: polygon.spec_vertex_at(i + 1) }
}

/// Walks the edges of a polygon once around, starting at vertex 0.
pub struct EdgeIterator<'a, P> {
    polygon: &'a Polygon<P>,
    curr_idx: usize,
}

impl<'a, P: Copy> EdgeIterator<'a, P> {
    /// The polygon whose edges are walked.
    pub closed spec fn polygon(&self) -> &Polygon<P> {
        self.polygon
    }

    /// The number of edges already handed out.
    pub closed spec fn position(&self) -> nat {
        self.curr_idx as nat
    }

    pub fn new(polygon: &'a Polygon<P>) -> (it: Self)
        ensures
            it.polygon() == polygon,
            it.position() == 0,
    {
        Self { polygon, curr_idx: 0 }
    }

    /// Hands out the next edge, or `None` after the last one.
    pub fn next(&mut self) -> (item: Option<Segment<P>>)
        ensures
            final(self).polygon() == old(self).polygon(),
            old(self).position() < old(self).polygon()@.len() ==> {
                &&& item == Some(spec_edge(old(self).polygon(), old(self).position() as int))
                &&& final(self).position() == old(self).position() + 1
            },
            old(self).position() >= old(self).polygon()@.len() ==> {
                &&& item is None
                &&& final(self).position() == old(self).position()
            },
    {
        let n: usize = self.polygon.len();
        if self.curr_idx >= n {
            return None;
        }
        let item = self.polygon.edge_at(self.curr_idx);
        self.curr_idx = self.curr_idx + 1;
        Some(item)
    }
}

} // verus!
