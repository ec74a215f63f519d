use vstd::prelude::*;

use crate::shapes::polygon::Polygon;

verus! {

/// Walks the vertices of a polygon once around, starting at vertex 0, each
/// together with the vertex before it and the vertex after it.
pub struct VertexIterator<'a, P> {
    polygon: &'a Polygon<P>,
    curr_idx: usize,
}

impl<'a, P: Copy> VertexIterator<'a, P> {
    /// The polygon whose vertices are walked.
    pub closed spec fn polygon(&self) -> &Polygon<P> {
        self.polygon
    }

    /// The number of vertex triples already handed out.
    pub closed spec fn position(&self) -> nat {
        self.curr_idx as nat
    }

    pub fn new(polygon: &'a Polygon<P>) -> (it: Self)
        ensures
            it.polygon() == polygon,
            it.position() == 0,
    {
        Self { polygon, curr_idx: 0 }
    }

    /// Hands out the next vertex triple, or `None` after the last one.
    pub fn next(&mut self) -> (item: Option<(P, P, P)>)
        ensures
            final(self).polygon() == old(self).polygon(),
            old(self).position() < old(self).polygon()@.len() ==> {
                &&& item == Some(old(self).polygon().spec_vertices_at(old(self).position() as int))
                &&& final(self).position() == old(self).position() + 1
            },
            old(self).position() >= old(self).polygon()@.len() ==> {
                &&& item is None
                &&& final(self).position() == old(self).position()
            },
    {
        let n: usize = self.polygon.len();
        if self.curr_idx >= n {
            return None;
        }
        let item = self.polygon.triple_at(self.curr_idx);
        self.curr_idx = self.curr_idx + 1;
        Some(item)
    }
}

} // verus!
