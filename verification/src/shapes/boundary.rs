use vstd::prelude::*;

use crate::iterators::edge_iterator::spec_edge;
use crate::shapes::polygon::Polygon;
use crate::shapes::segment::Segment;
use crate::traits::common_boundary::{is_overlap, CommonBoundary};
use crate::traits::vertex::Vertex;

verus! {

/// `term` is what the edges `s` and `o` add to the shared boundary: the
/// vertex type's length of the part they share, or its length of nothing
/// where they share none.
pub open spec fn is_shared_length<P: Vertex>(s: Segment<P>, o: Segment<P>, term: P::Length) -> bool {
    exists|shared: Option<Segment<P>>| #[trigger]
        is_overlap(s, o, shared) && match shared {
            Some(part) => call_ensures(P::dist, (part.p, part.q), term),
            None => call_ensures(P::no_length, (), term),
        }
}

/// `totals` are the sums that the vertex type gave as `terms` were added one
/// after the other, starting from its length of nothing.
pub open spec fn is_running_total<P: Vertex>(terms: Seq<P::Length>, totals: Seq<P::Length>) -> bool {
    &&& totals.len() == terms.len() + 1
    &&& call_ensures(P::no_length, (), totals[0])
    &&& forall|t: int|
        0 <= t < terms.len() ==> call_ensures(P::sum, (totals[t], terms[t]), #[trigger] totals[t + 1])
}

/// `terms` holds what each pair of an edge of `a` and an edge of `b` adds to
/// the shared boundary: the pairs with the first edge of `a` first, and for
/// each edge of `a` the edges of `b` in their order.
pub open spec fn are_shared_lengths<P: Vertex>(
    a: &Polygon<P>,
    b: &Polygon<P>,
    terms: Seq<P::Length>,
) -> bool {
    &&& terms.len() == a@.len() * b@.len()
    &&& forall|i: int, j: int|
        0 <= i < a@.len() && 0 <= j < b@.len() ==> is_shared_length(
            spec_edge(a, i),
            spec_edge(b, j),
            #[trigger] terms[i * b@.len() + j],
        )
}

/// `total` is the length of the boundary that `a` and `b` share, as the
/// vertex type measured and added it edge pair by edge pair.
pub open spec fn is_common_boundary<P: Vertex>(a: &Polygon<P>, b: &Polygon<P>, total: P::Length) -> bool {
    exists|terms: Seq<P::Length>, totals: Seq<P::Length>|
        {
            &&& #[trigger] are_shared_lengths(a, b, terms)
            &&& #[trigger] is_running_total::<P>(terms, totals)
            &&& total == totals.last()
        }
}

/// `kept` is what becomes of the shared part `part`, whose length the vertex
/// type gave as `length`: it stays unless the vertex type found that length
/// to be noise.
pub open spec fn is_kept_part<P: Vertex>(
    part: Segment<P>,
    length: P::Length,
    kept: Option<Segment<P>>,
) -> bool {
    &&& call_ensures(P::dist, (part.p, part.q), length)
    &&& if kept is Some {
        kept == Some(part) && call_ensures(P::noise, (length,), false)
    } else {
        call_ensures(P::noise, (length,), true)
    }
}

/// `kept` is what becomes of what two edges share: nothing of nothing, and
/// of a shared part what [`is_kept_part`] says.
pub open spec fn is_kept<P: Vertex>(shared: Option<Segment<P>>, kept: Option<Segment<P>>) -> bool {
    match shared {
        Some(part) => exists|length: P::Length| is_kept_part(part, length, kept),
        None => kept is None,
    }
}

/// `kept` is what the edges `s` and `o` give to the list of shared segments:
/// the part they share unless the vertex type found its length to be noise.
pub open spec fn is_kept_overlap<P: Vertex>(
    s: Segment<P>,
    o: Segment<P>,
    kept: Option<Segment<P>>,
) -> bool {
    exists|shared: Option<Segment<P>>| #[trigger] is_overlap(s, o, shared) && is_kept(shared, kept)
}

/// The values of the entries that hold one, in their order.
pub open spec fn somes<T>(entries: Seq<Option<T>>) -> Seq<T>
    decreases entries.len(),
{
    if entries.len() == 0 {
        Seq::empty()
    } else {
        match entries.last() {
            Some(value) => somes(entries.drop_last()).push(value),
            None => somes(entries.drop_last()),
        }
    }
}

/// `kept` holds what each pair of an edge of `a` and an edge of `b` gives to
/// the list of shared segments, in the order of [`are_shared_lengths`].
pub open spec fn are_kept_overlaps<P: Vertex>(
    a: &Polygon<P>,
    b: &Polygon<P>,
    kept: Seq<Option<Segment<P>>>,
) -> bool {
    &&& kept.len() == a@.len() * b@.len()
    &&& forall|i: int, j: int|
        0 <= i < a@.len() && 0 <= j < b@.len() ==> is_kept_overlap(
            spec_edge(a, i),
            spec_edge(b, j),
            #[trigger] kept[i * b@.len() + j],
        )
}

/// `segments` are the parts of boundary that `a` and `b` share, edge pair by
/// edge pair, without those that the vertex type found to be noise.
pub open spec fn are_common_segments<P: Vertex>(
    a: &Polygon<P>,
    b: &Polygon<P>,
    segments: Seq<Segment<P>>,
) -> bool {
    exists|kept: Seq<Option<Segment<P>>>| #[trigger]
        are_kept_overlaps(a, b, kept) && segments == somes(kept)
}

/// A place in a table of `m` columns, from its row and column.
pub proof fn lemma_cell(i: int, j: int, i2: int, j2: int, m: int)
    requires
        0 <= j < m,
        0 <= j2 < m,
        0 <= i,
        0 <= i2,
    ensures
        0 <= i * m + j,
        i * m + j < (i + 1) * m,
        (i + 1) * m == i * m + m,
        i * m + j == i2 * m + j2 ==> i == i2 && j == j2,
        i < i2 ==> i * m + j < i2 * m + j2,
{
    assert(0 <= i * m + j && i * m + j < (i + 1) * m && (i + 1) * m == i * m + m) by (nonlinear_arith)
        requires
            0 <= j < m,
            0 <= i,
    ;
    assert(i < i2 ==> i * m + j < i2 * m + j2) by (nonlinear_arith)
        requires
            0 <= j < m,
            0 <= j2 < m,
            0 <= i,
            0 <= i2,
    ;
    assert(i2 < i ==> i2 * m + j2 < i * m + j) by (nonlinear_arith)
        requires
            0 <= j < m,
            0 <= j2 < m,
            0 <= i,
            0 <= i2,
    ;
}

impl<P: Vertex> Polygon<P> {
    /// The total length of the boundary that the two polygons share: the
    /// sum, over every edge of the one and every edge of the other, of the
    /// length of the part that the two edges share.
    pub fn common_boundary(&self, other: &Self) -> (total: P::Length)
        ensures
            is_common_boundary(self, other, total),
    {
        let n: usize = self.vertices.len();
        let m: usize = other.vertices.len();
        let mut total: P::Length = P::no_length();
        let ghost mut terms: Seq<P::Length> = Seq::empty();
        let ghost mut totals: Seq<P::Length> = seq![total];
        let mut i: usize = 0;
        while i < n
            invariant
                n == self@.len(),
                m == other@.len(),
                i <= n,
                terms.len() == i * m,
                is_running_total::<P>(terms, totals),
                total == totals.last(),
                forall|i2: int, j2: int|
                    0 <= i2 < i && 0 <= j2 < m ==> is_shared_length(
                        spec_edge(self, i2),
                        spec_edge(other, j2),
                        #[trigger] terms[i2 * m + j2],
                    ),
            decreases n - i,
        {
            let e1: Segment<P> = self.edge_at(i);
            let mut j: usize = 0;
            while j < m
                invariant
                    n == self@.len(),
                    m == other@.len(),
                    i < n,
                    j <= m,
                    e1 == spec_edge(self, i as int),
                    terms.len() == i * m + j,
                    is_running_total::<P>(terms, totals),
                    total == totals.last(),
                    forall|i2: int, j2: int|
                        0 <= i2 <= i && 0 <= j2 < m && (i2 < i || j2 < j) ==> is_shared_length(
                            spec_edge(self, i2),
                            spec_edge(other, j2),
                            #[trigger] terms[i2 * m + j2],
                        ),
                decreases m - j,
            {
                let e2: Segment<P> = other.edge_at(j);
                let shared: Option<Segment<P>> = e1.common_boundary(&e2);
                let term: P::Length = match shared {
                    Some(part) => part.length(),
                    None => P::no_length(),
                };
                assert(is_shared_length(e1, e2, term));
                let ghost old_terms = terms;
                let ghost old_totals = totals;
                total = P::sum(total, term);
                proof {
                    terms = terms.push(term);
                    totals = totals.push(total);
                    assert forall|t: int| 0 <= t < terms.len() implies call_ensures(
                        P::sum,
                        (totals[t], terms[t]),
                        #[trigger] totals[t + 1],
                    ) by {
                        if t < old_terms.len() {
                            assert(totals[t + 1] == old_totals[t + 1]);
                        }
                    }
                    assert forall|i2: int, j2: int|
                        0 <= i2 <= i && 0 <= j2 < m && (i2 < i || j2 < j + 1) implies is_shared_length(
                            spec_edge(self, i2),
                            spec_edge(other, j2),
                            #[trigger] terms[i2 * m + j2],
                        ) by {
                        lemma_cell(i2, j2, i as int, j as int, m as int);
                        if i2 == i && j2 == j {
                        } else {
                            assert(terms[i2 * m + j2] == old_terms[i2 * m + j2]);
                        }
                    }
                }
                j += 1;
            }
            assert((i + 1) * m == i * m + m) by (nonlinear_arith);
            i += 1;
        }
        proof {
            assert(are_shared_lengths(self, other, terms));
        }
        total
    }

    /// The parts of boundary that the two polygons share, one for every
    /// edge of the one and every edge of the other that share one, without
    /// those too short to count.
    pub fn common_boundary_segments(&self, other: &Self) -> (segments: Vec<Segment<P>>)
        ensures
            are_common_segments(self, other, segments@),
    {
        let n: usize = self.vertices.len();
        let m: usize = other.vertices.len();
        let mut segments: Vec<Segment<P>> = Vec::new();
        let ghost mut kept: Seq<Option<Segment<P>>> = Seq::empty();
        let mut i: usize = 0;
        while i < n
            invariant
                n == self@.len(),
                m == other@.len(),
                i <= n,
                kept.len() == i * m,
                segments@ == somes(kept),
                forall|i2: int, j2: int|
                    0 <= i2 < i && 0 <= j2 < m ==> is_kept_overlap(
                        spec_edge(self, i2),
                        spec_edge(other, j2),
                        #[trigger] kept[i2 * m + j2],
                    ),
            decreases n - i,
        {
            let e1: Segment<P> = self.edge_at(i);
            let mut j: usize = 0;
            while j < m
                invariant
                    n == self@.len(),
                    m == other@.len(),
                    i < n,
                    j <= m,
                    e1 == spec_edge(self, i as int),
                    kept.len() == i * m + j,
                    segments@ == somes(kept),
                    forall|i2: int, j2: int|
                        0 <= i2 <= i && 0 <= j2 < m && (i2 < i || j2 < j) ==> is_kept_overlap(
                            spec_edge(self, i2),
                            spec_edge(other, j2),
                            #[trigger] kept[i2 * m + j2],
                        ),
                decreases m - j,
            {
                let e2: Segment<P> = other.edge_at(j);
                let shared: Option<Segment<P>> = e1.common_boundary(&e2);
                let ghost old_kept = kept;
                let mut entry: Option<Segment<P>> = None;
                if let Some(part) = shared {
                    let length: P::Length = part.length();
                    if !P::noise(length) {
                        entry = Some(part);
                        segments.push(part);
                    }
                    assert(is_kept_part(part, length, entry));
                }
                proof {
                    assert(is_kept(shared, entry));
                    assert(is_kept_overlap(e1, e2, entry));
                    kept = kept.push(entry);
                    assert(kept.drop_last() =~= old_kept);
                    assert forall|i2: int, j2: int|
                        0 <= i2 <= i && 0 <= j2 < m && (i2 < i || j2 < j + 1) implies is_kept_overlap(
                            spec_edge(self, i2),
                            spec_edge(other, j2),
                            #[trigger] kept[i2 * m + j2],
                        ) by {
                        lemma_cell(i2, j2, i as int, j as int, m as int);
                        if i2 == i && j2 == j {
                        } else {
                            assert(kept[i2 * m + j2] == old_kept[i2 * m + j2]);
                        }
                    }
                }
                j += 1;
            }
            assert((i + 1) * m == i * m + m) by (nonlinear_arith);
            i += 1;
        }
        proof {
            assert(are_kept_overlaps(self, other, kept));
        }
        segments
    }
}

} // verus!
