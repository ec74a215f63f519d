use vstd::arithmetic::div_mod::{lemma_fundamental_div_mod, lemma_fundamental_div_mod_converse};
use vstd::prelude::*;

use crate::iterators::alternate_iterator::{alternate_offset, AlternateIterator};
use crate::iterators::edge_iterator::{spec_edge, EdgeIterator};
use crate::iterators::vertex_iterator::VertexIterator;
use crate::shapes::segment::Segment;

verus! {

/// Whether every index within `n` places of `start`, on either side, is an `i32`.
pub open spec fn scan_fits(start: i32, n: nat) -> bool {
    i32::MIN <= start - n && start + n <= i32::MAX
}

/// The place on a ring of `n` vertices that the index `i` stands for.
pub open spec fn ring_index(i: int, n: nat) -> int
    recommends
        n > 0,
{
    i % (n as int)
}

/// A closed loop of vertices; indices wrap around in both directions.
pub struct Polygon<P> {
    pub vertices: Vec<P>,
}

impl<P: Copy> Clone for Polygon<P> {
    fn clone(&self) -> (copy: Self)
        ensures
            copy@ == self@,
    {
        let mut vertices: Vec<P> = Vec::new();
        let mut k: usize = 0;
        while k < self.vertices.len()
            invariant
                k <= self@.len(),
                vertices@ == self@.subrange(0, k as int),
            decreases self@.len() - k,
        {
            vertices.push(self.vertices[k]);
            assert(self@.subrange(0, k as int).push(self@[k as int]) =~= self@.subrange(
                0,
                k as int + 1,
            ));
            k += 1;
        }
        assert(self@.subrange(0, k as int) =~= self@);
        Self { vertices }
    }
}

impl<P> View for Polygon<P> {
    type V = Seq<P>;

    open spec fn view(&self) -> Seq<P> {
        self.vertices@
    }
}

/// Computes the place of index `i` on a ring of `n` vertices.
pub fn wrap_index(i: i32, n: usize) -> (place: usize)
    requires
        n > 0,
    ensures
        place == ring_index(i as int, n as nat),
        place < n,
{
    if i >= 0 {
        let place: usize = (i as usize) % n;
        place
    } else {
        let back: usize = ((-(i as i64)) as usize) % n;
        proof {
            let m = n as int;
            let d = -(i as int);
            lemma_fundamental_div_mod(d, m);
            if back == 0 {
                assert(i as int == (-(d / m)) * m + 0) by (nonlinear_arith)
                    requires
                        d == m * (d / m) + d % m,
                        d % m == 0,
                        d == -(i as int),
                ;
                lemma_fundamental_div_mod_converse(i as int, m, -(d / m), 0);
            } else {
                assert(i as int == (-(d / m) - 1) * m + (m - d % m)) by (nonlinear_arith)
                    requires
                        d == m * (d / m) + d % m,
                        d == -(i as int),
                ;
                lemma_fundamental_div_mod_converse(i as int, m, -(d / m) - 1, m - d % m);
            }
        }
        if back == 0 {
            0
        } else {
            n - back
        }
    }
}

impl<P: Copy> Polygon<P> {
    /// The vertex that the index `i` stands for, counting around the loop.
    pub open spec fn spec_vertex_at(&self, i: int) -> P
        recommends
            self@.len() > 0,
    {
        self@[ring_index(i, self@.len())]
    }

    /// The vertex before `i`, the vertex at `i` and the vertex after it.
    pub open spec fn spec_vertices_at(&self, i: int) -> (P, P, P)
        recommends
            self@.len() > 0,
    {
        (self.spec_vertex_at(i - 1), self.spec_vertex_at(i), self.spec_vertex_at(i + 1))
    }

    pub fn new(vertices: Vec<P>) -> (polygon: Self)
        ensures
            polygon.vertices == vertices,
    {
        Self { vertices }
    }

    /// An iterator over the edges, from vertex 0 once around.
    pub fn edges(&self) -> (it: EdgeIterator<'_, P>)
        ensures
            it.polygon() == self,
            it.position() == 0,
    {
        EdgeIterator::new(self)
    }

    /// An iterator over the vertices with their two neighbours, from vertex 0
    /// once around.
    pub fn vertices(&self) -> (it: VertexIterator<'_, P>)
        ensures
            it.polygon() == self,
            it.position() == 0,
    {
        VertexIterator::new(self)
    }

    pub fn len(&self) -> (n: usize)
        ensures
            n == self@.len(),
    {
        self.vertices.len()
    }

    pub fn is_empty(&self) -> (empty: bool)
        ensures
            empty == (self@.len() == 0),
    {
        self.vertices.len() == 0
    }

    pub fn vertex_at(&self, i: i32) -> (vertex: P)
        requires
            self@.len() > 0,
        ensures
            vertex == self.spec_vertex_at(i as int),
    {
        self.vertices[wrap_index(i, self.vertices.len())]
    }

    /// The edge that leaves the vertex at place `at`.
    pub fn edge_at(&self, at: usize) -> (edge: Segment<P>)
        requires
            at < self@.len(),
        ensures
            edge == spec_edge(self, at as int),
    {
        let n: usize = self.vertices.len();
        let after: usize = if at == n - 1 { 0 } else { at + 1 };
        proof {
            lemma_ring_neighbours(at as int, n as nat);
            vstd::arithmetic::div_mod::lemma_small_mod(at as nat, n as nat);
        }
        Segment { p: self.vertices[at], q: self.vertices[after] }
    }

    /// The vertex at place `at` with the vertex before it and the vertex
    /// after it.
    pub fn triple_at(&self, at: usize) -> (triple: (P, P, P))
        requires
            at < self@.len(),
        ensures
            triple == self.spec_vertices_at(at as int),
    {
        let n: usize = self.vertices.len();
        let before: usize = if at == 0 { n - 1 } else { at - 1 };
        let after: usize = if at == n - 1 { 0 } else { at + 1 };
        proof {
            lemma_ring_neighbours(at as int, n as nat);
            vstd::arithmetic::div_mod::lemma_small_mod(at as nat, n as nat);
        }
        (self.vertices[before], self.vertices[at], self.vertices[after])
    }

    pub fn vertices_at(&self, i: i32) -> (triple: (P, P, P))
        requires
            self@.len() > 0,
        ensures
            triple == self.spec_vertices_at(i as int),
    {
        let n: usize = self.vertices.len();
        let at: usize = wrap_index(i, n);
        let before: usize = if at == 0 { n - 1 } else { at - 1 };
        let after: usize = if at == n - 1 { 0 } else { at + 1 };
        proof {
            lemma_ring_neighbours(i as int, n as nat);
        }
        (self.vertices[before], self.vertices[at], self.vertices[after])
    }
}

impl<P: Copy> Polygon<P> {
    /// The two vertex triples that the overlap scan looks at in its step `(k, l)`:
    /// the `k`-th alternating offset from `start.0` on this polygon, the `l`-th
    /// from `start.1` on the other.
    pub open spec fn probe_pair(&self, other: &Self, start: (i32, i32), k: nat, l: nat) -> (
        (P, P, P),
        (P, P, P),
    ) {
        (
            self.spec_vertices_at(start.0 + alternate_offset(k)),
            other.spec_vertices_at(start.1 + alternate_offset(l)),
        )
    }

    /// `collide` answered `false` at every step of the scan before step
    /// `(k, l)`.
    pub open spec fn scan_missed_before<F: Fn((P, P, P), (P, P, P)) -> bool>(
        &self,
        other: &Self,
        start: (i32, i32),
        collide: F,
        k: nat,
        l: nat,
    ) -> bool {
        forall|k2: nat, l2: nat|
            k2 < self@.len() && l2 < other@.len() && (k2 < k || (k2 == k && l2 < l))
                ==> call_ensures(collide, #[trigger] self.probe_pair(other, start, k2, l2), false)
    }

    /// The scan stopped at step `(k, l)`: `collide` answered `true` there, `false`
    /// at every earlier step, and `found` is the index pair of that step.
    pub open spec fn scan_stopped_at<F: Fn((P, P, P), (P, P, P)) -> bool>(
        &self,
        other: &Self,
        start: (i32, i32),
        found: (i32, i32),
        collide: F,
        k: nat,
        l: nat,
    ) -> bool {
        &&& k < self@.len()
        &&& l < other@.len()
        &&& found.0 == start.0 + alternate_offset(k)
        &&& found.1 == start.1 + alternate_offset(l)
        &&& call_ensures(collide, self.probe_pair(other, start, k, l), true)
        &&& self.scan_missed_before(other, start, collide, k, l)
    }

    /// Looks for a pair of vertices, one of each polygon, at which `collide`
    /// holds of the two vertex triples, starting at the index pair `prev` and
    /// moving away from it in alternating order on both polygons: the offsets
    /// 0, +1, -1, +2, -2, ... on `other` for each such offset on `self`, as
    /// many offsets as the polygon has vertices. At the first pair found,
    /// `prev` becomes that pair and the answer is `true`.
    pub fn intersects_by<F: Fn((P, P, P), (P, P, P)) -> bool>(
        &self,
        other: &Self,
        prev: &mut (i32, i32),
        collide: F,
    ) -> (hit: bool)
        requires
            scan_fits(old(prev).0, self@.len()),
            scan_fits(old(prev).1, other@.len()),
            forall|i: int, j: int|
                call_requires(
                    collide,
                    (#[trigger] self.spec_vertices_at(i), #[trigger] other.spec_vertices_at(j)),
                ),
        ensures
            hit ==> exists|k: nat, l: nat|
                self.scan_stopped_at(other, *old(prev), *final(prev), collide, k, l),
            !hit ==> *final(prev) == *old(prev) && self.scan_missed_before(
                other,
                *old(prev),
                collide,
                self@.len(),
                0,
            ),
    {
        let n: usize = self.len();
        let m: usize = other.len();
        let ghost start = *prev;
        let mut outer = AlternateIterator::new();
        let mut k: usize = 0;
        while k < n
            invariant
                n == self@.len(),
                m == other@.len(),
                k <= n,
                outer.position() == k,
                *prev == start,
                start == *old(prev),
                scan_fits(start.0, n as nat),
                scan_fits(start.1, m as nat),
                forall|i: int, j: int|
                    call_requires(
                        collide,
                        (#[trigger] self.spec_vertices_at(i), #[trigger] other.spec_vertices_at(j)),
                    ),
                self.scan_missed_before(other, start, collide, k as nat, 0),
            decreases n - k,
        {
            let i: i32 = match outer.next() {
                Some(i) => i,
                None => {
                    return false;
                },
            };
            proof {
                crate::iterators::alternate_iterator::lemma_alternate_offsets_interval(
                    n as nat,
                    k as nat,
                    0,
                );
            }
            let mut inner = AlternateIterator::new();
            let mut l: usize = 0;
            while l < m
                invariant
                    n == self@.len(),
                    m == other@.len(),
                    k < n,
                    l <= m,
                    inner.position() == l,
                    i == alternate_offset(k as nat),
                    -(n as int) <= i <= n as int,
                    *prev == start,
                    start == *old(prev),
                    scan_fits(start.0, n as nat),
                    scan_fits(start.1, m as nat),
                    forall|i: int, j: int|
                        call_requires(
                            collide,
                            (
                                #[trigger] self.spec_vertices_at(i),
                                #[trigger] other.spec_vertices_at(j),
                            ),
                        ),
                    self.scan_missed_before(other, start, collide, k as nat, l as nat),
                decreases m - l,
            {
                let j: i32 = match inner.next() {
                    Some(j) => j,
                    None => {
                        return false;
                    },
                };
                proof {
                    crate::iterators::alternate_iterator::lemma_alternate_offsets_interval(
                        m as nat,
                        l as nat,
                        0,
                    );
                }
                let a = self.vertices_at(prev.0 + i);
                let b = other.vertices_at(prev.1 + j);
                assert((a, b) == self.probe_pair(other, start, k as nat, l as nat));
                if collide(a, b) {
                    prev.0 = prev.0 + i;
                    prev.1 = prev.1 + j;
                    assert(self.scan_stopped_at(other, start, *prev, collide, k as nat, l as nat));
                    return true;
                }
                l += 1;
            }
            k += 1;
        }
        false
    }
}

/// An index and its place on the ring name the same vertex triple.
pub proof fn lemma_vertices_at_wraps<P: Copy>(polygon: &Polygon<P>, i: int)
    requires
        polygon@.len() > 0,
    ensures
        0 <= ring_index(i, polygon@.len()) < polygon@.len(),
        polygon.spec_vertices_at(i) == polygon.spec_vertices_at(ring_index(i, polygon@.len())),
{
    let n = polygon@.len();
    let r = ring_index(i, n);
    lemma_ring_neighbours(i, n);
    lemma_ring_neighbours(r, n);
    vstd::arithmetic::div_mod::lemma_small_mod(r as nat, n);
}

/// The scan agrees with the exhaustive test of every vertex pair. Where the
/// answers of `collide` are those of a predicate `holds` on the two vertex
/// triples, and `hit` is what a scan from `start` returned (with `found` the
/// index pair it left behind), `hit` says whether `holds` is true of some
/// vertex of the one polygon and some vertex of the other, wherever the scan
/// started.
pub proof fn lemma_scan_agrees_with_exhaustive<P: Copy, F: Fn((P, P, P), (P, P, P)) -> bool>(
    a: &Polygon<P>,
    b: &Polygon<P>,
    start: (i32, i32),
    found: (i32, i32),
    collide: F,
    holds: spec_fn((P, P, P), (P, P, P)) -> bool,
    hit: bool,
)
    requires
        forall|x: (P, P, P), y: (P, P, P), r: bool|
            call_ensures(collide, (x, y), r) ==> r == holds(x, y),
        hit ==> exists|k: nat, l: nat| a.scan_stopped_at(b, start, found, collide, k, l),
        !hit ==> a.scan_missed_before(b, start, collide, a@.len(), 0),
    ensures
        hit <==> exists|i: int, j: int|
            0 <= i < a@.len() && 0 <= j < b@.len() && holds(
                #[trigger] a.spec_vertices_at(i),
                #[trigger] b.spec_vertices_at(j),
            ),
{
    let n = a@.len();
    let m = b@.len();
    if hit {
        let (k, l) = choose|k: nat, l: nat| a.scan_stopped_at(b, start, found, collide, k, l);
        let i = ring_index(start.0 + alternate_offset(k), n);
        let j = ring_index(start.1 + alternate_offset(l), m);
        lemma_vertices_at_wraps(a, start.0 + alternate_offset(k));
        lemma_vertices_at_wraps(b, start.1 + alternate_offset(l));
        assert(holds(a.spec_vertices_at(i), b.spec_vertices_at(j)));
    } else {
        assert forall|i: int, j: int| 0 <= i < n && 0 <= j < m implies !holds(
            #[trigger] a.spec_vertices_at(i),
            #[trigger] b.spec_vertices_at(j),
        ) by {
            let k = crate::iterators::alternate_iterator::lemma_alternate_offsets_cover(
                n,
                start.0 as int,
                i,
            );
            let l = crate::iterators::alternate_iterator::lemma_alternate_offsets_cover(
                m,
                start.1 as int,
                j,
            );
            lemma_vertices_at_wraps(a, start.0 + alternate_offset(k));
            lemma_vertices_at_wraps(b, start.1 + alternate_offset(l));
            assert(call_ensures(collide, a.probe_pair(b, start, k, l), false));
        }
    }
}

/// Stepping one index back or forth moves one place around the ring.
pub proof fn lemma_ring_neighbours(i: int, n: nat)
    requires
        n > 0,
    ensures
        0 <= ring_index(i, n) < n,
        ring_index(i - 1, n) == if ring_index(i, n) == 0 { n - 1 } else { ring_index(i, n) - 1 },
        ring_index(i + 1, n) == if ring_index(i, n) == n - 1 { 0 } else { ring_index(i, n) + 1 },
{
    let m = n as int;
    let r = i % m;
    let q = i / m;
    lemma_fundamental_div_mod(i, m);
    assert(0 <= r < m) by {
        vstd::arithmetic::div_mod::lemma_mod_bound(i, m);
    }
    if r == 0 {
        assert(i - 1 == (q - 1) * m + (m - 1)) by (nonlinear_arith)
            requires
                i == m * q + r,
                r == 0,
        ;
        lemma_fundamental_div_mod_converse(i - 1, m, q - 1, m - 1);
    } else {
        assert(i - 1 == q * m + (r - 1)) by (nonlinear_arith)
            requires
                i == m * q + r,
        ;
        lemma_fundamental_div_mod_converse(i - 1, m, q, r - 1);
    }
    if r == m - 1 {
        assert(i + 1 == (q + 1) * m + 0) by (nonlinear_arith)
            requires
                i == m * q + r,
                r == m - 1,
        ;
        lemma_fundamental_div_mod_converse(i + 1, m, q + 1, 0);
    } else {
        assert(i + 1 == q * m + (r + 1)) by (nonlinear_arith)
            requires
                i == m * q + r,
        ;
        lemma_fundamental_div_mod_converse(i + 1, m, q, r + 1);
    }
}

} // verus!
