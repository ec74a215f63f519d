use vstd::prelude::*;
use vstd::std_specs::cmp::PartialEqSpec;

use crate::shapes::segment::Segment;
use crate::util::equal_said;

verus! {

/// What a [`PolylineSet`] holds: its points, in the order in which they came,
/// and for each point the places of the points it is linked to, in the order
/// in which the links came.
pub struct LinkedPoints<T> {
    pub points: Seq<T>,
    pub links: Seq<Seq<int>>,
}

impl<T> LinkedPoints<T> {
    /// Every point has at most two links, each to a point of the set.
    pub open spec fn wf(self) -> bool {
        &&& self.links.len() == self.points.len()
        &&& forall|i: int|
            0 <= i < self.links.len() ==> (#[trigger] self.links[i]).len() <= 2
        &&& forall|i: int, k: int|
            0 <= i < self.links.len() && 0 <= k < self.links[i].len() ==> 0
                <= #[trigger] self.links[i][k] < self.points.len()
    }

    /// The set with `p` as a new last point without links, where `at` is the
    /// place after the last point; the set itself where `at` is a place in it.
    pub open spec fn grown(self, p: T, at: int) -> Self {
        if at < self.points.len() {
            self
        } else {
            LinkedPoints { points: self.points.push(p), links: self.links.push(Seq::empty()) }
        }
    }

    /// Whether the points at `i` and `j` have room for a link between them:
    /// one free place each, or two where `i` and `j` are the same point.
    pub open spec fn has_room(self, i: int, j: int) -> bool {
        if i == j {
            self.links[i].len() == 0
        } else {
            self.links[i].len() < 2 && self.links[j].len() < 2
        }
    }

    /// The set with a link from `i` to `j` and one from `j` to `i`.
    pub open spec fn linked(self, i: int, j: int) -> Self {
        let first = self.links.update(i, self.links[i].push(j));
        LinkedPoints { points: self.points, links: first.update(j, first[j].push(i)) }
    }

    /// The set after a segment from `p` to `q` has been put, where `p` was
    /// found or placed at `i` and `q` at `j`.
    pub open spec fn put_at(self, p: T, q: T, i: int, j: int) -> Self {
        self.grown(p, i).grown(q, j).linked(i, j)
    }
}

/// `i` is the first place in `points` that holds a point equal to `p`.
pub open spec fn is_first_equal<T: PartialEq>(points: Seq<T>, p: T, i: int) -> bool {
    &&& 0 <= i < points.len()
    &&& points[i].eq_spec(&p)
    &&& forall|k: int| 0 <= k < i ==> !(#[trigger] points[k]).eq_spec(&p)
}

/// The first place in `points` that holds a point equal to `p`, or the place
/// after the last point if there is none.
pub open spec fn place_of<T: PartialEq>(points: Seq<T>, p: T) -> int {
    if exists|i: int| is_first_equal(points, p, i) {
        choose|i: int| is_first_equal(points, p, i)
    } else {
        points.len() as int
    }
}

/// The set after a segment from `p` to `q` has been put, or `None` where one
/// of the two points has no room for another link.
pub open spec fn put_result<T: PartialEq>(set: LinkedPoints<T>, p: T, q: T) -> Option<
    LinkedPoints<T>,
> {
    let i = place_of(set.points, p);
    let j = place_of(set.grown(p, i).points, q);
    if set.grown(p, i).grown(q, j).has_room(i, j) {
        Some(set.put_at(p, q, i, j))
    } else {
        None
    }
}

/// The set that the segments make when they are put one after the other, or
/// `None` where some point is an end of more than two of them.
pub open spec fn built<T: PartialEq>(segments: Seq<Segment<T>>) -> Option<LinkedPoints<T>>
    decreases segments.len(),
{
    if segments.len() == 0 {
        Some(LinkedPoints { points: Seq::empty(), links: Seq::empty() })
    } else {
        match built(segments.drop_last()) {
            Some(set) => put_result(set, segments.last().p, segments.last().q),
            None => None,
        }
    }
}

/// `at` is the place that the equality of `T` gave the point `p` among
/// `points`: the first place whose point it found equal to `p`, or the place
/// after the last point where it found none.
pub open spec fn is_place_said<T: PartialEq>(points: Seq<T>, p: T, at: int) -> bool {
    &&& 0 <= at <= points.len()
    &&& at < points.len() ==> equal_said(points[at], p, true)
    &&& forall|k: int| 0 <= k < at ==> equal_said(#[trigger] points[k], p, false)
}

/// `after` is what the set `before` became when a segment from `p` to `q`
/// was put, with the point `p` at the place `i` and the point `q` at the
/// place `j`: the two linked where both had room, and the set as it was,
/// with `added` false, where one had not.
pub open spec fn is_put_at<T: PartialEq>(
    before: LinkedPoints<T>,
    p: T,
    q: T,
    i: int,
    j: int,
    added: bool,
    after: LinkedPoints<T>,
) -> bool {
    &&& is_place_said(before.points, p, i)
    &&& is_place_said(before.grown(p, i).points, q, j)
    &&& added == before.grown(p, i).grown(q, j).has_room(i, j)
    &&& after == if added {
        before.put_at(p, q, i, j)
    } else {
        before
    }
}

/// `after` is what the set `before` became when a segment from `p` to `q`
/// was put, each point at the place that the equality of `T` gave it.
pub open spec fn is_put<T: PartialEq>(
    before: LinkedPoints<T>,
    p: T,
    q: T,
    added: bool,
    after: LinkedPoints<T>,
) -> bool {
    exists|i: int, j: int| is_put_at(before, p, q, i, j, added, after)
}

/// Wherever the equality of `T` places the point `p` and the point `q`,
/// the two have room for a link between them.
pub open spec fn room_wherever_placed<T: PartialEq>(set: LinkedPoints<T>, p: T, q: T) -> bool {
    forall|i: int, j: int|
        is_place_said(set.points, p, i) && #[trigger] is_place_said(set.grown(p, i).points, q, j)
            ==> set.grown(p, i).grown(q, j).has_room(i, j)
}

/// `room` says whether the point `p` and the point `q` have room for a link
/// between them, each at the place that the equality of `T` gave it.
pub open spec fn is_room_said<T: PartialEq>(set: LinkedPoints<T>, p: T, q: T, room: bool) -> bool {
    exists|i: int, j: int|
        is_place_said(set.points, p, i) && #[trigger] is_place_said(set.grown(p, i).points, q, j)
            && room == set.grown(p, i).grown(q, j).has_room(i, j)
}

/// Every segment can be put in its turn, starting from `set`, wherever the
/// equality of `T` places its end points.
pub open spec fn all_fit<T: PartialEq>(set: LinkedPoints<T>, segments: Seq<Segment<T>>) -> bool
    decreases segments.len(),
{
    if segments.len() == 0 {
        true
    } else {
        let s = segments.first();
        &&& room_wherever_placed(set, s.p, s.q)
        &&& forall|after: LinkedPoints<T>| #[trigger]
            is_put(set, s.p, s.q, true, after) ==> all_fit(after, segments.drop_first())
    }
}

/// `states` are the sets that the segments made as they were put one after
/// the other into an empty set, each with room.
pub open spec fn are_puts<T: PartialEq>(
    segments: Seq<Segment<T>>,
    states: Seq<LinkedPoints<T>>,
) -> bool {
    &&& states.len() == segments.len() + 1
    &&& states[0] == (LinkedPoints::<T> { points: Seq::empty(), links: Seq::empty() })
    &&& forall|t: int|
        0 <= t < segments.len() ==> is_put(
            states[t],
            segments[t].p,
            segments[t].q,
            true,
            #[trigger] states[t + 1],
        )
}

/// `set` is what the segments made as they were put one after the other
/// into an empty set.
pub open spec fn is_built<T: PartialEq>(segments: Seq<Segment<T>>, set: LinkedPoints<T>) -> bool {
    exists|states: Seq<LinkedPoints<T>>| #[trigger] are_puts(segments, states) && states.last() == set
}

/// The first `k` segments were put, and the segment at place `k` found no
/// room.
pub open spec fn is_refused_at<T: PartialEq>(segments: Seq<Segment<T>>, k: int) -> bool {
    &&& 0 <= k < segments.len()
    &&& exists|states: Seq<LinkedPoints<T>>| #[trigger]
        are_puts(segments.subrange(0, k), states) && is_put(
            states.last(),
            segments[k].p,
            segments[k].q,
            false,
            states.last(),
        )
}

/// Some segment found no room when the segments were put one after the
/// other into an empty set.
pub open spec fn is_refused<T: PartialEq>(segments: Seq<Segment<T>>) -> bool {
    exists|k: int| is_refused_at(segments, k)
}

/// An equality that is a function of its two sides gives a point one place
/// only.
pub proof fn lemma_place_said_once<T: PartialEq>(points: Seq<T>, p: T, i: int, j: int)
    requires
        T::obeys_eq_spec(),
        is_place_said(points, p, i),
        is_place_said(points, p, j),
    ensures
        i == j,
{
    if i < j {
        assert(equal_said(points[i], p, false));
        assert(equal_said(points[i], p, true));
    }
    if j < i {
        assert(equal_said(points[j], p, false));
        assert(equal_said(points[j], p, true));
    }
}

/// With an equality that is a function of its two sides, room found once is
/// room wherever the two points are placed.
pub proof fn lemma_room_said_is_room<T: PartialEq>(set: LinkedPoints<T>, p: T, q: T)
    requires
        T::obeys_eq_spec(),
        is_room_said(set, p, q, true),
    ensures
        room_wherever_placed(set, p, q),
{
    let (i, j) = choose|i: int, j: int|
        is_place_said(set.points, p, i) && #[trigger] is_place_said(set.grown(p, i).points, q, j)
            && set.grown(p, i).grown(q, j).has_room(i, j);
    assert forall|i2: int, j2: int|
        is_place_said(set.points, p, i2) && #[trigger] is_place_said(
            set.grown(p, i2).points,
            q,
            j2,
        ) implies set.grown(p, i2).grown(q, j2).has_room(i2, j2) by {
        lemma_place_said_once(set.points, p, i, i2);
        lemma_place_said_once(set.grown(p, i).points, q, j, j2);
    }
}

/// One more segment put with room adds one state.
pub proof fn lemma_puts_grow<T: PartialEq>(
    segments: Seq<Segment<T>>,
    states: Seq<LinkedPoints<T>>,
    s: Segment<T>,
    after: LinkedPoints<T>,
)
    requires
        are_puts(segments, states),
        is_put(states.last(), s.p, s.q, true, after),
    ensures
        are_puts(segments.push(s), states.push(after)),
{
    let more = segments.push(s);
    let next = states.push(after);
    assert forall|t: int| 0 <= t < more.len() implies is_put(
        next[t],
        more[t].p,
        more[t].q,
        true,
        #[trigger] next[t + 1],
    ) by {
        if t < segments.len() {
            assert(next[t] == states[t]);
            assert(next[t + 1] == states[t + 1]);
            assert(more[t] == segments[t]);
        }
    }
}

/// At most one place is the first that holds a point equal to `p`.
pub proof fn lemma_first_equal_unique<T: PartialEq>(points: Seq<T>, p: T, i: int, j: int)
    requires
        is_first_equal(points, p, i),
        is_first_equal(points, p, j),
    ensures
        i == j,
{
    if i < j {
        assert(!points[i].eq_spec(&p));
    }
    if j < i {
        assert(!points[j].eq_spec(&p));
    }
}

/// Whether the point at `v` stands in a chain before chain `c`, or among the
/// first `t` points of chain `c`.
pub open spec fn walked_before(chains: Seq<Seq<int>>, c: int, t: int, v: int) -> bool {
    exists|c2: int, t2: int|
        0 <= c2 < chains.len() && 0 <= t2 < chains[c2].len() && (c2 < c || (c2 == c && t2 < t))
            && #[trigger] chains[c2][t2] == v
}

/// The first of the given links that leads to a point which `taken` does not
/// hold.
pub open spec fn first_free_link(links: Seq<int>, taken: spec_fn(int) -> bool) -> Option<int> {
    if links.len() >= 1 && !taken(links[0]) {
        Some(links[0])
    } else if links.len() >= 2 && !taken(links[1]) {
        Some(links[1])
    } else {
        None
    }
}

/// The point that follows the point at position `t` of chain `c`: the first
/// point linked to it that no chain has reached by then.
pub open spec fn successor(links: Seq<Seq<int>>, chains: Seq<Seq<int>>, c: int, t: int) -> Option<
    int,
> {
    first_free_link(links[chains[c][t]], |v: int| walked_before(chains, c, t + 1, v))
}

/// Chain `c` starts at the first point with a free place that no earlier
/// chain has reached, goes on from each point to its successor, and ends
/// where there is none.
pub open spec fn is_chain(links: Seq<Seq<int>>, chains: Seq<Seq<int>>, c: int) -> bool {
    let chain = chains[c];
    &&& chain.len() >= 1
    &&& forall|t: int| 0 <= t < chain.len() ==> 0 <= #[trigger] chain[t] < links.len()
    &&& links[chain[0]].len() < 2
    &&& !walked_before(chains, c, 0, chain[0])
    &&& forall|v: int|
        0 <= v < chain[0] && (#[trigger] links[v]).len() < 2 ==> walked_before(chains, c, 0, v)
    &&& forall|t: int|
        0 <= t < chain.len() - 1 ==> #[trigger] successor(links, chains, c, t) == Some(
            chain[t + 1],
        )
    &&& successor(links, chains, c, chain.len() - 1) is None
}

/// The chains are those of the points with the given links: each is a chain
/// in the sense of [`is_chain`], and every point with a free place stands in
/// one of them.
pub open spec fn are_chains(links: Seq<Seq<int>>, chains: Seq<Seq<int>>) -> bool {
    &&& forall|c: int| 0 <= c < chains.len() ==> #[trigger] is_chain(links, chains, c)
    &&& forall|v: int|
        0 <= v < links.len() && (#[trigger] links[v]).len() < 2 ==> walked_before(
            chains,
            chains.len() as int,
            0,
            v,
        )
}

/// The polylines hold the points that the chains name, in the same order.
pub open spec fn traced<T>(points: Seq<T>, chains: Seq<Seq<int>>, polylines: Seq<Vec<T>>) -> bool {
    &&& polylines.len() == chains.len()
    &&& forall|c: int| 0 <= c < chains.len() ==> (#[trigger] polylines[c])@.len() == chains[c].len()
    &&& forall|c: int, t: int|
        0 <= c < chains.len() && 0 <= t < chains[c].len() ==> polylines[c]@[t]
            == points[#[trigger] chains[c][t]]
}

/// The polylines are those of the set: the points of its chains.
pub open spec fn are_polylines<T>(set: LinkedPoints<T>, polylines: Seq<Vec<T>>) -> bool {
    exists|chains: Seq<Seq<int>>|
        are_chains(set.links, chains) && #[trigger] traced(set.points, chains, polylines)
}

/// In a chain, each point is linked to the point that follows it.
pub proof fn lemma_chain_follows_links(links: Seq<Seq<int>>, chains: Seq<Seq<int>>, c: int, t: int)
    requires
        are_chains(links, chains),
        0 <= c < chains.len(),
        0 <= t < chains[c].len() - 1,
    ensures
        links[chains[c][t]].contains(chains[c][t + 1]),
{
    assert(is_chain(links, chains, c));
    assert(successor(links, chains, c, t) == Some(chains[c][t + 1]));
    let from = links[chains[c][t]];
    if from.len() >= 1 && from[0] == chains[c][t + 1] {
        assert(from.contains(from[0]));
    } else {
        assert(from.contains(from[1]));
    }
}

/// No point stands at two positions of the chains.
pub proof fn lemma_chains_hold_no_point_twice(
    links: Seq<Seq<int>>,
    chains: Seq<Seq<int>>,
    c: int,
    t: int,
    c2: int,
    t2: int,
)
    requires
        are_chains(links, chains),
        0 <= c < chains.len(),
        0 <= t < chains[c].len(),
        0 <= c2 < chains.len(),
        0 <= t2 < chains[c2].len(),
        chains[c][t] == chains[c2][t2],
    ensures
        c == c2,
        t == t2,
{
    if c2 < c || (c2 == c && t2 < t) {
        lemma_not_walked_before(links, chains, c, t);
        assert(chains[c2][t2] == chains[c][t]);
    } else if c < c2 || (c == c2 && t < t2) {
        lemma_not_walked_before(links, chains, c2, t2);
        assert(chains[c][t] == chains[c2][t2]);
    }
}

/// The point at a position of a chain stands at no position before it.
pub proof fn lemma_not_walked_before(links: Seq<Seq<int>>, chains: Seq<Seq<int>>, c: int, t: int)
    requires
        are_chains(links, chains),
        0 <= c < chains.len(),
        0 <= t < chains[c].len(),
    ensures
        !walked_before(chains, c, t, chains[c][t]),
{
    assert(is_chain(links, chains, c));
    if t > 0 {
        assert(successor(links, chains, c, t - 1) == Some(chains[c][t]));
    }
}

/// How many of the first `t` positions chain `c` has.
pub open spec fn reach(chains: Seq<Seq<int>>, c: int, t: int) -> int {
    if 0 <= c < chains.len() && t > 0 {
        if chains[c].len() < t {
            chains[c].len() as int
        } else {
            t
        }
    } else {
        0
    }
}

/// What was walked before a position depends on the chains up to that
/// position only.
pub proof fn lemma_walked_before_agrees(
    a: Seq<Seq<int>>,
    b: Seq<Seq<int>>,
    c: int,
    t: int,
    v: int,
)
    requires
        0 <= c <= a.len(),
        c <= b.len(),
        forall|c2: int| 0 <= c2 < c ==> #[trigger] a[c2] == b[c2],
        reach(a, c, t) == reach(b, c, t),
        forall|t2: int| 0 <= t2 < reach(a, c, t) ==> #[trigger] a[c][t2] == b[c][t2],
    ensures
        walked_before(a, c, t, v) == walked_before(b, c, t, v),
{
    if walked_before(a, c, t, v) {
        let (c2, t2) = choose|c2: int, t2: int|
            0 <= c2 < a.len() && 0 <= t2 < a[c2].len() && (c2 < c || (c2 == c && t2 < t))
                && #[trigger] a[c2][t2] == v;
        if c2 < c {
            assert(a[c2] == b[c2]);
        }
        assert(b[c2][t2] == v);
    }
    if walked_before(b, c, t, v) {
        let (c2, t2) = choose|c2: int, t2: int|
            0 <= c2 < b.len() && 0 <= t2 < b[c2].len() && (c2 < c || (c2 == c && t2 < t))
                && #[trigger] b[c2][t2] == v;
        if c2 < c {
            assert(a[c2] == b[c2]);
        }
        assert(a[c2][t2] == v);
    }
}

/// Whether a chain is one depends on the chains up to it only.
pub proof fn lemma_is_chain_agrees(
    links: Seq<Seq<int>>,
    a: Seq<Seq<int>>,
    b: Seq<Seq<int>>,
    c: int,
)
    requires
        0 <= c < a.len(),
        c < b.len(),
        forall|c2: int| 0 <= c2 <= c ==> #[trigger] a[c2] == b[c2],
        is_chain(links, a, c),
    ensures
        is_chain(links, b, c),
{
    let chain = a[c];
    assert(b[c] == chain);
    lemma_walked_before_agrees(a, b, c, 0, chain[0]);
    assert forall|v: int|
        0 <= v < chain[0] && (#[trigger] links[v]).len() < 2 implies walked_before(b, c, 0, v) by {
        lemma_walked_before_agrees(a, b, c, 0, v);
    }
    assert forall|t: int| 0 <= t < chain.len() implies #[trigger] successor(links, b, c, t)
        == successor(links, a, c, t) by {
        let l = links[chain[t]];
        if l.len() >= 1 {
            lemma_walked_before_agrees(a, b, c, t + 1, l[0]);
        }
        if l.len() >= 2 {
            lemma_walked_before_agrees(a, b, c, t + 1, l[1]);
        }
    }
    assert forall|t: int| 0 <= t < chain.len() - 1 implies #[trigger] successor(links, b, c, t)
        == Some(chain[t + 1]) by {
        assert(successor(links, a, c, t) == Some(chain[t + 1]));
    }
    assert(successor(links, b, c, chain.len() - 1) == successor(links, a, c, chain.len() - 1));
}

/// A sequence of different numbers below `n` has at most `n` entries.
pub proof fn lemma_distinct_bounded(s: Seq<int>, n: nat)
    requires
        s.no_duplicates(),
        forall|i: int| 0 <= i < s.len() ==> 0 <= #[trigger] s[i] < n,
    ensures
        s.len() <= n,
{
    s.unique_seq_to_set();
    vstd::set_lib::lemma_int_range(0, n as int);
    assert(s.to_set().subset_of(vstd::set_lib::set_int_range(0, n as int))) by {
        assert forall|x: int| s.to_set().contains(x) implies vstd::set_lib::set_int_range(
            0,
            n as int,
        ).contains(x) by {
            let i = choose|i: int| 0 <= i < s.len() && s[i] == x;
            assert(0 <= s[i] < n);
        }
    }
    vstd::set_lib::lemma_len_subset(s.to_set(), vstd::set_lib::set_int_range(0, n as int));
}

struct Node<T> {
    value: T,
    neighbors: [Option<usize>; 2],
}

impl<T> Node<T> {
    spec fn links(&self) -> Seq<int> {
        match (self.neighbors[0], self.neighbors[1]) {
            (Some(a), Some(b)) => seq![a as int, b as int],
            (Some(a), None) => seq![a as int],
            (None, Some(b)) => seq![b as int],
            (None, None) => Seq::empty(),
        }
    }
}

impl<T: Copy> Node<T> {
    fn new(p: T) -> (node: Self)
        ensures
            node.value == p,
            node.links() == Seq::<int>::empty(),
    {
        Self { value: p, neighbors: [None, None] }
    }

    fn is_full(&self) -> (full: bool)
        ensures
            full == (self.links().len() == 2),
    {
        self.neighbors[0].is_some() && self.neighbors[1].is_some()
    }

    fn is_free(&self) -> (free: bool)
        ensures
            free == (self.links().len() == 0),
    {
        self.neighbors[0].is_none() && self.neighbors[1].is_none()
    }

    fn add_link(&mut self, node_idx: usize)
        requires
            old(self).links().len() < 2,
        ensures
            final(self).value == old(self).value,
            final(self).links() == old(self).links().push(node_idx as int),
    {
        if self.neighbors[0].is_none() {
            let second: Option<usize> = self.neighbors[1];
            self.neighbors = [second, Some(node_idx)];
            if second.is_none() {
                self.neighbors = [Some(node_idx), None];
            }
        } else {
            let first: Option<usize> = self.neighbors[0];
            self.neighbors = [first, Some(node_idx)];
        }
        assert(self.links() =~= old(self).links().push(node_idx as int));
    }
}

/// Segments linked end to end: each point knows the at most two points that
/// segments join it to.
pub struct PolylineSet<T> {
    nodes: Vec<Node<T>>,
}

impl<T> View for PolylineSet<T> {
    type V = LinkedPoints<T>;

    closed spec fn view(&self) -> LinkedPoints<T> {
        LinkedPoints {
            points: Seq::new(self.nodes@.len(), |i: int| self.nodes@[i].value),
            links: Seq::new(self.nodes@.len(), |i: int| self.nodes@[i].links()),
        }
    }
}

impl<T: PartialEq + Copy> PolylineSet<T> {
    /// A set without points.
    pub fn new() -> (set: Self)
        ensures
            set@.wf(),
            set@.points.len() == 0,
    {
        let set = Self { nodes: Vec::new() };
        assert(set@.links =~= Seq::empty());
        set
    }

    /// The number of points in the set.
    pub fn len(&self) -> (n: usize)
        ensures
            n == self@.points.len(),
    {
        self.nodes.len()
    }

    fn find_index(&self, p: T) -> (found: Option<usize>)
        ensures
            found matches Some(i) ==> i < self@.points.len(),
            is_place_said(
                self@.points,
                p,
                match found {
                    Some(i) => i as int,
                    None => self@.points.len() as int,
                },
            ),
            T::obeys_eq_spec() ==> match found {
                Some(i) => is_first_equal(self@.points, p, i as int),
                None => forall|i: int| !is_first_equal(self@.points, p, i),
            },
    {
        let mut i: usize = 0;
        while i < self.nodes.len()
            invariant
                i <= self.nodes@.len(),
                forall|k: int| 0 <= k < i ==> equal_said(#[trigger] self@.points[k], p, false),
                T::obeys_eq_spec() ==> forall|k: int|
                    0 <= k < i ==> !(#[trigger] self@.points[k]).eq_spec(&p),
            decreases self.nodes@.len() - i,
        {
            assert(self@.points[i as int] == self.nodes@[i as int].value);
            if self.nodes[i].value == p {
                return Some(i);
            }
            i += 1;
        }
        None
    }

    fn find_or_create_index(&mut self, p: T) -> (at: usize)
        requires
            old(self)@.wf(),
        ensures
            final(self)@.wf(),
            at <= old(self)@.points.len(),
            final(self)@ == old(self)@.grown(p, at as int),
            is_place_said(old(self)@.points, p, at as int),
            T::obeys_eq_spec() ==> at == place_of(old(self)@.points, p),
    {
        match self.find_index(p) {
            Some(at) => {
                proof {
                    if T::obeys_eq_spec() {
                        let i = choose|i: int| is_first_equal(self@.points, p, i);
                        lemma_first_equal_unique(self@.points, p, i, at as int);
                    }
                }
                at
            },
            None => {
                self.nodes.push(Node::new(p));
                let at: usize = self.nodes.len() - 1;
                proof {
                    assert(self@.points =~= old(self)@.points.push(p));
                    assert(self@.links =~= old(self)@.links.push(Seq::empty()));
                }
                at
            },
        }
    }

    /// Whether the point `p` and the point `q`, each found among the points
    /// of the set or new to them, have room for a link between them. A
    /// point has room for two links.
    pub fn has_room(&self, p: T, q: T) -> (room: bool)
        requires
            self@.wf(),
        ensures
            is_room_said(self@, p, q, room),
            T::obeys_eq_spec() && room ==> room_wherever_placed(self@, p, q),
    {
        let n: usize = self.nodes.len();
        let found_p: Option<usize> = self.find_index(p);
        let found_q: Option<usize> = self.find_index(q);
        let ghost i: int = match found_p {
            Some(i) => i as int,
            None => n as int,
        };
        assert(forall|k: int|
            0 <= k < n ==> #[trigger] self@.grown(p, i).points[k] == self@.points[k]);
        let room: bool = match (found_p, found_q) {
            (Some(i), Some(j)) => {
                assert(is_place_said(self@.grown(p, i as int).points, q, j as int));
                if i == j {
                    self.nodes[i].is_free()
                } else {
                    !self.nodes[i].is_full() && !self.nodes[j].is_full()
                }
            },
            (Some(i), None) => {
                assert(is_place_said(self@.grown(p, i as int).points, q, n as int));
                !self.nodes[i].is_full()
            },
            (None, Some(j)) => {
                assert(is_place_said(self@.grown(p, n as int).points, q, j as int));
                !self.nodes[j].is_full()
            },
            (None, None) => {
                let same: bool = p == q;
                proof {
                    let at = if same { n as int } else { n as int + 1 };
                    assert(self@.grown(p, n as int).points[n as int] == p);
                    assert(is_place_said(self@.grown(p, n as int).points, q, at));
                }
                true
            },
        };
        proof {
            if T::obeys_eq_spec() && room {
                lemma_room_said_is_room(self@, p, q);
            }
        }
        room
    }

    /// Links the point `p` and the point `q`, each found among the points of
    /// the set or added to them. Both must have room for the link.
    pub fn put(&mut self, p: T, q: T)
        requires
            old(self)@.wf(),
            room_wherever_placed(old(self)@, p, q),
        ensures
            final(self)@.wf(),
            is_put(old(self)@, p, q, true, final(self)@),
            T::obeys_eq_spec() ==> put_result(old(self)@, p, q) == Some(final(self)@),
    {
        let added: bool = self.try_put(p, q);
        proof {
            let (i, j) = choose|i: int, j: int| is_put_at(old(self)@, p, q, i, j, added, self@);
            assert(is_place_said(old(self)@.grown(p, i).points, q, j));
            assert(added);
        }
    }

    /// Links the point `p` and the point `q`, each found among the points of
    /// the set or added to them, if both have room for the link, and says
    /// whether it did. Where one has no room, the set is left as it was.
    pub fn try_put(&mut self, p: T, q: T) -> (added: bool)
        requires
            old(self)@.wf(),
        ensures
            final(self)@.wf(),
            !added ==> final(self)@ == old(self)@,
            is_put(old(self)@, p, q, added, final(self)@),
            T::obeys_eq_spec() ==> match put_result(old(self)@, p, q) {
                Some(set) => added && final(self)@ == set,
                None => !added,
            },
    {
        let old_len: usize = self.nodes.len();
        let i: usize = self.find_or_create_index(p);
        let ghost with_p = self@;
        let j: usize = self.find_or_create_index(q);
        let ghost with_q = self@;
        let fits: bool = if i == j {
            self.nodes[i].is_free()
        } else {
            !self.nodes[i].is_full() && !self.nodes[j].is_full()
        };
        assert(fits == with_q.has_room(i as int, j as int));
        if !fits {
            let ghost nodes = self.nodes@;
            self.nodes.truncate(old_len);
            proof {
                assert forall|k: int| 0 <= k < old_len implies #[trigger] self@.points[k] == old(
                    self,
                )@.points[k] by {
                    assert(with_q.points[k] == nodes[k].value);
                    assert(with_p.points[k] == old(self)@.points[k]);
                }
                assert forall|k: int| 0 <= k < old_len implies #[trigger] self@.links[k] == old(
                    self,
                )@.links[k] by {
                    assert(with_q.links[k] == nodes[k].links());
                    assert(with_p.links[k] == old(self)@.links[k]);
                }
                assert(self@.points =~= old(self)@.points);
                assert(self@.links =~= old(self)@.links);
                assert(is_put_at(old(self)@, p, q, i as int, j as int, false, self@));
            }
            return false;
        }
        self.nodes[i].add_link(j);
        proof {
            assert(self@.points =~= with_q.points);
            assert(self@.links =~= with_q.links.update(i as int, with_q.links[i as int].push(j as int)));
        }
        let ghost half = self@;
        self.nodes[j].add_link(i);
        proof {
            assert(self@.points =~= with_q.points);
            assert(self@.links =~= half.links.update(j as int, half.links[j as int].push(i as int)));
            assert(self@ == old(self)@.put_at(p, q, i as int, j as int));
            assert(is_put_at(old(self)@, p, q, i as int, j as int, true, self@));
        }
        true
    }

    /// The first point linked to the point at `cur` that `visited` does not
    /// mark.
    fn next_unvisited(&self, cur: usize, visited: &Vec<bool>) -> (next: Option<usize>)
        requires
            self@.wf(),
            cur < self@.points.len(),
            visited@.len() == self@.points.len(),
        ensures
            match first_free_link(
                self@.links[cur as int],
                |v: int| 0 <= v < visited@.len() && visited@[v],
            ) {
                Some(v) => next == Some(v as usize) && 0 <= v < self@.points.len(),
                None => next is None,
            },
    {
        assert(self@.links[cur as int] == self.nodes@[cur as int].links());
        assert(forall|k: int|
            0 <= k < self@.links[cur as int].len() ==> 0 <= #[trigger] self@.links[cur as int][k]
                < self@.points.len());
        let first: Option<usize> = self.nodes[cur].neighbors[0];
        let second: Option<usize> = self.nodes[cur].neighbors[1];
        if let Some(a) = first {
            assert(self@.links[cur as int][0] == a);
            if !visited[a] {
                return Some(a);
            }
        }
        if let Some(b) = second {
            assert(self@.links[cur as int][self@.links[cur as int].len() - 1] == b);
            if !visited[b] {
                return Some(b);
            }
        }
        None
    }

    /// The polylines that the links make: from each point with a free place
    /// that no earlier polyline holds, in the order of the points, along the
    /// links to the point where they end. Points on a closed ring of links
    /// are in no polyline.
    pub fn get_polylines(&self) -> (polylines: Vec<Vec<T>>)
        requires
            self@.wf(),
        ensures
            are_polylines(self@, polylines@),
    {
        let n: usize = self.nodes.len();
        let ghost links = self@.links;
        let ghost points = self@.points;
        let mut visited: Vec<bool> = Vec::new();
        while visited.len() < n
            invariant
                visited@.len() <= n,
                forall|v: int| 0 <= v < visited@.len() ==> !#[trigger] visited@[v],
            decreases n - visited@.len(),
        {
            visited.push(false);
        }
        let mut polylines: Vec<Vec<T>> = Vec::new();
        let ghost mut chains: Seq<Seq<int>> = Seq::empty();
        let mut node_idx: usize = 0;
        while node_idx < n
            invariant
                self@.wf(),
                links == self@.links,
                points == self@.points,
                n == points.len(),
                node_idx <= n,
                visited@.len() == n,
                forall|v: int|
                    0 <= v < n ==> #[trigger] visited@[v] == walked_before(
                        chains,
                        chains.len() as int,
                        0,
                        v,
                    ),
                forall|c: int| 0 <= c < chains.len() ==> #[trigger] is_chain(links, chains, c),
                forall|v: int|
                    0 <= v < node_idx && (#[trigger] links[v]).len() < 2 ==> walked_before(
                        chains,
                        chains.len() as int,
                        0,
                        v,
                    ),
                traced(points, chains, polylines@),
            decreases n - node_idx,
        {
            assert(links[node_idx as int] == self.nodes@[node_idx as int].links());
            if !self.nodes[node_idx].is_full() && !visited[node_idx] {
                let ghost done = chains;
                let ghost c = done.len() as int;
                let mut polyline: Vec<T> = Vec::new();
                let mut cur: usize = node_idx;
                visited[cur] = true;
                polyline.push(self.nodes[cur].value);
                let ghost mut chain: Seq<int> = seq![cur as int];
                proof {
                    assert forall|v: int| 0 <= v < n implies #[trigger] visited@[v]
                        == walked_before(done.push(chain), c, 1, v) by {
                        lemma_walked_before_agrees(done, done.push(chain), c, 0, v);
                        if v == cur {
                            assert(done.push(chain)[c][0] == v);
                        }
                        if walked_before(done.push(chain), c, 1, v) && !walked_before(
                            done.push(chain),
                            c,
                            0,
                            v,
                        ) {
                            assert(v == cur);
                        }
                    }
                }
                loop
                    invariant
                        self@.wf(),
                        links == self@.links,
                        points == self@.points,
                        n == points.len(),
                        visited@.len() == n,
                        c == done.len(),
                        cur < n,
                        chain.len() >= 1,
                        chain[0] == node_idx,
                        chain.last() == cur,
                        chain.no_duplicates(),
                        forall|t: int| 0 <= t < chain.len() ==> 0 <= #[trigger] chain[t] < n,
                        forall|v: int|
                            0 <= v < n ==> #[trigger] visited@[v] == walked_before(
                                done.push(chain),
                                c,
                                chain.len() as int,
                                v,
                            ),
                        forall|t: int|
                            0 <= t < chain.len() - 1 ==> #[trigger] successor(
                                links,
                                done.push(chain),
                                c,
                                t,
                            ) == Some(chain[t + 1]),
                        polyline@.len() == chain.len(),
                        forall|t: int|
                            0 <= t < chain.len() ==> polyline@[t] == points[#[trigger] chain[t]],
                    ensures
                        successor(links, done.push(chain), c, chain.len() - 1) is None,
                    decreases n - chain.len(),
                {
                    let ghost all = done.push(chain);
                    let ghost here = chain.len() as int;
                    let ghost taken = |v: int| walked_before(all, c, here, v);
                    let ghost marked = |v: int| 0 <= v < visited@.len() && visited@[v];
                    proof {
                        let l = links[cur as int];
                        assert(forall|k: int| 0 <= k < l.len() ==> 0 <= #[trigger] l[k] < n);
                        if l.len() >= 1 {
                            assert(marked(l[0]) == taken(l[0]));
                        }
                        if l.len() >= 2 {
                            assert(marked(l[1]) == taken(l[1]));
                        }
                        assert(first_free_link(l, marked) == first_free_link(l, taken));
                        assert(all[c][here - 1] == cur);
                    }
                    match self.next_unvisited(cur, &visited) {
                        Some(next) => {
                            proof {
                                let grown = chain.push(next as int);
                                let more = done.push(grown);
                                assert(!chain.contains(next as int)) by {
                                    if chain.contains(next as int) {
                                        let t = choose|t: int|
                                            0 <= t < chain.len() && chain[t] == next as int;
                                        assert(all[c][t] == next as int);
                                        assert(walked_before(all, c, here, next as int));
                                    }
                                }
                                assert(grown.no_duplicates());
                                lemma_distinct_bounded(grown, n as nat);
                                assert forall|t: int, v: int| 0 <= t <= here implies walked_before(
                                    all,
                                    c,
                                    t,
                                    v,
                                ) == walked_before(more, c, t, v) by {
                                    lemma_walked_before_agrees(all, more, c, t, v);
                                }
                                assert forall|t: int| 0 <= t < grown.len() - 1 implies #[trigger] successor(
                                    links,
                                    more,
                                    c,
                                    t,
                                ) == Some(grown[t + 1]) by {
                                    let l = links[grown[t]];
                                    assert(more[c][t] == all[c][t]);
                                    if l.len() >= 1 {
                                        lemma_walked_before_agrees(all, more, c, t + 1, l[0]);
                                    }
                                    if l.len() >= 2 {
                                        lemma_walked_before_agrees(all, more, c, t + 1, l[1]);
                                    }
                                    assert(successor(links, more, c, t) == successor(
                                        links,
                                        all,
                                        c,
                                        t,
                                    ));
                                }
                                assert forall|v: int| 0 <= v < n implies (v == next || visited@[v])
                                    == walked_before(more, c, here + 1, v) by {
                                    lemma_walked_before_agrees(all, more, c, here, v);
                                    if v == next {
                                        assert(more[c][here] == v);
                                    }
                                    if walked_before(more, c, here + 1, v) && !walked_before(
                                        more,
                                        c,
                                        here,
                                        v,
                                    ) {
                                        assert(v == next);
                                    }
                                }
                                chain = grown;
                            }
                            visited[next] = true;
                            polyline.push(self.nodes[next].value);
                            cur = next;
                        },
                        None => {
                            break ;
                        },
                    }
                }
                polylines.push(polyline);
                proof {
                    let all = done.push(chain);
                    assert forall|v: int| 0 <= v < n implies #[trigger] visited@[v]
                        == walked_before(all, c + 1, 0, v) by {
                        if walked_before(all, c, chain.len() as int, v) {
                            let (c2, t2) = choose|c2: int, t2: int|
                                0 <= c2 < all.len() && 0 <= t2 < all[c2].len() && (c2 < c || (c2
                                    == c && t2 < chain.len())) && #[trigger] all[c2][t2] == v;
                            assert(all[c2][t2] == v);
                        }
                        if walked_before(all, c + 1, 0, v) {
                            let (c2, t2) = choose|c2: int, t2: int|
                                0 <= c2 < all.len() && 0 <= t2 < all[c2].len() && (c2 < c + 1 || (c2
                                    == c + 1 && t2 < 0)) && #[trigger] all[c2][t2] == v;
                            assert(all[c2][t2] == v);
                        }
                    }
                    assert forall|c2: int| 0 <= c2 < all.len() implies #[trigger] is_chain(
                        links,
                        all,
                        c2,
                    ) by {
                        if c2 < c {
                            lemma_is_chain_agrees(links, done, all, c2);
                        } else {
                            lemma_walked_before_agrees(done, all, c, 0, node_idx as int);
                            assert forall|v: int|
                                0 <= v < node_idx && (#[trigger] links[v]).len()
                                    < 2 implies walked_before(all, c, 0, v) by {
                                lemma_walked_before_agrees(done, all, c, 0, v);
                            }
                        }
                    }
                    assert forall|v: int|
                        0 <= v < node_idx + 1 && (#[trigger] links[v]).len()
                            < 2 implies walked_before(all, c + 1, 0, v) by {
                        if v < node_idx {
                            lemma_walked_before_agrees(done, all, c, 0, v);
                            let (c2, t2) = choose|c2: int, t2: int|
                                0 <= c2 < all.len() && 0 <= t2 < all[c2].len() && (c2 < c || (c2
                                    == c && t2 < 0)) && #[trigger] all[c2][t2] == v;
                            assert(all[c2][t2] == v);
                        } else {
                            assert(all[c][0] == v);
                        }
                    }
                    chains = all;
                }
            }
            node_idx += 1;
        }
        proof {
            assert(are_chains(links, chains));
            assert(traced(points, chains, polylines@));
        }
        polylines
    }

    /// Puts the segments one after the other into an empty set. No point may
    /// be an end of more than two segments.
    pub fn from_segments(segments: &[Segment<T>]) -> (set: Self)
        requires
            all_fit(LinkedPoints::<T> { points: Seq::empty(), links: Seq::empty() }, segments@),
        ensures
            set@.wf(),
            is_built(segments@, set@),
            T::obeys_eq_spec() ==> built(segments@) == Some(set@),
    {
        let mut set = Self::new();
        let ghost mut states: Seq<LinkedPoints<T>> = seq![set@];
        proof {
            assert(segments@.subrange(0, 0) =~= Seq::empty());
            assert(segments@.subrange(0, segments@.len() as int) =~= segments@);
            assert(set@.points =~= Seq::empty());
            assert(set@.links =~= Seq::empty());
        }
        let mut t: usize = 0;
        while t < segments.len()
            invariant
                t <= segments@.len(),
                set@.wf(),
                all_fit(set@, segments@.subrange(t as int, segments@.len() as int)),
                are_puts(segments@.subrange(0, t as int), states),
                states.last() == set@,
                T::obeys_eq_spec() ==> built(segments@.subrange(0, t as int)) == Some(set@),
            decreases segments@.len() - t,
        {
            let ghost before = set@;
            proof {
                let rest = segments@.subrange(t as int, segments@.len() as int);
                assert(rest.first() == segments@[t as int]);
                assert(rest.drop_first() =~= segments@.subrange(
                    t as int + 1,
                    segments@.len() as int,
                ));
                assert(segments@.subrange(0, t as int + 1).drop_last() =~= segments@.subrange(
                    0,
                    t as int,
                ));
                assert(segments@.subrange(0, t as int).push(segments@[t as int])
                    =~= segments@.subrange(0, t as int + 1));
            }
            set.put(segments[t].p, segments[t].q);
            proof {
                lemma_puts_grow(
                    segments@.subrange(0, t as int),
                    states,
                    segments@[t as int],
                    set@,
                );
                states = states.push(set@);
            }
            t += 1;
        }
        proof {
            assert(segments@.subrange(0, t as int) =~= segments@);
        }
        set
    }

    /// Puts the segments one after the other into an empty set. Returns
    /// `None` where a segment finds a point without room for it.
    pub fn try_from_segments(segments: &[Segment<T>]) -> (made: Option<Self>)
        ensures
            match made {
                Some(set) => set@.wf() && is_built(segments@, set@),
                None => is_refused(segments@),
            },
            T::obeys_eq_spec() ==> match built(segments@) {
                Some(set) => made is Some && made.unwrap()@ == set,
                None => made is None,
            },
    {
        let mut set = Self::new();
        let ghost mut states: Seq<LinkedPoints<T>> = seq![set@];
        proof {
            assert(segments@.subrange(0, 0) =~= Seq::empty());
            assert(set@.points =~= Seq::empty());
            assert(set@.links =~= Seq::empty());
        }
        let mut t: usize = 0;
        while t < segments.len()
            invariant
                t <= segments@.len(),
                set@.wf(),
                are_puts(segments@.subrange(0, t as int), states),
                states.last() == set@,
                T::obeys_eq_spec() ==> built(segments@.subrange(0, t as int)) == Some(set@),
            decreases segments@.len() - t,
        {
            proof {
                assert(segments@.subrange(0, t as int + 1).drop_last() =~= segments@.subrange(
                    0,
                    t as int,
                ));
                assert(segments@.subrange(0, t as int).push(segments@[t as int])
                    =~= segments@.subrange(0, t as int + 1));
            }
            if !set.try_put(segments[t].p, segments[t].q) {
                proof {
                    assert(is_refused_at(segments@, t as int));
                    if T::obeys_eq_spec() {
                        lemma_built_stays_none(segments@, t as int + 1);
                    }
                }
                return None;
            }
            proof {
                lemma_puts_grow(
                    segments@.subrange(0, t as int),
                    states,
                    segments@[t as int],
                    set@,
                );
                states = states.push(set@);
            }
            t += 1;
        }
        proof {
            assert(segments@.subrange(0, t as int) =~= segments@);
        }
        Some(set)
    }
}

/// Once the segments up to a place cannot be put, no more segments mend it.
pub proof fn lemma_built_stays_none<T: PartialEq>(segments: Seq<Segment<T>>, t: int)
    requires
        0 <= t <= segments.len(),
        built(segments.subrange(0, t)) is None,
    ensures
        built(segments) is None,
    decreases segments.len() - t,
{
    if t < segments.len() {
        assert(segments.subrange(0, t + 1).drop_last() =~= segments.subrange(0, t));
        lemma_built_stays_none(segments, t + 1);
    } else {
        assert(segments.subrange(0, t) =~= segments);
    }
}

} // verus!
