use std::collections::VecDeque;
use vstd::prelude::*;
use vstd::std_specs::cmp::PartialEqSpec;

use crate::shapes::segment::Segment;
use crate::util::equal_said;

verus! {

/// The path that `points` becomes when the segment `s` is attached to it, if
/// an end of the path equals an end of the segment: at the back rather than
/// at the front, and by the segment's first point rather than by its second.
/// An empty path takes any segment.
pub open spec fn extended<T: PartialEq>(points: Seq<T>, s: Segment<T>) -> Option<Seq<T>> {
    if points.len() == 0 {
        Some(seq![s.p, s.q])
    } else if points.last().eq_spec(&s.p) {
        Some(points.push(s.q))
    } else if points.last().eq_spec(&s.q) {
        Some(points.push(s.p))
    } else if points.first().eq_spec(&s.p) {
        Some(seq![s.q] + points)
    } else if points.first().eq_spec(&s.q) {
        Some(seq![s.p] + points)
    } else {
        None
    }
}

/// `after` is what the equality of `T` made of the path `points` and the
/// segment `s`: the path with the segment attached where it found an end of
/// the path equal to an end of the segment, at the back rather than at the
/// front and by the segment's first point rather than by its second; nothing
/// where it found no two ends equal. An empty path takes any segment.
pub open spec fn extended_as_said<T: PartialEq>(
    points: Seq<T>,
    s: Segment<T>,
    after: Option<Seq<T>>,
) -> bool {
    let back_p = points.len() > 0 && equal_said(points.last(), s.p, false);
    let back_q = back_p && equal_said(points.last(), s.q, false);
    let front_p = back_q && equal_said(points.first(), s.p, false);
    let front_q = front_p && equal_said(points.first(), s.q, false);
    ||| points.len() == 0 && after == Some(seq![s.p, s.q])
    ||| points.len() > 0 && equal_said(points.last(), s.p, true) && after == Some(points.push(s.q))
    ||| back_p && equal_said(points.last(), s.q, true) && after == Some(points.push(s.p))
    ||| back_q && equal_said(points.first(), s.p, true) && after == Some(seq![s.q] + points)
    ||| front_p && equal_said(points.first(), s.q, true) && after == Some(seq![s.p] + points)
    ||| front_q && after is None
}

/// Whether `after` is `before` with one end point of `s` added at one end, or
/// the whole of `s` where `before` is empty.
pub open spec fn extends_by<T>(before: Seq<T>, after: Seq<T>, s: Segment<T>) -> bool {
    ||| before.len() == 0 && after == seq![s.p, s.q]
    ||| before.len() > 0 && after == before.push(s.q)
    ||| before.len() > 0 && after == before.push(s.p)
    ||| before.len() > 0 && after == seq![s.q] + before
    ||| before.len() > 0 && after == seq![s.p] + before
}

/// A chain of points, each joined to the next by a segment.
pub struct Path<T> {
    pub points: VecDeque<T>,
}

impl<T> View for Path<T> {
    type V = Seq<T>;

    open spec fn view(&self) -> Seq<T> {
        self.points@
    }
}

impl<T: PartialEq + Copy> Path<T> {
    pub fn new() -> (path: Self)
        ensures
            path@.len() == 0,
    {
        Self { points: VecDeque::new() }
    }

    /// Attaches the segment to the path if it fits at one of its ends, and
    /// says whether it did.
    pub fn put(&mut self, s: &Segment<T>) -> (added: bool)
        ensures
            extended_as_said(
                old(self)@,
                *s,
                if added {
                    Some(final(self)@)
                } else {
                    None
                },
            ),
            added ==> extends_by(old(self)@, final(self)@, *s),
            !added ==> final(self)@ == old(self)@,
            old(self)@.len() == 0 ==> added,
            T::obeys_eq_spec() ==> match extended(old(self)@, *s) {
                Some(points) => added && final(self)@ == points,
                None => !added,
            },
    {
        if self.put_empty(s) {
            true
        } else if self.put_back(s) {
            true
        } else {
            self.put_front(s)
        }
    }

    fn put_back(&mut self, s: &Segment<T>) -> (added: bool)
        requires
            old(self)@.len() > 0,
        ensures
            ({
                let back = old(self)@.last();
                ||| equal_said(back, s.p, true) && added && final(self)@ == old(self)@.push(s.q)
                ||| equal_said(back, s.p, false) && equal_said(back, s.q, true) && added
                    && final(self)@ == old(self)@.push(s.p)
                ||| equal_said(back, s.p, false) && equal_said(back, s.q, false) && !added
                    && final(self)@ == old(self)@
            }),
            T::obeys_eq_spec() ==> {
                if old(self)@.last().eq_spec(&s.p) {
                    added && final(self)@ == old(self)@.push(s.q)
                } else if old(self)@.last().eq_spec(&s.q) {
                    added && final(self)@ == old(self)@.push(s.p)
                } else {
                    !added
                }
            },
    {
        let back: T = self.points[self.points.len() - 1];
        if back == s.p {
            self.points.push_back(s.q);
        } else if back == s.q {
            self.points.push_back(s.p);
        } else {
            return false;
        }
        true
    }

    fn put_front(&mut self, s: &Segment<T>) -> (added: bool)
        requires
            old(self)@.len() > 0,
        ensures
            ({
                let front = old(self)@.first();
                ||| equal_said(front, s.p, true) && added && final(self)@ == seq![s.q] + old(self)@
                ||| equal_said(front, s.p, false) && equal_said(front, s.q, true) && added
                    && final(self)@ == seq![s.p] + old(self)@
                ||| equal_said(front, s.p, false) && equal_said(front, s.q, false) && !added
                    && final(self)@ == old(self)@
            }),
            T::obeys_eq_spec() ==> {
                if old(self)@.first().eq_spec(&s.p) {
                    added && final(self)@ == seq![s.q] + old(self)@
                } else if old(self)@.first().eq_spec(&s.q) {
                    added && final(self)@ == seq![s.p] + old(self)@
                } else {
                    !added
                }
            },
    {
        let front: T = self.points[0];
        if front == s.p {
            self.points.push_front(s.q);
        } else if front == s.q {
            self.points.push_front(s.p);
        } else {
            return false;
        }
        true
    }

    fn put_empty(&mut self, s: &Segment<T>) -> (added: bool)
        ensures
            added == (old(self)@.len() == 0),
            added ==> final(self)@ == seq![s.p, s.q],
            !added ==> final(self)@ == old(self)@,
    {
        if self.points.len() == 0 {
            self.points.push_back(s.p);
            self.points.push_back(s.q);
            assert(self@ =~= seq![s.p, s.q]);
            true
        } else {
            false
        }
    }
}

/// The place of the first path that takes the segment `s`, if there is one.
pub open spec fn first_taker<T: PartialEq>(paths: Seq<Seq<T>>, s: Segment<T>, k: int) -> bool {
    &&& 0 <= k < paths.len()
    &&& extended(paths[k], s) is Some
    &&& forall|k2: int| 0 <= k2 < k ==> extended(#[trigger] paths[k2], s) is None
}

/// The paths after the segment `s` has been put: attached to the first path
/// that takes it, or made a path of its own after the others.
pub open spec fn put_result<T: PartialEq>(paths: Seq<Seq<T>>, s: Segment<T>) -> Seq<Seq<T>> {
    if exists|k: int| first_taker(paths, s, k) {
        let k = choose|k: int| first_taker(paths, s, k);
        paths.update(k, extended(paths[k], s).unwrap())
    } else {
        paths.push(seq![s.p, s.q])
    }
}

/// The paths that the segments make when they are put one after the other.
pub open spec fn grouped<T: PartialEq>(segments: Seq<Segment<T>>) -> Seq<Seq<T>>
    decreases segments.len(),
{
    if segments.len() == 0 {
        Seq::empty()
    } else {
        put_result(grouped(segments.drop_last()), segments.last())
    }
}

/// `after` is `before` with the segment attached to path `k`, the first
/// path that the equality of `T` let take it, or, where `k` is the number of
/// paths and none took it, with the segment as a new last path.
pub open spec fn put_step<T: PartialEq>(
    before: Seq<Seq<T>>,
    after: Seq<Seq<T>>,
    s: Segment<T>,
    k: int,
) -> bool {
    &&& 0 <= k <= before.len()
    &&& forall|k2: int| 0 <= k2 < k ==> extended_as_said(#[trigger] before[k2], s, None)
    &&& if k < before.len() {
        after.len() == before.len() && extended_as_said(before[k], s, Some(after[k])) && after
            == before.update(k, after[k])
    } else {
        after == before.push(seq![s.p, s.q])
    }
}

/// `after` is `before` with the segment attached to the first path that
/// the equality of `T` let take it, or added as a new last path where none
/// took it.
pub open spec fn put_somewhere<T: PartialEq>(
    before: Seq<Seq<T>>,
    after: Seq<Seq<T>>,
    s: Segment<T>,
) -> bool {
    exists|k: int| put_step(before, after, s, k)
}

/// `states` are the lists of paths that the segments made as they were put
/// one after the other into an empty list.
pub open spec fn are_put_steps<T: PartialEq>(
    segments: Seq<Segment<T>>,
    states: Seq<Seq<Seq<T>>>,
) -> bool {
    &&& states.len() == segments.len() + 1
    &&& states[0] == Seq::<Seq<T>>::empty()
    &&& forall|t: int|
        0 <= t < segments.len() ==> put_somewhere(states[t], #[trigger] states[t + 1], segments[t])
}

/// `paths` is what the segments made as they were put one after the other
/// into an empty list of paths.
pub open spec fn is_grouped<T: PartialEq>(segments: Seq<Segment<T>>, paths: Seq<Seq<T>>) -> bool {
    exists|states: Seq<Seq<Seq<T>>>| #[trigger] are_put_steps(segments, states) && states.last() == paths
}

/// One more segment put adds one state.
pub proof fn lemma_put_steps_grow<T: PartialEq>(
    segments: Seq<Segment<T>>,
    states: Seq<Seq<Seq<T>>>,
    s: Segment<T>,
    after: Seq<Seq<T>>,
)
    requires
        are_put_steps(segments, states),
        put_somewhere(states.last(), after, s),
    ensures
        are_put_steps(segments.push(s), states.push(after)),
{
    let more = segments.push(s);
    let next = states.push(after);
    assert forall|t: int| 0 <= t < more.len() implies put_somewhere(
        next[t],
        #[trigger] next[t + 1],
        more[t],
    ) by {
        if t < segments.len() {
            assert(next[t] == states[t]);
            assert(next[t + 1] == states[t + 1]);
            assert(more[t] == segments[t]);
        }
    }
}

/// Segments chained into paths, each segment attached to the first path that
/// one of its end points continues.
pub struct PathGroup<T> {
    pub paths: Vec<Path<T>>,
}

impl<T> View for PathGroup<T> {
    type V = Seq<Seq<T>>;

    open spec fn view(&self) -> Seq<Seq<T>> {
        Seq::new(self.paths@.len(), |i: int| self.paths@[i]@)
    }
}

impl<T: PartialEq + Copy> PathGroup<T> {
    /// Every path holds at least one point.
    pub open spec fn wf(&self) -> bool {
        forall|i: int| 0 <= i < self@.len() ==> (#[trigger] self@[i]).len() > 0
    }

    /// Attaches the segment to the first path that takes it; where none does,
    /// the segment becomes a new path.
    pub fn put(&mut self, s: &Segment<T>)
        ensures
            old(self).wf() ==> final(self).wf(),
            put_somewhere(old(self)@, final(self)@, *s),
            T::obeys_eq_spec() ==> final(self)@ == put_result(old(self)@, *s),
    {
        let n: usize = self.paths.len();
        let mut k: usize = 0;
        while k < n
            invariant
                k <= n,
                n == self@.len(),
                self@ == old(self)@,
                forall|k2: int| 0 <= k2 < k ==> extended_as_said(#[trigger] self@[k2], *s, None),
                T::obeys_eq_spec() ==> forall|k2: int|
                    0 <= k2 < k ==> extended(#[trigger] self@[k2], *s) is None,
            decreases n - k,
        {
            let ghost before = self@;
            let added = self.paths[k].put(s);
            if added {
                proof {
                    assert(self@ =~= before.update(k as int, self@[k as int]));
                    assert(put_step(before, self@, *s, k as int));
                    if T::obeys_eq_spec() {
                        assert(first_taker(before, *s, k as int));
                        let k3 = choose|k3: int| first_taker(before, *s, k3);
                        assert(k3 == k);
                    }
                }
                return ;
            }
            assert(self@ =~= before);
            k += 1;
        }
        let mut new_path: Path<T> = Path::new();
        let added = new_path.put(s);
        self.paths.push(new_path);
        proof {
            assert(self@ =~= old(self)@.push(seq![s.p, s.q]));
            assert(put_step(old(self)@, self@, *s, n as int));
            if T::obeys_eq_spec() {
                assert forall|k3: int| !first_taker(old(self)@, *s, k3) by {}
            }
        }
    }

    /// Puts the segments one after the other into an empty group.
    pub fn from_segments(segments: &[Segment<T>]) -> (group: Self)
        ensures
            group.wf(),
            group@.len() <= segments@.len(),
            is_grouped(segments@, group@),
            T::obeys_eq_spec() ==> group@ == grouped(segments@),
    {
        let mut group = Self { paths: Vec::new() };
        let ghost mut states: Seq<Seq<Seq<T>>> = seq![group@];
        proof {
            assert(group@ =~= Seq::<Seq<T>>::empty());
            assert(segments@.subrange(0, 0) =~= Seq::empty());
        }
        let mut t: usize = 0;
        while t < segments.len()
            invariant
                t <= segments@.len(),
                group.wf(),
                group@.len() <= t,
                are_put_steps(segments@.subrange(0, t as int), states),
                states.last() == group@,
                T::obeys_eq_spec() ==> group@ == grouped(segments@.subrange(0, t as int)),
            decreases segments@.len() - t,
        {
            proof {
                assert(segments@.subrange(0, t as int + 1).drop_last() =~= segments@.subrange(
                    0,
                    t as int,
                ));
                assert(segments@.subrange(0, t as int).push(segments@[t as int])
                    =~= segments@.subrange(0, t as int + 1));
            }
            let ghost before = group@;
            group.put(&segments[t]);
            proof {
                let k = choose|k: int| put_step(before, group@, segments@[t as int], k);
                assert(put_step(before, group@, segments@[t as int], k));
                lemma_put_steps_grow(
                    segments@.subrange(0, t as int),
                    states,
                    segments@[t as int],
                    group@,
                );
                states = states.push(group@);
            }
            t += 1;
        }
        proof {
            assert(segments@.subrange(0, t as int) =~= segments@);
        }
        group
    }
}

} // verus!
