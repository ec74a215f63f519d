use std::collections::VecDeque;
use vstd::prelude::*;
use vstd::std_specs::cmp::PartialEqSpec;

use crate::shapes::segment::Segment;
use crate::util::equal_said;

verus! {

/// How the ends of two paths meet.
pub enum Join {
    /// No two ends are equal.
    Apart,
    /// The last point of the first path is the first point of the second.
    TailToHead,
    /// The two paths end in the same point.
    TailToTail,
    /// The two paths start in the same point.
    HeadToHead,
    /// The first point of the first path is the last point of the second.
    HeadToTail,
}

/// The first way, in the order of [`Join`]'s variants, in which an end of `dest`
/// equals an end of `src`.
pub open spec fn join_of<T: PartialEq>(dest: Seq<T>, src: Seq<T>) -> Join
    recommends
        dest.len() > 0,
        src.len() > 0,
{
    if dest.last().eq_spec(&src.first()) {
        Join::TailToHead
    } else if dest.last().eq_spec(&src.last()) {
        Join::TailToTail
    } else if dest.first().eq_spec(&src.first()) {
        Join::HeadToHead
    } else if dest.first().eq_spec(&src.last()) {
        Join::HeadToTail
    } else {
        Join::Apart
    }
}

/// The equality of `T` made `join` the first way, in the order of
/// [`Join`]'s variants, in which an end of `dest` equals an end of `src`.
pub open spec fn join_said<T: PartialEq>(dest: Seq<T>, src: Seq<T>, join: Join) -> bool {
    let tail_to_head = equal_said(dest.last(), src.first(), join is TailToHead);
    let tail_to_tail = equal_said(dest.last(), src.last(), join is TailToTail);
    let head_to_head = equal_said(dest.first(), src.first(), join is HeadToHead);
    let head_to_tail = equal_said(dest.first(), src.last(), join is HeadToTail);
    match join {
        Join::TailToHead => tail_to_head,
        Join::TailToTail => tail_to_head && tail_to_tail,
        Join::HeadToHead => tail_to_head && tail_to_tail && head_to_head,
        Join::HeadToTail => tail_to_head && tail_to_tail && head_to_head && head_to_tail,
        Join::Apart => tail_to_head && tail_to_tail && head_to_head && head_to_tail,
    }
}

/// `after` is `dest` with `src` attached in the first way in which the
/// equality of `T` found an end of the one equal to an end of the other.
pub open spec fn joined_as_said<T: PartialEq>(dest: Seq<T>, src: Seq<T>, after: Seq<T>) -> bool {
    exists|join: Join| join_said(dest, src, join) && after == #[trigger] joined(dest, src, join)
}

/// The path that `dest` becomes when `src` is attached to it at the end where
/// the two meet, without the point they share.
pub open spec fn joined<T>(dest: Seq<T>, src: Seq<T>, join: Join) -> Seq<T>
    recommends
        src.len() > 0,
{
    match join {
        Join::Apart => dest,
        Join::TailToHead => dest + src.subrange(1, src.len() as int),
        Join::TailToTail => dest + src.subrange(0, src.len() - 1).reverse(),
        Join::HeadToHead => src.subrange(1, src.len() as int).reverse() + dest,
        Join::HeadToTail => src.subrange(0, src.len() - 1) + dest,
    }
}

/// Attaches `src` to `dest` where an end of the one equals an end of the other,
/// and says whether `dest` grew.
pub fn try_merge<T: PartialEq + Copy>(dest: &mut VecDeque<T>, src: &VecDeque<T>) -> (merged: bool)
    requires
        old(dest)@.len() > 0,
        src@.len() > 0,
    ensures
        joined_as_said(old(dest)@, src@, final(dest)@),
        T::obeys_eq_spec() ==> final(dest)@ == joined(
            old(dest)@,
            src@,
            join_of(old(dest)@, src@),
        ),
        merged == (final(dest)@.len() != old(dest)@.len()),
{
    let src_front: T = src[0];
    let src_back: T = src[src.len() - 1];
    let dest_front: T = dest[0];
    let dest_back: T = dest[dest.len() - 1];

    let n: usize = src.len();
    let prev_len: usize = dest.len();

    if dest_back == src_front {
        let mut t: usize = 1;
        while t < n
            invariant
                1 <= t <= n,
                n == src@.len(),
                dest@ == old(dest)@ + src@.subrange(1, t as int),
            decreases n - t,
        {
            dest.push_back(src[t]);
            assert(src@.subrange(1, t as int).push(src@[t as int]) == src@.subrange(
                1,
                t as int + 1,
            ));
            t += 1;
        }
        assert(dest@ == joined(old(dest)@, src@, Join::TailToHead));
        assert(join_said(old(dest)@, src@, Join::TailToHead));
    } else if dest_back == src_back {
        let mut t: usize = n - 1;
        while t > 0
            invariant
                t <= n - 1,
                n == src@.len(),
                dest@ == old(dest)@ + src@.subrange(t as int, n - 1).reverse(),
            decreases t,
        {
            t -= 1;
            dest.push_back(src[t]);
            assert(src@.subrange(t as int + 1, n - 1).reverse().push(src@[t as int])
                == src@.subrange(t as int, n - 1).reverse());
        }
        assert(dest@ == joined(old(dest)@, src@, Join::TailToTail));
        assert(join_said(old(dest)@, src@, Join::TailToTail));
    } else if dest_front == src_front {
        let mut t: usize = 1;
        while t < n
            invariant
                1 <= t <= n,
                n == src@.len(),
                dest@ == src@.subrange(1, t as int).reverse() + old(dest)@,
            decreases n - t,
        {
            dest.push_front(src[t]);
            assert(seq![src@[t as int]] + src@.subrange(1, t as int).reverse() == src@.subrange(
                1,
                t as int + 1,
            ).reverse());
            t += 1;
        }
        assert(dest@ == joined(old(dest)@, src@, Join::HeadToHead));
        assert(join_said(old(dest)@, src@, Join::HeadToHead));
    } else if dest_front == src_back {
        let mut t: usize = n - 1;
        while t > 0
            invariant
                t <= n - 1,
                n == src@.len(),
                dest@ == src@.subrange(t as int, n - 1) + old(dest)@,
            decreases t,
        {
            t -= 1;
            dest.push_front(src[t]);
            assert(seq![src@[t as int]] + src@.subrange(t as int + 1, n - 1) == src@.subrange(
                t as int,
                n - 1,
            ));
        }
        assert(dest@ == joined(old(dest)@, src@, Join::HeadToTail));
        assert(join_said(old(dest)@, src@, Join::HeadToTail));
    } else {
        assert(dest@ == joined(old(dest)@, src@, Join::Apart));
        assert(join_said(old(dest)@, src@, Join::Apart));
    }

    prev_len != dest.len()
}

/// Borrows the elements at two different places of a slice at once.
pub fn borrow_mut_two<T>(v: &mut [T], i: usize, j: usize) -> (two: (&mut T, &mut T))
    requires
        i < j < old(v)@.len(),
    ensures
        *two.0 == old(v)@[i as int],
        *two.1 == old(v)@[j as int],
        final(v)@ == old(v)@.update(i as int, *final(two.0)).update(j as int, *final(two.1)),
{
    let (left, right) = v.split_at_mut(j);
    (&mut left[i], &mut right[0])
}

/// Whether attaching `src` to `dest` makes `dest` longer.
pub open spec fn can_merge<T: PartialEq>(dest: Seq<T>, src: Seq<T>) -> bool {
    joined(dest, src, join_of(dest, src)).len() != dest.len()
}

/// Whether `(i, j)` comes before `(i2, j2)` where the pairs are ordered by
/// their first place and then by their second.
pub open spec fn pair_before(i: int, j: int, i2: int, j2: int) -> bool {
    i < i2 || (i == i2 && j < j2)
}

/// No pair of paths before `(i, j)` can be merged.
pub open spec fn none_mergeable_before<T: PartialEq>(paths: Seq<Seq<T>>, i: int, j: int) -> bool {
    forall|i2: int, j2: int|
        0 <= i2 < j2 < paths.len() && pair_before(i2, j2, i, j) ==> !can_merge(
            #[trigger] paths[i2],
            #[trigger] paths[j2],
        )
}

/// `(i, j)` is the first pair of paths of which the second can be attached to
/// the first.
pub open spec fn first_mergeable<T: PartialEq>(paths: Seq<Seq<T>>, i: int, j: int) -> bool {
    &&& 0 <= i < j < paths.len()
    &&& can_merge(paths[i], paths[j])
    &&& none_mergeable_before(paths, i, j)
}

/// The equality of `T` found no end of `src` equal to an end of `dest`, or
/// `src` too short to make `dest` longer: `dest` stays as it is.
pub open spec fn pair_kept<T: PartialEq>(dest: Seq<T>, src: Seq<T>) -> bool {
    exists|join: Join| #[trigger] join_said(dest, src, join) && joined(dest, src, join) == dest
}

/// The equality of `T` let no pair of paths before `(i, j)` merge.
pub open spec fn none_merged_before<T: PartialEq>(paths: Seq<Seq<T>>, i: int, j: int) -> bool {
    forall|i2: int, j2: int|
        0 <= i2 < j2 < paths.len() && pair_before(i2, j2, i, j) ==> pair_kept(
            #[trigger] paths[i2],
            #[trigger] paths[j2],
        )
}

/// `after` is `before` with path `j` attached to path `i` in the way `join`,
/// as the equality of `T` had it, which made path `i` longer.
pub open spec fn pair_joined<T: PartialEq>(
    before: Seq<Seq<T>>,
    after: Seq<Seq<T>>,
    i: int,
    j: int,
    join: Join,
) -> bool {
    &&& 0 <= i < j < before.len()
    &&& join_said(before[i], before[j], join)
    &&& after == before.update(i, joined(before[i], before[j], join))
    &&& after[i].len() != before[i].len()
}

/// `after` is `before` with path `j` attached to path `i` in the way `join`,
/// the first pair of paths that the equality of `T` let merge.
pub open spec fn merge_step<T: PartialEq>(
    before: Seq<Seq<T>>,
    after: Seq<Seq<T>>,
    i: int,
    j: int,
    join: Join,
) -> bool {
    pair_joined(before, after, i, j, join) && none_merged_before(before, i, j)
}

/// `after` is `before` with the first pair that can be merged, `(i, j)`,
/// merged into path `i`.
pub open spec fn first_merge_step<T: PartialEq>(
    before: Seq<Seq<T>>,
    after: Seq<Seq<T>>,
    i: int,
    j: int,
) -> bool {
    &&& first_mergeable(before, i, j)
    &&& after == before.update(i, joined(before[i], before[j], join_of(before[i], before[j])))
}

/// `after` is `before` with path `j` attached to some path before it, which
/// made that path longer.
pub open spec fn merged_into_some<T: PartialEq>(
    before: Seq<Seq<T>>,
    after: Seq<Seq<T>>,
    j: int,
) -> bool {
    exists|i: int, join: Join| merge_step(before, after, i, j, join)
}

/// `after` is `before` with the first pair that can be merged merged, and `j`
/// is the second place of that pair.
pub open spec fn first_merged_into_some<T: PartialEq>(
    before: Seq<Seq<T>>,
    after: Seq<Seq<T>>,
    j: int,
) -> bool {
    exists|i: int| first_merge_step(before, after, i, j)
}

/// `after` is `before` as it was, where the equality of `T` let no pair of
/// paths merge, or with the second path of the first pair that it let merge
/// attached to the first and taken from the list.
pub open spec fn merged_or_same<T: PartialEq>(before: Seq<Seq<T>>, after: Seq<Seq<T>>) -> bool {
    ||| after == before && none_merged_before(before, before.len() as int, 0)
    ||| exists|merged: Seq<Seq<T>>, j: int| #[trigger]
        merged_into_some(before, merged, j) && after == merged.remove(j)
}

/// `after` is `before` with the segment `s` added as a path of its own and
/// the paths then merged at most twice.
pub open spec fn put_and_merged<T: PartialEq>(
    before: Seq<Seq<T>>,
    s: Segment<T>,
    after: Seq<Seq<T>>,
) -> bool {
    exists|once: Seq<Seq<T>>|
        merged_or_same(before.push(seq![s.p, s.q]), once) && #[trigger] merged_or_same(once, after)
}

/// `states` are the lists of paths that the segments made as they were put
/// one after the other into an empty list.
pub open spec fn are_put_steps<T: PartialEq>(
    segments: Seq<Segment<T>>,
    states: Seq<Seq<Seq<T>>>,
) -> bool {
    &&& states.len() == segments.len() + 1
    &&& states[0] == Seq::<Seq<T>>::empty()
    &&& forall|t: int|
        0 <= t < segments.len() ==> put_and_merged(states[t], segments[t], #[trigger] states[t + 1])
}

/// `paths` is what the segments made as they were put one after the other
/// into an empty list of paths.
pub open spec fn is_grouped<T: PartialEq>(segments: Seq<Segment<T>>, paths: Seq<Seq<T>>) -> bool {
    exists|states: Seq<Seq<Seq<T>>>| #[trigger] are_put_steps(segments, states) && states.last() == paths
}

/// One more segment put adds one state.
pub proof fn lemma_put_steps_grow<T: PartialEq>(
    segments: Seq<Segment<T>>,
    states: Seq<Seq<Seq<T>>>,
    s: Segment<T>,
    after: Seq<Seq<T>>,
)
    requires
        are_put_steps(segments, states),
        put_and_merged(states.last(), s, after),
    ensures
        are_put_steps(segments.push(s), states.push(after)),
{
    let more = segments.push(s);
    let next = states.push(after);
    assert forall|t: int| 0 <= t < more.len() implies put_and_merged(
        next[t],
        more[t],
        #[trigger] next[t + 1],
    ) by {
        if t < segments.len() {
            assert(next[t] == states[t]);
            assert(next[t + 1] == states[t + 1]);
            assert(more[t] == segments[t]);
        }
    }
}

/// The paths after the first pair that can be merged has been merged: the
/// second path of the pair is attached to the first and leaves the list.
pub open spec fn merged_once<T: PartialEq>(paths: Seq<Seq<T>>) -> Seq<Seq<T>> {
    if exists|i: int, j: int| first_mergeable(paths, i, j) {
        let (i, j) = choose|i: int, j: int| first_mergeable(paths, i, j);
        paths.update(i, joined(paths[i], paths[j], join_of(paths[i], paths[j]))).remove(j)
    } else {
        paths
    }
}

/// The paths after the segment `s` has been added as a path of its own and
/// two rounds of merging have been made.
pub open spec fn put_result<T: PartialEq>(paths: Seq<Seq<T>>, s: Segment<T>) -> Seq<Seq<T>> {
    merged_once(merged_once(paths.push(seq![s.p, s.q])))
}

/// The paths that the segments make when they are put one after the other.
pub open spec fn grouped<T: PartialEq>(segments: Seq<Segment<T>>) -> Seq<Seq<T>>
    decreases segments.len(),
{
    if segments.len() == 0 {
        Seq::empty()
    } else {
        put_result(grouped(segments.drop_last()), segments.last())
    }
}

/// Segments chained into paths: a segment joins the path that ends where the
/// segment ends.
pub struct PathGroup<T> {
    pub paths: Vec<VecDeque<T>>,
}

impl<T> View for PathGroup<T> {
    type V = Seq<Seq<T>>;

    open spec fn view(&self) -> Seq<Seq<T>> {
        Seq::new(self.paths@.len(), |i: int| self.paths@[i]@)
    }
}

/// Only a path of one point, or one that meets no end, leaves the other path
/// as long as it was; the other path is then unchanged.
pub proof fn lemma_joined_same_length<T>(dest: Seq<T>, src: Seq<T>, join: Join)
    requires
        src.len() > 0,
        joined(dest, src, join).len() == dest.len(),
    ensures
        joined(dest, src, join) == dest,
{
    assert(joined(dest, src, join) =~= dest);
}

/// At most one pair is the first that can be merged.
pub proof fn lemma_first_mergeable_unique<T: PartialEq>(
    paths: Seq<Seq<T>>,
    i: int,
    j: int,
    i2: int,
    j2: int,
)
    requires
        first_mergeable(paths, i, j),
        first_mergeable(paths, i2, j2),
    ensures
        i == i2,
        j == j2,
{
    if pair_before(i, j, i2, j2) {
        assert(!can_merge(paths[i], paths[j]));
    }
    if pair_before(i2, j2, i, j) {
        assert(!can_merge(paths[i2], paths[j2]));
    }
}

impl<T: PartialEq + Copy> PathGroup<T> {
    /// Every path holds at least one point.
    pub open spec fn wf(&self) -> bool {
        forall|i: int| 0 <= i < self@.len() ==> (#[trigger] self@[i]).len() > 0
    }

    /// Adds the segment as a path of its own, then merges twice: a segment
    /// can close the gap between two paths, which takes two merges.
    pub fn put(&mut self, s: &Segment<T>)
        requires
            old(self).wf(),
        ensures
            final(self).wf(),
            old(self)@.len() - 1 <= final(self)@.len() <= old(self)@.len() + 1,
            put_and_merged(old(self)@, *s, final(self)@),
            T::obeys_eq_spec() ==> final(self)@ == put_result(old(self)@, *s),
    {
        let mut new_path: VecDeque<T> = VecDeque::new();
        new_path.push_back(s.p);
        new_path.push_back(s.q);
        assert(new_path@ =~= seq![s.p, s.q]);
        self.paths.push(new_path);
        assert(self@ =~= old(self)@.push(seq![s.p, s.q]));
        self.merge_once();
        let ghost once = self@;
        self.merge_once();
        assert(merged_or_same(old(self)@.push(seq![s.p, s.q]), once) && merged_or_same(
            once,
            self@,
        ));
    }

    /// Looks for the first pair of paths of which the second can be attached
    /// to the first, attaches it, and returns the place of the second.
    fn merge_find_index(&mut self) -> (found: Option<usize>)
        requires
            old(self).wf(),
        ensures
            final(self).wf(),
            final(self)@.len() == old(self)@.len(),
            found is None ==> final(self)@ == old(self)@ && none_merged_before(
                old(self)@,
                old(self)@.len() as int,
                0,
            ),
            found matches Some(j) ==> merged_into_some(old(self)@, final(self)@, j as int),
            T::obeys_eq_spec() ==> match found {
                None => none_mergeable_before(old(self)@, old(self)@.len() as int, 0),
                Some(j) => first_merged_into_some(old(self)@, final(self)@, j as int),
            },
    {
        let n: usize = self.paths.len();
        let mut i: usize = 0;
        while i < n
            invariant
                i <= n,
                n == self@.len(),
                self@ == old(self)@,
                self.wf(),
                none_merged_before(self@, i as int, 0),
                T::obeys_eq_spec() ==> none_mergeable_before(self@, i as int, 0),
            decreases n - i,
        {
            let mut j: usize = i + 1;
            while j < n
                invariant
                    i < j <= n,
                    n == self@.len(),
                    self@ == old(self)@,
                    self.wf(),
                    none_merged_before(self@, i as int, j as int),
                    T::obeys_eq_spec() ==> none_mergeable_before(self@, i as int, j as int),
                decreases n - j,
            {
                if self.merge_pair(i, j) {
                    proof {
                        let join = choose|join: Join|
                            pair_joined(old(self)@, self@, i as int, j as int, join);
                        assert(merge_step(old(self)@, self@, i as int, j as int, join));
                        if T::obeys_eq_spec() {
                            assert(first_mergeable(old(self)@, i as int, j as int));
                            assert(first_merge_step(old(self)@, self@, i as int, j as int));
                        }
                    }
                    assert(merged_into_some(old(self)@, self@, j as int));
                    assert(T::obeys_eq_spec() ==> first_merged_into_some(
                        old(self)@,
                        self@,
                        j as int,
                    ));
                    return Some(j);
                }
                j += 1;
            }
            i += 1;
        }
        None
    }

    /// Attaches path `j` to path `i` if an end of the one equals an end of the
    /// other, and says whether path `i` grew.
    fn merge_pair(&mut self, i: usize, j: usize) -> (merged: bool)
        requires
            old(self).wf(),
            i < j < old(self)@.len(),
        ensures
            final(self).wf(),
            final(self)@.len() == old(self)@.len(),
            !merged ==> final(self)@ == old(self)@ && pair_kept(
                old(self)@[i as int],
                old(self)@[j as int],
            ),
            merged ==> exists|join: Join|
                pair_joined(old(self)@, final(self)@, i as int, j as int, join),
            T::obeys_eq_spec() ==> merged == can_merge(old(self)@[i as int], old(self)@[j as int]),
            T::obeys_eq_spec() && merged ==> final(self)@ == old(self)@.update(
                i as int,
                joined(
                    old(self)@[i as int],
                    old(self)@[j as int],
                    join_of(old(self)@[i as int], old(self)@[j as int]),
                ),
            ),
    {
        let ghost before = self@;
        assert(before[i as int].len() > 0 && before[j as int].len() > 0);
        let (a, b) = borrow_mut_two(self.paths.as_mut_slice(), i, j);
        let merged = try_merge(a, b);
        proof {
            let join = choose|join: Join|
                join_said(before[i as int], before[j as int], join) && self@[i as int]
                    == #[trigger] joined(before[i as int], before[j as int], join);
            assert(self@ =~= before.update(
                i as int,
                joined(before[i as int], before[j as int], join),
            ));
            if !merged {
                lemma_joined_same_length(before[i as int], before[j as int], join);
                assert(self@ =~= before);
                assert(joined(before[i as int], before[j as int], join) == before[i as int]);
            } else {
                assert(pair_joined(before, self@, i as int, j as int, join));
                if T::obeys_eq_spec() {
                    assert(self@ =~= before.update(
                        i as int,
                        joined(
                            before[i as int],
                            before[j as int],
                            join_of(before[i as int], before[j as int]),
                        ),
                    ));
                }
            }
        }
        merged
    }

    /// Merges the first pair of paths that can be merged, if there is one.
    fn merge_once(&mut self)
        requires
            old(self).wf(),
        ensures
            final(self).wf(),
            old(self)@.len() - 1 <= final(self)@.len() <= old(self)@.len(),
            merged_or_same(old(self)@, final(self)@),
            T::obeys_eq_spec() ==> final(self)@ == merged_once(old(self)@),
    {
        if let Some(idx) = self.merge_find_index() {
            let ghost found = self@;
            self.paths.remove(idx);
            assert(self@ =~= found.remove(idx as int));
            assert(merged_into_some(old(self)@, found, idx as int));
            proof {
                if T::obeys_eq_spec() {
                    let i = choose|i: int| first_merge_step(old(self)@, found, i, idx as int);
                    let (i2, j2) = choose|i2: int, j2: int| first_mergeable(old(self)@, i2, j2);
                    lemma_first_mergeable_unique(old(self)@, i, idx as int, i2, j2);
                }
            }
        } else {
            proof {
                if T::obeys_eq_spec() {
                    assert forall|i: int, j: int| !first_mergeable(old(self)@, i, j) by {
                        if 0 <= i < j < old(self)@.len() {
                            assert(pair_before(i, j, old(self)@.len() as int, 0));
                        }
                    }
                }
            }
        }
    }

    /// Puts the segments one after the other into an empty group.
    pub fn from_segments(segments: &[Segment<T>]) -> (group: Self)
        ensures
            group.wf(),
            group@.len() <= segments@.len(),
            is_grouped(segments@, group@),
            T::obeys_eq_spec() ==> group@ == grouped(segments@),
    {
        let mut group = Self { paths: Vec::new() };
        let ghost mut states: Seq<Seq<Seq<T>>> = seq![group@];
        proof {
            assert(group@ =~= Seq::<Seq<T>>::empty());
            assert(segments@.subrange(0, 0) =~= Seq::empty());
        }
        let mut t: usize = 0;
        while t < segments.len()
            invariant
                t <= segments@.len(),
                group.wf(),
                group@.len() <= t,
                are_put_steps(segments@.subrange(0, t as int), states),
                states.last() == group@,
                T::obeys_eq_spec() ==> group@ == grouped(segments@.subrange(0, t as int)),
            decreases segments@.len() - t,
        {
            proof {
                assert(segments@.subrange(0, t as int + 1).drop_last() =~= segments@.subrange(
                    0,
                    t as int,
                ));
                assert(segments@.subrange(0, t as int).push(segments@[t as int])
                    =~= segments@.subrange(0, t as int + 1));
            }
            group.put(&segments[t]);
            proof {
                lemma_put_steps_grow(
                    segments@.subrange(0, t as int),
                    states,
                    segments@[t as int],
                    group@,
                );
                states = states.push(group@);
            }
            t += 1;
        }
        proof {
            assert(segments@.subrange(0, t as int) =~= segments@);
        }
        group
    }
}

} // verus!
