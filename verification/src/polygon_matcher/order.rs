use vstd::prelude::*;
use vstd::seq_lib::{lemma_multiset_commutative, to_multiset_build};

use crate::traits::vertex::Vertex;

verus! {

/// The vertex type put `a` before `b`: it found `a` not longer than `b`, or
/// `b` longer than `a`.
pub open spec fn in_order<P: Vertex>(a: P::Length, b: P::Length) -> bool {
    call_ensures(P::longer, (a, b), false) || call_ensures(P::longer, (b, a), true)
}

/// The vertex type put each of the lengths before the one that follows it.
pub open spec fn is_ascending<P: Vertex>(lengths: Seq<P::Length>) -> bool {
    forall|k: int| 0 <= k < lengths.len() - 1 ==> in_order::<P>(lengths[k], #[trigger] lengths[k + 1])
}

/// The lengths of two ascending lists in one ascending list. Of a length of
/// `a` and a length of `b`, that of `a` comes first unless the vertex type
/// found it longer.
pub fn merge<P: Vertex>(a: &Vec<P::Length>, b: &Vec<P::Length>) -> (merged: Vec<P::Length>)
    requires
        is_ascending::<P>(a@),
        is_ascending::<P>(b@),
        a@.len() + b@.len() <= usize::MAX,
    ensures
        is_ascending::<P>(merged@),
        merged@.len() == a@.len() + b@.len(),
        merged@.to_multiset() == a@.to_multiset().add(b@.to_multiset()),
{
    let n: usize = a.len();
    let m: usize = b.len();
    let mut merged: Vec<P::Length> = Vec::new();
    let mut i: usize = 0;
    let mut j: usize = 0;
    proof {
        assert(a@.subrange(0, 0) =~= Seq::empty());
        assert(b@.subrange(0, 0) =~= Seq::empty());
        assert(merged@.to_multiset() =~= a@.subrange(0, 0).to_multiset().add(
            b@.subrange(0, 0).to_multiset(),
        )) by {
            broadcast use vstd::multiset::group_multiset_axioms;
            broadcast use vstd::seq_lib::group_to_multiset_ensures;

        }
    }
    while i < n || j < m
        invariant
            n == a@.len(),
            m == b@.len(),
            n + m <= usize::MAX,
            i <= n,
            j <= m,
            is_ascending::<P>(a@),
            is_ascending::<P>(b@),
            is_ascending::<P>(merged@),
            merged@.len() == i + j,
            merged@.to_multiset() == a@.subrange(0, i as int).to_multiset().add(
                b@.subrange(0, j as int).to_multiset(),
            ),
            merged@.len() > 0 && i < n ==> in_order::<P>(merged@.last(), a@[i as int]),
            merged@.len() > 0 && j < m ==> in_order::<P>(merged@.last(), b@[j as int]),
        decreases (n - i) + (m - j),
    {
        let ghost before = merged@;
        let from_a: bool = if i == n {
            false
        } else if j == m {
            true
        } else {
            !P::longer(a[i], b[j])
        };
        if from_a {
            let x: P::Length = a[i];
            merged.push(x);
            proof {
                assert(a@.subrange(0, i as int).push(x) =~= a@.subrange(0, i as int + 1));
                to_multiset_build(before, x);
                to_multiset_build(a@.subrange(0, i as int), x);
                assert(merged@.to_multiset() =~= a@.subrange(0, i as int + 1).to_multiset().add(
                    b@.subrange(0, j as int).to_multiset(),
                )) by {
                    broadcast use vstd::multiset::group_multiset_axioms;

                }
                if i + 1 < n {
                    assert(in_order::<P>(a@[i as int], a@[i as int + 1]));
                }
            }
            i += 1;
        } else {
            let x: P::Length = b[j];
            merged.push(x);
            proof {
                assert(b@.subrange(0, j as int).push(x) =~= b@.subrange(0, j as int + 1));
                to_multiset_build(before, x);
                to_multiset_build(b@.subrange(0, j as int), x);
                assert(merged@.to_multiset() =~= a@.subrange(0, i as int).to_multiset().add(
                    b@.subrange(0, j as int + 1).to_multiset(),
                )) by {
                    broadcast use vstd::multiset::group_multiset_axioms;

                }
                if j + 1 < m {
                    assert(in_order::<P>(b@[j as int], b@[j as int + 1]));
                }
            }
            j += 1;
        }
        proof {
            assert forall|k: int| 0 <= k < merged@.len() - 1 implies in_order::<P>(
                merged@[k],
                #[trigger] merged@[k + 1],
            ) by {
                if k + 1 < before.len() {
                    assert(merged@[k] == before[k]);
                    assert(merged@[k + 1] == before[k + 1]);
                } else {
                    assert(merged@[k] == before.last());
                }
            }
        }
    }
    proof {
        assert(a@.subrange(0, n as int) =~= a@);
        assert(b@.subrange(0, m as int) =~= b@);
    }
    merged
}

/// The lengths from place `lo` up to place `hi`, in ascending order.
fn ascending_range<P: Vertex>(lengths: &Vec<P::Length>, lo: usize, hi: usize) -> (sorted: Vec<
    P::Length,
>)
    requires
        lo <= hi <= lengths@.len(),
    ensures
        is_ascending::<P>(sorted@),
        sorted@.len() == hi - lo,
        sorted@.to_multiset() == lengths@.subrange(lo as int, hi as int).to_multiset(),
    decreases hi - lo,
{
    if hi - lo < 2 {
        let mut sorted: Vec<P::Length> = Vec::new();
        if hi - lo == 1 {
            sorted.push(lengths[lo]);
        }
        assert(sorted@ =~= lengths@.subrange(lo as int, hi as int));
        return sorted;
    }
    let mid: usize = lo + (hi - lo) / 2;
    let left: Vec<P::Length> = ascending_range::<P>(lengths, lo, mid);
    let right: Vec<P::Length> = ascending_range::<P>(lengths, mid, hi);
    proof {
        lemma_multiset_commutative(
            lengths@.subrange(lo as int, mid as int),
            lengths@.subrange(mid as int, hi as int),
        );
        assert(lengths@.subrange(lo as int, mid as int) + lengths@.subrange(mid as int, hi as int)
            =~= lengths@.subrange(lo as int, hi as int));
    }
    merge::<P>(&left, &right)
}

/// The lengths in ascending order, as the vertex type compares them.
pub fn ascending<P: Vertex>(lengths: &Vec<P::Length>) -> (sorted: Vec<P::Length>)
    ensures
        is_ascending::<P>(sorted@),
        sorted@.len() == lengths@.len(),
        sorted@.to_multiset() == lengths@.to_multiset(),
{
    proof {
        assert(lengths@.subrange(0, lengths@.len() as int) =~= lengths@);
    }
    ascending_range::<P>(lengths, 0, lengths.len())
}

} // verus!
