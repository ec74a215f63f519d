use vstd::arithmetic::div_mod::{
    lemma_fundamental_div_mod, lemma_fundamental_div_mod_converse, lemma_mod_multiples_vanish,
    lemma_mod_bound, lemma_small_mod,
};
use vstd::prelude::*;

verus! {

/// The `k`-th term of the alternating offset sequence 0, 1, -1, 2, -2, 3, ...
pub open spec fn alternate_offset(k: nat) -> int {
    if k % 2 == 1 {
        (k as int + 1) / 2
    } else {
        -(k as int / 2)
    }
}

/// The position at which the alternating offset sequence reaches the offset `v`.
pub open spec fn alternate_index(v: int) -> nat {
    if v > 0 {
        (2 * v - 1) as nat
    } else {
        (-2 * v) as nat
    }
}

/// The offset sequence and [`alternate_index`] undo each other.
pub proof fn lemma_alternate_index_inverts(k: nat, v: int)
    ensures
        alternate_index(alternate_offset(k)) == k,
        alternate_offset(alternate_index(v)) == v,
{
}

/// The first `n` offsets are exactly the `n` consecutive integers from
/// `-((n - 1) / 2)` up to `n / 2`.
pub proof fn lemma_alternate_offsets_interval(n: nat, k: nat, v: int)
    ensures
        k < n ==> -((n - 1) / 2) <= alternate_offset(k) <= n / 2,
        -((n - 1) / 2) <= v <= n / 2 ==> alternate_index(v) < n,
{
}

/// Starting anywhere, the first `n` offsets reach every residue modulo `n`:
/// a search that probes `start + offset` for `n` offsets misses no index of a
/// ring of `n` places.
pub proof fn lemma_alternate_offsets_cover(n: nat, start: int, r: int) -> (k: nat)
    requires
        0 <= r < n,
    ensures
        k < n,
        (start + alternate_offset(k)) % (n as int) == r,
{
    let m = n as int;
    let lo = -((m - 1) / 2);
    let d = r - start - lo;
    let v = lo + d % m;
    lemma_mod_bound(d, m);
    lemma_fundamental_div_mod(d, m);
    let k = alternate_index(v);
    lemma_alternate_offsets_interval(n, k, v);
    lemma_alternate_index_inverts(k, v);
    assert(start + v == m * (-(d / m)) + r) by (nonlinear_arith)
        requires
            v == lo + d % m,
            d == m * (d / m) + d % m,
            d == r - start - lo,
    ;
    lemma_mod_multiples_vanish(-(d / m), r, m);
    lemma_small_mod(r as nat, n);
    k
}

/// Two different positions among the first `n` never land on the same
/// residue modulo `n`: no index of the ring is probed twice.
pub proof fn lemma_alternate_offsets_distinct(n: nat, start: int, k1: nat, k2: nat)
    requires
        k1 < n,
        k2 < n,
        (start + alternate_offset(k1)) % (n as int) == (start + alternate_offset(k2)) % (n as int),
    ensures
        k1 == k2,
{
    let m = n as int;
    let a = start + alternate_offset(k1);
    let b = start + alternate_offset(k2);
    lemma_alternate_offsets_interval(n, k1, 0);
    lemma_alternate_offsets_interval(n, k2, 0);
    lemma_fundamental_div_mod(a, m);
    lemma_fundamental_div_mod(b, m);
    let q = a / m - b / m;
    assert(a - b == m * q) by (nonlinear_arith)
        requires
            a == m * (a / m) + a % m,
            b == m * (b / m) + b % m,
            a % m == b % m,
            q == a / m - b / m,
    ;
    assert(-m < a - b < m);
    assert(q == 0) by (nonlinear_arith)
        requires
            a - b == m * q,
            -m < a - b < m,
            m > 0,
    ;
    lemma_alternate_index_inverts(k1, 0);
    lemma_alternate_index_inverts(k2, 0);
}

/// How many terms an [`AlternateIterator`] can produce before its counter is exhausted.
pub open spec fn alternate_capacity() -> nat {
    i32::MAX as nat
}

/// Walks the offsets 0, +1, -1, +2, -2, ... outwards from zero.
pub struct AlternateIterator {
    curr: i32,
    inc: i32,
    sign: i32,
}

impl AlternateIterator {
    #[verifier::type_invariant]
    spec fn well_formed(self) -> bool {
        &&& 0 <= self.inc
        &&& self.sign == if self.inc % 2 == 0 { 1int } else { -1int }
        &&& self.curr == if self.inc == 0 { 0 } else { alternate_offset((self.inc - 1) as nat) }
    }

    /// The number of terms already handed out.
    pub closed spec fn position(&self) -> nat {
        self.inc as nat
    }

    pub fn new() -> (it: Self)
        ensures
            it.position() == 0,
    {
        Self { curr: 0, inc: 0, sign: 1 }
    }

    /// Hands out the next offset of the sequence, or `None` once the counter is exhausted.
    pub fn next(&mut self) -> (item: Option<i32>)
        ensures
            old(self).position() < alternate_capacity() ==> {
                &&& item == Some(alternate_offset(old(self).position()) as i32)
                &&& i32::MIN <= alternate_offset(old(self).position()) <= i32::MAX
                &&& final(self).position() == old(self).position() + 1
            },
            old(self).position() >= alternate_capacity() ==> {
                &&& item is None
                &&& *final(self) == *old(self)
            },
    {
        proof {
            use_type_invariant(&*self);
        }
        if self.inc == i32::MAX {
            return None;
        }
        let sign: i32 = -self.sign;
        let step: i32 = if sign > 0 { self.inc } else { -self.inc };
        let curr: i32 = self.curr + step;
        let inc: i32 = self.inc + 1;
        *self = Self { curr, inc, sign };
        Some(curr)
    }

    /// Collects the next `n` offsets, or as many as are left.
    pub fn take(self, n: usize) -> (items: Vec<i32>)
        ensures
            items@.len() == if self.position() + n <= alternate_capacity() {
                n as int
            } else {
                alternate_capacity() - self.position()
            },
            forall|t: int|
                0 <= t < items@.len() ==> #[trigger] items@[t] == alternate_offset(
                    (self.position() + t) as nat,
                ),
    {
        let ghost start = self.position();
        let mut it = self;
        proof {
            use_type_invariant(&it);
        }
        let mut items: Vec<i32> = Vec::new();
        let mut taken: usize = 0;
        while taken < n
            invariant
                taken <= n,
                items@.len() == taken,
                start == self.position(),
                it.position() == start + taken,
                it.position() <= alternate_capacity(),
                forall|t: int|
                    0 <= t < items@.len() ==> #[trigger] items@[t] == alternate_offset(
                        (start + t) as nat,
                    ),
            decreases n - taken,
        {
            match it.next() {
                Some(offset) => {
                    items.push(offset);
                    taken += 1;
                },
                None => {
                    return items;
                },
            }
        }
        items
    }
}

} // verus!
