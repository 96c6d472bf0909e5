//! Gap-aware identity of two aligned sequences.
//!
//! A position at which both sequences hold the gap symbol is left out. Every
//! other position is compared, and it is a match when the two symbols agree.
//! The identity of the pair is the fraction of matches among the compared
//! positions, kept here as the two counts so that scores are compared exactly.
//! A pair with no compared position has identity zero.

use vstd::prelude::*;

verus! {

/// The symbol that stands for an alignment gap, `-`.
pub const GAP: u8 = 45;

/// A position takes part in the comparison unless both symbols are gaps.
pub open spec fn is_compared(a: u8, b: u8) -> bool {
    !(a == GAP && b == GAP)
}

/// A compared position on which the two symbols agree.
pub open spec fn is_match(a: u8, b: u8) -> bool {
    is_compared(a, b) && a == b
}

/// Number of compared positions among the first `n`.
pub open spec fn compared_in(x: Seq<u8>, y: Seq<u8>, n: nat) -> nat
    decreases n,
{
    if n == 0 {
        0
    } else {
        let rest = compared_in(x, y, (n - 1) as nat);
        if is_compared(x[n - 1], y[n - 1]) {
            rest + 1
        } else {
            rest
        }
    }
}

/// Number of matches among the first `n` positions.
pub open spec fn matched_in(x: Seq<u8>, y: Seq<u8>, n: nat) -> nat
    decreases n,
{
    if n == 0 {
        0
    } else {
        let rest = matched_in(x, y, (n - 1) as nat);
        if is_match(x[n - 1], y[n - 1]) {
            rest + 1
        } else {
            rest
        }
    }
}

/// Number of compared positions of two sequences of one length.
pub open spec fn compared(x: Seq<u8>, y: Seq<u8>) -> nat {
    compared_in(x, y, x.len())
}

/// Number of matches of two sequences of one length.
pub open spec fn matched(x: Seq<u8>, y: Seq<u8>) -> nat {
    matched_in(x, y, x.len())
}

/// The identity of a pair of sequences: how many positions were compared and
/// how many of them match.
#[derive(Debug, Clone, Copy, PartialEq, Eq)]
pub struct Identity {
    /// Compared positions on which the sequences agree.
    pub matched: u64,
    /// Positions at which not both sequences have a gap.
    pub compared: u64,
}

impl Identity {
    /// No more matches than compared positions.
    pub open spec fn wf(self) -> bool {
        self.matched <= self.compared
    }

    /// The denominator of the fraction; a pair without compared positions
    /// counts as zero out of one.
    pub open spec fn denominator(self) -> int {
        if self.compared == 0 {
            1
        } else {
            self.compared as int
        }
    }

    /// `self` is at least as large a fraction as `other`.
    pub open spec fn at_least(self, other: Identity) -> bool {
        self.matched * other.denominator() >= other.matched * self.denominator()
    }

    /// The counts for the sequences `x` and `y`.
    pub open spec fn of(x: Seq<u8>, y: Seq<u8>) -> Identity {
        Identity { matched: matched(x, y) as u64, compared: compared(x, y) as u64 }
    }

    /// The identity that every other one reaches: no match.
    pub fn zero() -> (r: Identity)
        ensures
            r.matched == 0,
            r.compared == 0,
    {
        Identity { matched: 0, compared: 0 }
    }

    /// Numerator and denominator of the fraction, for callers that show it
    /// as a number. The denominator is never zero.
    pub fn fraction(&self) -> (r: (u64, u64))
        ensures
            r.0 == self.matched,
            r.1 == self.denominator(),
            r.1 > 0,
    {
        if self.compared == 0 {
            (self.matched, 1)
        } else {
            (self.matched, self.compared)
        }
    }

    /// Compares two identities as fractions, exactly.
    pub fn is_at_least(&self, other: &Identity) -> (r: bool)
        ensures
            r == self.at_least(*other),
    {
        let own: u128 = if self.compared == 0 {
            1
        } else {
            self.compared as u128
        };
        let others: u128 = if other.compared == 0 {
            1
        } else {
            other.compared as u128
        };
        let left_factor: u128 = self.matched as u128;
        let right_factor: u128 = other.matched as u128;
        assert(left_factor * others <= 0xffff_ffff_ffff_ffff * 0xffff_ffff_ffff_ffff)
            by (nonlinear_arith)
            requires
                left_factor <= 0xffff_ffff_ffff_ffff,
                others <= 0xffff_ffff_ffff_ffff,
        ;
        assert(right_factor * own <= 0xffff_ffff_ffff_ffff * 0xffff_ffff_ffff_ffff)
            by (nonlinear_arith)
            requires
                right_factor <= 0xffff_ffff_ffff_ffff,
                own <= 0xffff_ffff_ffff_ffff,
        ;
        left_factor * others >= right_factor * own
    }
}

/// The counts never exceed the number of positions looked at, and there are
/// no more matches than compared positions.
pub proof fn lemma_counts_bounded(x: Seq<u8>, y: Seq<u8>, n: nat)
    ensures
        matched_in(x, y, n) <= compared_in(x, y, n) <= n,
    decreases n,
{
    if n > 0 {
        lemma_counts_bounded(x, y, (n - 1) as nat);
    }
}

/// For sequences whose length fits the counters, the identity holds the two
/// counts themselves.
pub proof fn lemma_identity_exact(x: Seq<u8>, y: Seq<u8>)
    requires
        x.len() <= u64::MAX,
    ensures
        Identity::of(x, y).matched == matched(x, y),
        Identity::of(x, y).compared == compared(x, y),
        Identity::of(x, y).wf(),
{
    lemma_counts_bounded(x, y, x.len());
}

/// Identity does not depend on the order of the two sequences.
pub proof fn lemma_identity_symmetric(x: Seq<u8>, y: Seq<u8>)
    requires
        x.len() == y.len(),
    ensures
        matched(x, y) == matched(y, x),
        compared(x, y) == compared(y, x),
        Identity::of(x, y) == Identity::of(y, x),
{
    lemma_counts_symmetric(x, y, x.len());
}

proof fn lemma_counts_symmetric(x: Seq<u8>, y: Seq<u8>, n: nat)
    ensures
        matched_in(x, y, n) == matched_in(y, x, n),
        compared_in(x, y, n) == compared_in(y, x, n),
    decreases n,
{
    if n > 0 {
        lemma_counts_symmetric(x, y, (n - 1) as nat);
    }
}

/// A sequence compared with itself matches on every compared position, and
/// these are its positions that hold no gap. With one such position the
/// identity is one: as many matches as compared positions, and not zero.
pub proof fn lemma_identity_self(x: Seq<u8>)
    requires
        exists|i: int| 0 <= i < x.len() && x[i] != GAP,
    ensures
        matched(x, x) == compared(x, x),
        compared(x, x) > 0,
        Identity::of(x, x).matched == Identity::of(x, x).compared,
{
    let i = choose|i: int| 0 <= i < x.len() && x[i] != GAP;
    lemma_self_counts(x, x.len());
    lemma_compared_counts_position(x, x, x.len(), i);
}

proof fn lemma_self_counts(x: Seq<u8>, n: nat)
    ensures
        matched_in(x, x, n) == compared_in(x, x, n),
    decreases n,
{
    if n > 0 {
        lemma_self_counts(x, (n - 1) as nat);
    }
}

/// A compared position below `n` makes the count of the first `n` positive.
proof fn lemma_compared_counts_position(x: Seq<u8>, y: Seq<u8>, n: nat, i: int)
    requires
        0 <= i < n,
        is_compared(x[i], y[i]),
    ensures
        compared_in(x, y, n) > 0,
    decreases n,
{
    if i < n - 1 {
        lemma_compared_counts_position(x, y, (n - 1) as nat, i);
    }
}

/// Only the symbols below `n` count.
proof fn lemma_counts_depend_on_prefix(x: Seq<u8>, y: Seq<u8>, u: Seq<u8>, v: Seq<u8>, n: nat)
    requires
        forall|i: int| 0 <= i < n ==> x[i] == u[i] && y[i] == v[i],
    ensures
        matched_in(x, y, n) == matched_in(u, v, n),
        compared_in(x, y, n) == compared_in(u, v, n),
    decreases n,
{
    if n > 0 {
        lemma_counts_depend_on_prefix(x, y, u, v, (n - 1) as nat);
    }
}

/// Taking out positions from `i` on: the counts of the first `n` positions of
/// the shortened pair are those of the full pair without position `i`.
proof fn lemma_counts_skip_position(x: Seq<u8>, y: Seq<u8>, i: int, n: nat)
    requires
        x.len() == y.len(),
        0 <= i < x.len(),
        i <= n < x.len(),
        !is_compared(x[i], y[i]),
    ensures
        matched_in(x.remove(i), y.remove(i), n) == matched_in(x, y, (n + 1) as nat),
        compared_in(x.remove(i), y.remove(i), n) == compared_in(x, y, (n + 1) as nat),
    decreases n,
{
    if n == i {
        lemma_counts_depend_on_prefix(x.remove(i), y.remove(i), x, y, n);
    } else {
        lemma_counts_skip_position(x, y, i, (n - 1) as nat);
    }
}

/// A position at which both sequences have a gap adds to neither count: with
/// that position taken out of both sequences the identity is the same.
pub proof fn lemma_double_gap_excluded(x: Seq<u8>, y: Seq<u8>, i: int)
    requires
        x.len() == y.len(),
        0 <= i < x.len(),
        x[i] == GAP,
        y[i] == GAP,
    ensures
        matched(x.remove(i), y.remove(i)) == matched(x, y),
        compared(x.remove(i), y.remove(i)) == compared(x, y),
        Identity::of(x.remove(i), y.remove(i)) == Identity::of(x, y),
{
    lemma_counts_skip_position(x, y, i, (x.len() - 1) as nat);
}

/// Of two identities one is at least the other.
pub proof fn lemma_at_least_total(a: Identity, b: Identity)
    ensures
        a.at_least(b) || b.at_least(a),
{
}

/// The order of identities is transitive.
pub proof fn lemma_at_least_transitive(a: Identity, b: Identity, c: Identity)
    requires
        a.at_least(b),
        b.at_least(c),
    ensures
        a.at_least(c),
{
    let (am, ad) = (a.matched as int, a.denominator());
    let (bm, bd) = (b.matched as int, b.denominator());
    let (cm, cd) = (c.matched as int, c.denominator());
    assert(am * cd >= cm * ad) by (nonlinear_arith)
        requires
            am * bd >= bm * ad,
            bm * cd >= cm * bd,
            am >= 0,
            bm >= 0,
            cm >= 0,
            ad > 0,
            bd > 0,
            cd > 0,
    ;
}

} // verus!
