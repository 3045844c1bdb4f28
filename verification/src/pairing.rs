//! The mathematical model of the antidiagonal enumeration of the pairs of
//! natural numbers: the successor rule, the pair at each position, the
//! triangular numbers, and the proofs that the enumeration is a bijection.

use vstd::prelude::*;

verus! {

/// The pair visited immediately after `p`. When the second coordinate has
/// reached zero the diagonal is exhausted and the walk restarts at
/// `(0, a + 1)`, the first pair of the next diagonal; otherwise it takes one
/// step along the current diagonal.
pub open spec fn successor(p: (nat, nat)) -> (nat, nat) {
    if p.1 == 0 {
        (0, p.0 + 1)
    } else {
        (p.0 + 1, (p.1 - 1) as nat)
    }
}

/// The pair at position `n` of the enumeration: position 0 holds `(0, 0)`,
/// and each later position holds the successor of the pair before it.
pub open spec fn pair_at(n: nat) -> (nat, nat)
    decreases n,
{
    if n == 0 {
        (0, 0)
    } else {
        successor(pair_at((n - 1) as nat))
    }
}

/// The pair `p` advanced `k` times by the successor rule: the pair a
/// sequencer seeded at `p` holds after its `k`-th advance.
pub open spec fn nth_successor(p: (nat, nat), k: nat) -> (nat, nat)
    decreases k,
{
    if k == 0 {
        p
    } else {
        successor(nth_successor(p, (k - 1) as nat))
    }
}

/// The `d`-th triangular number: the count of pairs on the diagonals before
/// diagonal `d`, so also the position at which diagonal `d` starts.
pub open spec fn triangular(d: nat) -> nat
    decreases d,
{
    if d == 0 {
        0
    } else {
        d + triangular((d - 1) as nat)
    }
}

/// The position at which the pair `p` appears in the enumeration: all of
/// diagonals `0 .. a + b` come first, then the `a` pairs before `p` on its
/// own diagonal.
pub open spec fn index_of(p: (nat, nat)) -> nat {
    triangular(p.0 + p.1) + p.0
}

/// The recursive definition of `triangular` matches the closed form
/// `d * (d + 1) / 2`.
pub proof fn lemma_triangular_closed_form(d: nat)
    ensures
        2 * triangular(d) == d * (d + 1),
    decreases d,
{
    if d == 0 {
        assert(triangular(0) == 0);
    } else {
        let e: nat = (d - 1) as nat;
        lemma_triangular_closed_form(e);
        assert(triangular(d) == d + triangular(e));
        assert(2 * triangular(d) == 2 * d + 2 * triangular(e));
        assert(2 * d + e * (e + 1) == d * (d + 1)) by (nonlinear_arith)
            requires
                e + 1 == d,
        ;
    }
}

/// Triangular numbers grow with the diagonal, strictly so for a strictly
/// larger diagonal.
pub proof fn lemma_triangular_monotonic(d1: nat, d2: nat)
    requires
        d1 <= d2,
    ensures
        triangular(d1) <= triangular(d2),
        d1 < d2 ==> triangular(d1) < triangular(d2),
    decreases d2,
{
    if d1 < d2 {
        lemma_triangular_monotonic(d1, (d2 - 1) as nat);
    }
}

/// The largest triangular number representable in a `u32` is
/// `triangular(92681) == 4294930221`; the next one exceeds `u32::MAX`.
pub proof fn lemma_triangular_u32_bound()
    ensures
        triangular(92681) == 4294930221,
{
    lemma_triangular_closed_form(92681);
}

/// The closed form of the enumeration: on diagonal `d`, the pair standing
/// `a` positions past the diagonal's start is `(a, d - a)`.
pub proof fn lemma_pair_at_diagonal(d: nat, a: nat)
    requires
        a <= d,
    ensures
        pair_at(triangular(d) + a) == (a, (d - a) as nat),
    decreases d, a,
{
    if a == 0 {
        if d > 0 {
            lemma_pair_at_diagonal((d - 1) as nat, (d - 1) as nat);
            assert(triangular(d) == d + triangular((d - 1) as nat));
            assert(pair_at(triangular(d)) == successor(pair_at((triangular(d) - 1) as nat)));
        }
    } else {
        lemma_pair_at_diagonal(d, (a - 1) as nat);
        assert(pair_at(triangular(d) + a) == successor(pair_at((triangular(d) + a - 1) as nat)));
    }
}

/// Stepping to the successor advances the position by exactly one: the
/// successor rule and the closed-form position agree step by step.
pub proof fn lemma_index_of_successor(p: (nat, nat))
    ensures
        index_of(successor(p)) == index_of(p) + 1,
{
    if p.1 == 0 {
        assert(triangular(p.0 + 1) == p.0 + 1 + triangular(p.0));
    }
}

/// Every position is recovered from its pair: asking for the position of
/// the pair at position `n` returns `n`.
pub proof fn lemma_index_round_trip(n: nat)
    ensures
        index_of(pair_at(n)) == n,
    decreases n,
{
    if n > 0 {
        lemma_index_round_trip((n - 1) as nat);
        lemma_index_of_successor(pair_at((n - 1) as nat));
    }
}

/// Every pair is recovered from its position: the pair standing at the
/// position of `(a, b)` is `(a, b)` itself.
pub proof fn lemma_pair_round_trip(a: nat, b: nat)
    ensures
        pair_at(index_of((a, b))) == (a, b),
{
    lemma_pair_at_diagonal(a + b, a);
}

/// Distinct positions hold distinct pairs: the enumeration never repeats.
pub proof fn lemma_no_collision(n1: nat, n2: nat)
    requires
        n1 != n2,
    ensures
        pair_at(n1) != pair_at(n2),
{
    lemma_index_round_trip(n1);
    lemma_index_round_trip(n2);
}

/// The sequencer and the indexer agree: the pair a sequencer seeded at
/// `(0, 0)` holds after its `k`-th advance is the pair at position `k`. The
/// seed itself is never re-emitted, so the first advance already yields the
/// pair at position 1.
pub proof fn lemma_sequencer_matches_indexer(k: nat)
    requires
        1 <= k,
    ensures
        nth_successor((0, 0), k) == pair_at(k),
    decreases k,
{
    if k == 1 {
        assert(nth_successor((0, 0), 0) == (0nat, 0nat));
        assert(pair_at(0) == (0nat, 0nat));
    } else {
        lemma_sequencer_matches_indexer((k - 1) as nat);
    }
}

} // verus!
