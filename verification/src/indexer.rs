//! The indexer: direct access into the antidiagonal enumeration. `fst` and
//! `snd` compute the two coordinates of the pair at a given position by
//! accumulating triangular numbers, exactly as the sequencer would reach it
//! but without replaying the walk; `pair_to_index` is their inverse.

use crate::pairing::index_of;
use crate::pairing::lemma_pair_at_diagonal;
use crate::pairing::lemma_triangular_monotonic;
use crate::pairing::lemma_triangular_u32_bound;
use crate::pairing::pair_at;
use crate::pairing::triangular;
use vstd::prelude::*;

verus! {

/// The largest triangular number that fits in a `u32`: `triangular(92681)`.
/// Past it the running totals kept by `fst` and `snd` would overflow, so it
/// bounds the positions they accept.
pub const MAX_TRIANGULAR: u32 = 4294930221;

/// The first coordinate of the pair at position `n`.
///
/// The running total `i` visits the triangular numbers until it reaches
/// `n`; the largest total it can touch is the first triangular number at or
/// above `n`, so `n` may go up to `MAX_TRIANGULAR` itself.
pub fn fst(n: u32) -> (r: u32)
    requires
        n <= MAX_TRIANGULAR,
    ensures
        r as nat == pair_at(n as nat).0,
{
    proof {
        lemma_triangular_u32_bound();
    }
    let mut i: u32 = 0;
    let mut inc: u32 = 1;
    let ghost mut k: nat = 0;
    while i < n
        invariant
            n <= MAX_TRIANGULAR,
            i as nat == triangular(k),
            inc as nat == k + 1,
            k <= 92681,
            k > 0 ==> triangular((k - 1) as nat) < n as nat,
            triangular(92681) == 4294930221,
        decreases 92682 - k,
    {
        proof {
            assert(triangular(k + 1) == k + 1 + triangular(k));
            if k >= 92681 {
                lemma_triangular_monotonic(92681, k);
            }
            lemma_triangular_monotonic(k + 1, 92681);
        }
        i += inc;
        inc += 1;
        proof {
            k = k + 1;
        }
    }
    if i == n {
        proof {
            lemma_pair_at_diagonal(k, 0);
        }
        0
    } else {
        proof {
            let d: nat = (k - 1) as nat;
            assert(triangular(k) == k + triangular(d));
            lemma_pair_at_diagonal(d, (n as nat - triangular(d)) as nat);
        }
        i -= inc - 1;
        n - i
    }
}

/// The second coordinate of the pair at position `n`.
///
/// The running total `i` here sits one below a triangular number and must
/// pass `n` strictly, so it touches the triangular number of one diagonal
/// further than `fst` does; the machine therefore forces the strict bound.
pub fn snd(n: u32) -> (r: u32)
    requires
        n < MAX_TRIANGULAR,
    ensures
        r as nat == pair_at(n as nat).1,
{
    proof {
        lemma_triangular_u32_bound();
        assert(triangular(0) == 0);
        assert(triangular(1) == 1);
    }
    let mut i: u32 = 0;
    let mut inc: u32 = 2;
    let ghost mut k: nat = 0;
    while i < n
        invariant
            n < MAX_TRIANGULAR,
            i as nat + 1 == triangular(k + 1),
            inc as nat == k + 2,
            k <= 92680,
            k > 0 ==> triangular(k) <= n as nat,
            triangular(92681) == 4294930221,
        decreases 92681 - k,
    {
        proof {
            assert(triangular(k + 2) == k + 2 + triangular(k + 1));
            if k + 1 >= 92681 {
                lemma_triangular_monotonic(92681, k + 1);
            }
            lemma_triangular_monotonic(k + 2, 92681);
        }
        i += inc;
        inc += 1;
        proof {
            k = k + 1;
        }
    }
    proof {
        if k == 0 {
            lemma_pair_at_diagonal(0, 0);
        } else {
            assert(triangular(k + 1) == k + 1 + triangular(k));
            lemma_pair_at_diagonal(k, (n as nat - triangular(k)) as nat);
        }
    }
    i - n
}

/// The pair at position `n` of the enumeration; position 0 holds `(0, 0)`.
pub fn index_to_pair(n: u32) -> (r: (u32, u32))
    requires
        n < MAX_TRIANGULAR,
    ensures
        (r.0 as nat, r.1 as nat) == pair_at(n as nat),
{
    (fst(n), snd(n))
}

/// The position at which the pair `p` stands in the enumeration:
/// `triangular(a + b) + a`. The position must fit in a `u32`; that bound is
/// exactly what the machine forces, and every pair inside it is accepted.
pub fn pair_to_index(p: (u32, u32)) -> (r: u32)
    requires
        index_of((p.0 as nat, p.1 as nat)) <= u32::MAX,
    ensures
        r as nat == index_of((p.0 as nat, p.1 as nat)),
{
    proof {
        let s: nat = p.0 as nat + p.1 as nat;
        if s > 0 {
            assert(triangular(s) == s + triangular((s - 1) as nat));
        }
    }
    let d = p.0 + p.1;
    let mut t: u32 = 0;
    let mut j: u32 = 0;
    while j < d
        invariant
            t as nat == triangular(j as nat),
            j <= d,
            d == p.0 + p.1,
            index_of((p.0 as nat, p.1 as nat)) <= u32::MAX,
        decreases d - j,
    {
        j += 1;
        proof {
            assert(triangular(j as nat) == j as nat + triangular((j - 1) as nat));
            lemma_triangular_monotonic(j as nat, d as nat);
        }
        t += j;
    }
    t + p.0
}

} // verus!
