//! The sequencer: a cursor over the antidiagonal enumeration that steps to
//! the successor of its current pair on every advance.

use crate::pairing::successor;
use vstd::prelude::*;

verus! {

/// A cursor positioned at the last pair produced (or at its seed, before
/// the first advance). Advancing always computes a successor first, so a
/// generator seeded at `(0, 0)` never yields the seed itself: its first
/// advance yields `(0, 1)`, the pair at position 1 of the enumeration.
pub struct OrderedPairGenerator {
    /// The last pair produced, or the seed.
    pub p: (u32, u32),
}

impl OrderedPairGenerator {
    /// A generator seeded at the origin `(0, 0)`.
    pub fn new() -> (r: OrderedPairGenerator)
        ensures
            r.p == (0u32, 0u32),
    {
        OrderedPairGenerator { p: (0, 0) }
    }

    /// A generator seeded at the caller's pair `p`.
    pub fn newp(p: (u32, u32)) -> (r: OrderedPairGenerator)
        ensures
            r.p == p,
    {
        OrderedPairGenerator { p }
    }

    /// Step to the successor of the current pair and return it.
    ///
    /// Each branch of the successor rule increments the first coordinate or
    /// moves it into the second, so the first coordinate must sit below
    /// `u32::MAX`; that bound is exactly what the machine forces.
    pub fn advance(&mut self) -> (r: (u32, u32))
        requires
            old(self).p.0 < u32::MAX,
        ensures
            (final(self).p.0 as nat, final(self).p.1 as nat) == successor(
                (old(self).p.0 as nat, old(self).p.1 as nat),
            ),
            r == final(self).p,
    {
        if self.p.1 == 0 {
            self.p = (0, self.p.0 + 1);
        } else {
            self.p = (self.p.0 + 1, self.p.1 - 1);
        }
        self.p
    }
}

} // verus!
