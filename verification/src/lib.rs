//! An explicit bijection between the natural numbers and the ordered pairs
//! of natural numbers, witnessing that the set of pairs is countable.
//!
//! The enumeration walks the antidiagonals: for each diagonal `d = a + b` in
//! increasing order it visits the pairs `(a, d - a)` with `a` ascending. Two
//! components realise it. The sequencer ([`OrderedPairGenerator`]) holds the
//! last pair produced and steps to its successor on every advance. The
//! indexer ([`fst`], [`snd`], [`index_to_pair`], [`pair_to_index`]) maps a
//! position to the pair standing there, and back, in closed form.
//!
//! The module [`pairing`] holds the mathematical model of the enumeration and
//! the proofs that it is a bijection: every position is recovered from its
//! pair, every pair from its position, distinct positions hold distinct
//! pairs, and the sequencer agrees with the indexer.

pub mod indexer;
pub mod pairing;
pub mod sequencer;

pub use indexer::MAX_TRIANGULAR;
pub use indexer::fst;
pub use indexer::index_to_pair;
pub use indexer::pair_to_index;
pub use indexer::snd;
pub use sequencer::OrderedPairGenerator;
