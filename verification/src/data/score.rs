//! Importance scores, held by their IEEE 754 single-precision bit pattern.
//!
//! A score may be any bit pattern, infinities and NaNs included. Scores are
//! ordered by `Score::rank`, which realises the IEEE 754 `totalOrder` predicate:
//! negative NaNs first, then negative numbers from the largest magnitude to
//! negative zero, then positive zero up to positive infinity, then positive NaNs.

use vstd::prelude::*;

verus! {

/// The first bit pattern whose sign bit is set.
pub const SIGN_BIT: u32 = 0x8000_0000;

/// The position of a bit pattern in the total order of single-precision values.
///
/// Patterns with a clear sign bit rank by their value as an integer. Patterns
/// with the sign bit set rank below all of those, in the reverse order of their
/// remaining bits, so that negative zero ranks `-1` and the all-ones pattern
/// ranks lowest.
pub open spec fn rank_of_bits(bits: u32) -> int {
    if bits < SIGN_BIT {
        bits as int
    } else {
        0x7FFF_FFFF - bits
    }
}

/// An importance score: one IEEE 754 single-precision value, kept as its bits.
#[derive(Clone, Copy, Debug, PartialEq, Eq, Structural)]
pub struct Score {
    pub bits: u32,
}

impl Score {
    /// The rank of this score in the total order.
    pub open spec fn rank(self) -> int {
        rank_of_bits(self.bits)
    }

    /// Wraps a bit pattern.
    pub fn from_bits(bits: u32) -> (score: Score)
        ensures
            score.bits == bits,
    {
        Score { bits }
    }

    /// The bit pattern of this score.
    pub fn to_bits(&self) -> (bits: u32)
        ensures
            bits == self.bits,
    {
        self.bits
    }

    /// The rank of this score in the total order, as a machine integer.
    pub fn ordinal(self) -> (ordinal: i64)
        ensures
            ordinal == self.rank(),
    {
        if self.bits < SIGN_BIT {
            self.bits as i64
        } else {
            0x7FFF_FFFFi64 - self.bits as i64
        }
    }

    /// Whether `self` comes before `other` in the total order, or is the same
    /// bit pattern.
    pub fn at_most(self, other: Score) -> (yes: bool)
        ensures
            yes == (self.rank() <= other.rank()),
    {
        self.ordinal() <= other.ordinal()
    }
}

/// Distinct bit patterns have distinct ranks: the order is total and
/// antisymmetric on bit patterns.
pub proof fn lemma_rank_injective(a: u32, b: u32)
    ensures
        rank_of_bits(a) == rank_of_bits(b) <==> a == b,
{
}

} // verus!
