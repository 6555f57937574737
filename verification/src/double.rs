//! IEEE 754 double-precision numbers held as their bit patterns.
//!
//! Whoever stores or adds such numbers does it with floating-point hardware. What is
//! decided here — which of two is larger, whether a number is usable at all, where it
//! has to be cut off — depends on the order of the numbers alone, and that order is an
//! order on the bit patterns.

use vstd::prelude::*;

verus! {

/// The bit that carries the sign.
pub const SIGN_BIT: u64 = 0x8000_0000_0000_0000;

/// The bit pattern of positive infinity; every larger magnitude is not a number.
pub const INFINITY_BITS: u64 = 0x7ff0_0000_0000_0000;

/// A double-precision number, as its bit pattern.
#[derive(Clone, Copy, Debug, PartialEq, Eq, Hash, Structural)]
pub struct Double {
    pub bits: u64,
}

/// The bit pattern of 0.0.
pub const ZERO: u64 = 0;

/// The bit pattern of 1.0.
pub const ONE: u64 = 0x3ff0_0000_0000_0000;

impl Double {
    /// Whether the sign bit is set.
    pub open spec fn negative(self) -> bool {
        self.bits >= SIGN_BIT
    }

    /// The bit pattern without its sign.
    pub open spec fn magnitude(self) -> int {
        if self.negative() {
            self.bits - SIGN_BIT
        } else {
            self.bits as int
        }
    }

    /// Not a number at all.
    pub open spec fn nan(self) -> bool {
        self.magnitude() > INFINITY_BITS
    }

    /// Neither infinite nor not a number.
    pub open spec fn finite(self) -> bool {
        self.magnitude() < INFINITY_BITS
    }

    /// A number that orders as the value does: both zeros are 0.
    pub open spec fn rank(self) -> int {
        if self.negative() {
            -self.magnitude()
        } else {
            self.magnitude()
        }
    }

    /// A number that orders as the total order does: -0 comes before +0, and what is
    /// not a number stands beyond the infinities.
    pub open spec fn total_rank(self) -> int {
        if self.negative() {
            -self.magnitude() - 1
        } else {
            self.magnitude()
        }
    }

    /// `self >= other`, false where either is not a number.
    pub open spec fn at_least(self, other: Double) -> bool {
        !self.nan() && !other.nan() && self.rank() >= other.rank()
    }

    /// `self < other`, false where either is not a number.
    pub open spec fn below(self, other: Double) -> bool {
        !self.nan() && !other.nan() && self.rank() < other.rank()
    }

    /// A number from 0 to 1.
    pub open spec fn is_share(self) -> bool {
        self.at_least(Double { bits: ZERO }) && (Double { bits: ONE }).at_least(self)
    }

    /// Cut off below `low` and above `high`; what is not a number stays as it is.
    pub open spec fn clamped(self, low: Double, high: Double) -> Double {
        if self.below(low) {
            low
        } else if high.below(self) {
            high
        } else {
            self
        }
    }

    /// The larger of two numbers, or the other one where one is not a number.
    pub open spec fn larger(self, other: Double) -> Double {
        if other.nan() || self.at_least(other) {
            self
        } else {
            other
        }
    }

    /// The smaller of two numbers, or the other one where one is not a number.
    pub open spec fn smaller(self, other: Double) -> Double {
        if other.nan() || other.at_least(self) {
            self
        } else {
            other
        }
    }

    /// Cut off to the range from 0 to 1; what is not finite becomes 0.
    pub open spec fn share(self) -> Double {
        if self.finite() {
            self.clamped(Double { bits: ZERO }, Double { bits: ONE })
        } else {
            Double { bits: ZERO }
        }
    }

    /// Whether the number is finite.
    pub fn is_finite(self) -> (yes: bool)
        ensures
            yes == self.finite(),
    {
        if self.bits >= SIGN_BIT {
            self.bits - SIGN_BIT < INFINITY_BITS
        } else {
            self.bits < INFINITY_BITS
        }
    }

    /// Whether the value is not a number.
    pub fn is_nan(self) -> (yes: bool)
        ensures
            yes == self.nan(),
    {
        if self.bits >= SIGN_BIT {
            self.bits - SIGN_BIT > INFINITY_BITS
        } else {
            self.bits > INFINITY_BITS
        }
    }

    fn rank_of(self) -> (rank: i64)
        ensures
            rank == self.rank(),
    {
        if self.bits >= SIGN_BIT {
            -((self.bits - SIGN_BIT) as i64)
        } else {
            self.bits as i64
        }
    }

    fn total_rank_of(self) -> (rank: i64)
        ensures
            rank == self.total_rank(),
    {
        if self.bits >= SIGN_BIT {
            -((self.bits - SIGN_BIT) as i64) - 1
        } else {
            self.bits as i64
        }
    }

    /// `self >= other`, false where either is not a number.
    pub fn ge(self, other: Double) -> (yes: bool)
        ensures
            yes == self.at_least(other),
    {
        !self.is_nan() && !other.is_nan() && self.rank_of() >= other.rank_of()
    }

    /// `self < other`, false where either is not a number.
    pub fn lt(self, other: Double) -> (yes: bool)
        ensures
            yes == self.below(other),
    {
        !self.is_nan() && !other.is_nan() && self.rank_of() < other.rank_of()
    }

    /// Whether `self` comes strictly before `other` in the total order.
    pub fn is_before(self, other: Double) -> (yes: bool)
        ensures
            yes == (self.total_rank() < other.total_rank()),
    {
        self.total_rank_of() < other.total_rank_of()
    }

    /// Cut off below `low` and above `high`.
    pub fn clamp(self, low: Double, high: Double) -> (cut: Double)
        ensures
            cut == self.clamped(low, high),
    {
        if self.lt(low) {
            low
        } else if high.lt(self) {
            high
        } else {
            self
        }
    }

    /// The larger of two numbers.
    pub fn max(self, other: Double) -> (most: Double)
        ensures
            most == self.larger(other),
    {
        if other.is_nan() || self.ge(other) {
            self
        } else {
            other
        }
    }

    /// The smaller of two numbers.
    pub fn min(self, other: Double) -> (least: Double)
        ensures
            least == self.smaller(other),
    {
        if other.is_nan() || other.ge(self) {
            self
        } else {
            other
        }
    }
}

/// Clamp into `[0,1]`, mapping non-finite input to 0.
///
/// Applied to every input rather than trusted: a probability can arrive from a stored
/// row, and one out-of-range value would make every posterior derived from it
/// meaningless.
pub fn clamp01(v: Double) -> (share: Double)
    ensures
        share == v.share(),
        share.is_share(),
{
    if v.is_finite() {
        v.clamp(Double { bits: ZERO }, Double { bits: ONE })
    } else {
        Double { bits: ZERO }
    }
}

/// Two numbers that the total order does not tell apart are the same bit pattern.
pub proof fn total_order_separates(a: Double, b: Double)
    ensures
        a.total_rank() == b.total_rank() ==> a == b,
{
}

/// The total order refines the order of values.
pub proof fn total_order_refines_value(a: Double, b: Double)
    ensures
        a.below(b) ==> a.total_rank() < b.total_rank(),
{
}

/// Cutting a share off again changes nothing.
pub proof fn share_is_idempotent(v: Double)
    ensures
        v.share().share() == v.share(),
        v.share().is_share(),
{
}

/// Numbers that are not negative order as their bit patterns do, negative ones the other way
/// round; the two zeros are equal, and what is not a number compares with nothing.
pub proof fn numbers_order_by_their_bits(a: Double, b: Double)
    ensures
        a.bits <= 0x7ff0_0000_0000_0000 && b.bits <= 0x7ff0_0000_0000_0000 ==> (a.at_least(b)
            <==> a.bits >= b.bits) && (a.below(b) <==> a.bits < b.bits),
        0x8000_0000_0000_0000 <= a.bits <= 0xfff0_0000_0000_0000 && 0x8000_0000_0000_0000 <= b.bits
            <= 0xfff0_0000_0000_0000 ==> (a.at_least(b) <==> a.bits <= b.bits) && (a.below(b)
            <==> a.bits > b.bits),
        0x8000_0000_0000_0000 <= a.bits <= 0xfff0_0000_0000_0000 && b.bits <= 0x7ff0_0000_0000_0000
            ==> b.at_least(a) && !b.below(a) && (a.at_least(b) <==> a.bits == 0x8000_0000_0000_0000
            && b.bits == 0) && (a.below(b) <==> !a.at_least(b)),
        0x7ff0_0000_0000_0000 < a.bits < 0x8000_0000_0000_0000 || a.bits > 0xfff0_0000_0000_0000
            ==> !a.at_least(b) && !b.at_least(a) && !a.below(b) && !b.below(a),
{
}

/// The total order: every pattern with the sign bit before every one without it, the ones
/// without it by their bits, the ones with it by their bits the other way round.
pub proof fn the_total_order_goes_by_bits(a: Double, b: Double)
    ensures
        a.bits < 0x8000_0000_0000_0000 && b.bits < 0x8000_0000_0000_0000 ==> (a.total_rank()
            < b.total_rank() <==> a.bits < b.bits),
        a.bits >= 0x8000_0000_0000_0000 && b.bits >= 0x8000_0000_0000_0000 ==> (a.total_rank()
            < b.total_rank() <==> a.bits > b.bits),
        a.bits >= 0x8000_0000_0000_0000 && b.bits < 0x8000_0000_0000_0000 ==> a.total_rank()
            < b.total_rank(),
{
}

/// Which numbers are finite, and which patterns are no number.
pub proof fn finite_is_below_infinity(a: Double)
    ensures
        a.finite() <==> a.bits < 0x7ff0_0000_0000_0000 || 0x8000_0000_0000_0000 <= a.bits
            < 0xfff0_0000_0000_0000,
        a.nan() <==> 0x7ff0_0000_0000_0000 < a.bits < 0x8000_0000_0000_0000 || a.bits
            > 0xfff0_0000_0000_0000,
{
}

/// Cutting off leaves a number within the range alone and moves any other to the nearer end.
pub proof fn cutting_off_moves_to_the_nearer_end(v: Double, low: Double, high: Double)
    requires
        high.at_least(low),
    ensures
        v.at_least(low) && high.at_least(v) ==> v.clamped(low, high) == v,
        v.below(low) ==> v.clamped(low, high) == low,
        high.below(v) ==> v.clamped(low, high) == high,
        v.nan() ==> v.clamped(low, high) == v,
{
}

/// The larger of two numbers is one of them and not less than either; beside what is no
/// number, it is the number. The smaller likewise.
pub proof fn the_larger_is_not_less(a: Double, b: Double)
    ensures
        a.larger(b) == a || a.larger(b) == b,
        a.smaller(b) == a || a.smaller(b) == b,
        !a.nan() && !b.nan() ==> a.larger(b).at_least(a) && a.larger(b).at_least(b) && a.at_least(
            a.smaller(b),
        ) && b.at_least(a.smaller(b)),
        a.nan() ==> a.larger(b) == b || b.nan(),
        b.nan() ==> a.larger(b) == a && a.smaller(b) == a,
        a.nan() && !b.nan() ==> a.smaller(b) == b,
{
}

/// The share of a number: itself from 0 to 1, 1 above, 0 below and where it is not finite.
pub proof fn a_share_is_the_nearest_probability(v: Double)
    ensures
        v.bits <= 0x3ff0_0000_0000_0000 ==> v.share() == v,
        0x3ff0_0000_0000_0000 < v.bits < 0x7ff0_0000_0000_0000 ==> v.share().bits
            == 0x3ff0_0000_0000_0000,
        0x8000_0000_0000_0000 < v.bits ==> v.share().bits == 0,
        0x7ff0_0000_0000_0000 <= v.bits < 0x8000_0000_0000_0000 ==> v.share().bits == 0,
        v.bits == 0x8000_0000_0000_0000 ==> v.share() == v,
        v.is_share() <==> v.bits <= 0x3ff0_0000_0000_0000 || v.bits == 0x8000_0000_0000_0000,
{
}

} // verus!
