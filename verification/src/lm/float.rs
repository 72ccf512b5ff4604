use vstd::prelude::*;

verus! {

/// The sign bit of a double.
pub const SIGN_MASK: u64 = 0x8000_0000_0000_0000;

/// The bit pattern of positive infinity. Every magnitude above it is a NaN.
pub const INFINITY_BITS: u64 = 0x7ff0_0000_0000_0000;

/// The bit pattern of `1.0`.
pub const ONE_BITS: u64 = 0x3ff0_0000_0000_0000;

/// An IEEE-754 binary64 number, held as its bit pattern.
///
/// Two values are equal in contracts when their bits are equal; the
/// numeric order, in which `-0.0` equals `+0.0` and a NaN is unordered, is
/// given by [`Float::lt_spec`] and its companions.
#[derive(Clone, Copy, Debug)]
pub struct Float {
    pub bits: u64,
}

impl Float {
    /// Whether the sign bit is set (also true of `-0.0` and of some NaNs).
    pub open spec fn is_sign_negative_spec(self) -> bool {
        self.bits >= SIGN_MASK
    }

    /// The bit pattern without its sign bit, as a number.
    pub open spec fn magnitude(self) -> int {
        if self.bits >= SIGN_MASK {
            self.bits - SIGN_MASK
        } else {
            self.bits as int
        }
    }

    pub open spec fn is_nan_spec(self) -> bool {
        self.magnitude() > INFINITY_BITS
    }

    pub open spec fn is_infinite_spec(self) -> bool {
        self.magnitude() == INFINITY_BITS
    }

    pub open spec fn is_finite_spec(self) -> bool {
        self.magnitude() < INFINITY_BITS
    }

    /// The place of a number that is not a NaN in the numeric order: the
    /// magnitude, negated where the sign bit is set. Both zeros have rank 0.
    pub open spec fn rank(self) -> int {
        if self.is_sign_negative_spec() {
            -self.magnitude()
        } else {
            self.magnitude()
        }
    }

    /// `self < other` as IEEE-754 defines it.
    pub open spec fn lt_spec(self, other: Float) -> bool {
        !self.is_nan_spec() && !other.is_nan_spec() && self.rank() < other.rank()
    }

    /// `self <= other` as IEEE-754 defines it.
    pub open spec fn le_spec(self, other: Float) -> bool {
        !self.is_nan_spec() && !other.is_nan_spec() && self.rank() <= other.rank()
    }

    /// `self > other` as IEEE-754 defines it.
    pub open spec fn gt_spec(self, other: Float) -> bool {
        other.lt_spec(self)
    }

    /// `self >= other` as IEEE-754 defines it.
    pub open spec fn ge_spec(self, other: Float) -> bool {
        other.le_spec(self)
    }

    /// `self == other` as IEEE-754 defines it: false of a NaN, true of two zeros.
    pub open spec fn same_number(self, other: Float) -> bool {
        !self.is_nan_spec() && !other.is_nan_spec() && self.rank() == other.rank()
    }

    /// The number with its sign bit flipped: what unary minus gives, exactly,
    /// for every value, a NaN included.
    pub open spec fn negation(self) -> Float {
        if self.bits >= SIGN_MASK {
            Float { bits: (self.bits - SIGN_MASK) as u64 }
        } else {
            Float { bits: (self.bits + SIGN_MASK) as u64 }
        }
    }

    pub fn from_bits(bits: u64) -> (r: Float)
        ensures
            r.bits == bits,
    {
        Float { bits }
    }

    pub fn to_bits(self) -> (r: u64)
        ensures
            r == self.bits,
    {
        self.bits
    }

    /// `+0.0`.
    pub fn zero() -> (r: Float)
        ensures
            r.bits == 0,
    {
        Float { bits: 0 }
    }

    /// `1.0`.
    pub fn one() -> (r: Float)
        ensures
            r.bits == ONE_BITS,
    {
        Float { bits: ONE_BITS }
    }

    /// Positive infinity.
    pub fn infinity() -> (r: Float)
        ensures
            r.bits == INFINITY_BITS,
    {
        Float { bits: INFINITY_BITS }
    }

    /// Negative infinity.
    pub fn neg_infinity() -> (r: Float)
        ensures
            r.bits == INFINITY_BITS + SIGN_MASK,
    {
        Float { bits: 0xfff0_0000_0000_0000 }
    }

    #[verifier::when_used_as_spec(is_sign_negative_spec)]
    pub fn is_sign_negative(self) -> (r: bool)
        ensures
            r == self.is_sign_negative_spec(),
    {
        self.bits >= SIGN_MASK
    }

    /// The magnitude as a machine integer.
    pub fn magnitude_bits(self) -> (r: u64)
        ensures
            r == self.magnitude(),
    {
        if self.bits >= SIGN_MASK {
            self.bits - SIGN_MASK
        } else {
            self.bits
        }
    }

    #[verifier::when_used_as_spec(is_nan_spec)]
    pub fn is_nan(self) -> (r: bool)
        ensures
            r == self.is_nan_spec(),
    {
        self.magnitude_bits() > INFINITY_BITS
    }

    #[verifier::when_used_as_spec(is_infinite_spec)]
    pub fn is_infinite(self) -> (r: bool)
        ensures
            r == self.is_infinite_spec(),
    {
        self.magnitude_bits() == INFINITY_BITS
    }

    #[verifier::when_used_as_spec(is_finite_spec)]
    pub fn is_finite(self) -> (r: bool)
        ensures
            r == self.is_finite_spec(),
    {
        self.magnitude_bits() < INFINITY_BITS
    }

    /// The rank as a machine integer.
    pub fn rank_of(self) -> (r: i64)
        ensures
            r == self.rank(),
    {
        let m = self.magnitude_bits();
        if self.bits >= SIGN_MASK {
            -(m as i64)
        } else {
            m as i64
        }
    }

    /// The smaller of two numbers, ignoring a NaN where the other is none.
    ///
    /// Of two zeros it is `-0.0`. Where both are NaN it is the one with the
    /// greater bit pattern: any NaN would do, and this choice makes the result
    /// independent of the order of the arguments.
    pub open spec fn min_spec(self, other: Float) -> Float {
        if self.is_nan_spec() && other.is_nan_spec() {
            if self.bits >= other.bits { self } else { other }
        } else if self.is_nan_spec() {
            other
        } else if other.is_nan_spec() {
            self
        } else if self.rank() < other.rank() {
            self
        } else if other.rank() < self.rank() {
            other
        } else if self.bits >= other.bits {
            self
        } else {
            other
        }
    }

    /// The greater of two numbers, ignoring a NaN where the other is none.
    ///
    /// Of two zeros it is `+0.0`. Where both are NaN it is the one with the
    /// greater bit pattern.
    pub open spec fn max_spec(self, other: Float) -> Float {
        if self.is_nan_spec() && other.is_nan_spec() {
            if self.bits >= other.bits { self } else { other }
        } else if self.is_nan_spec() {
            other
        } else if other.is_nan_spec() {
            self
        } else if self.rank() > other.rank() {
            self
        } else if other.rank() > self.rank() {
            other
        } else if self.bits <= other.bits {
            self
        } else {
            other
        }
    }

    /// `self` held to the range from `lo` to `hi`. A NaN stays as it is.
    pub open spec fn clamp_spec(self, lo: Float, hi: Float) -> Float {
        if self.lt_spec(lo) {
            lo
        } else if self.gt_spec(hi) {
            hi
        } else {
            self
        }
    }

    #[verifier::when_used_as_spec(min_spec)]
    pub fn min(self, other: Float) -> (r: Float)
        ensures
            r == self.min_spec(other),
    {
        let self_nan = self.is_nan();
        let other_nan = other.is_nan();
        if self_nan && other_nan {
            if self.bits >= other.bits { self } else { other }
        } else if self_nan {
            other
        } else if other_nan {
            self
        } else {
            let a = self.rank_of();
            let b = other.rank_of();
            if a < b {
                self
            } else if b < a {
                other
            } else if self.bits >= other.bits {
                self
            } else {
                other
            }
        }
    }

    #[verifier::when_used_as_spec(max_spec)]
    pub fn max(self, other: Float) -> (r: Float)
        ensures
            r == self.max_spec(other),
    {
        let self_nan = self.is_nan();
        let other_nan = other.is_nan();
        if self_nan && other_nan {
            if self.bits >= other.bits { self } else { other }
        } else if self_nan {
            other
        } else if other_nan {
            self
        } else {
            let a = self.rank_of();
            let b = other.rank_of();
            if a > b {
                self
            } else if b > a {
                other
            } else if self.bits <= other.bits {
                self
            } else {
                other
            }
        }
    }

    /// Holds `self` to the range from `lo` to `hi`, which must be in order
    /// (so neither is a NaN).
    #[verifier::when_used_as_spec(clamp_spec)]
    pub fn clamp(self, lo: Float, hi: Float) -> (r: Float)
        requires
            lo.le_spec(hi),
        ensures
            r == self.clamp_spec(lo, hi),
    {
        if self.is_nan() {
            self
        } else {
            let x = self.rank_of();
            if x < lo.rank_of() {
                lo
            } else if x > hi.rank_of() {
                hi
            } else {
                self
            }
        }
    }

    /// Negation flips the sign bit and leaves every other bit as it is.
    pub proof fn lemma_negation_flips_the_sign_bit(a: Float)
        ensures
            a.negation().bits == a.bits ^ SIGN_MASK,
            a.negation().negation() == a,
    {
        let x = a.bits;
        assert(x ^ 0x8000_0000_0000_0000u64 == if x >= 0x8000_0000_0000_0000u64 {
            (x - 0x8000_0000_0000_0000u64) as u64
        } else {
            (x + 0x8000_0000_0000_0000u64) as u64
        }) by (bit_vector);
    }

    /// The smaller of two numbers does not depend on their order.
    pub proof fn lemma_min_commutes(a: Float, b: Float)
        ensures
            a.min_spec(b) == b.min_spec(a),
    {
    }

    /// The greater of two numbers does not depend on their order.
    pub proof fn lemma_max_commutes(a: Float, b: Float)
        ensures
            a.max_spec(b) == b.max_spec(a),
    {
    }

    /// Unless both are NaN, the smaller of two numbers is at most the greater.
    pub proof fn lemma_min_le_max(a: Float, b: Float)
        requires
            !a.is_nan_spec() || !b.is_nan_spec(),
        ensures
            a.min_spec(b).le_spec(a.max_spec(b)),
    {
    }

    /// `<=` is transitive.
    pub proof fn lemma_le_transitive(a: Float, b: Float, c: Float)
        requires
            a.le_spec(b),
            b.le_spec(c),
        ensures
            a.le_spec(c),
    {
    }

    /// A number that is not a NaN lies in every ordered range it was clamped to.
    pub proof fn lemma_clamp_in_range(x: Float, lo: Float, hi: Float)
        requires
            lo.le_spec(hi),
            !x.is_nan_spec(),
        ensures
            lo.le_spec(x.clamp_spec(lo, hi)),
            x.clamp_spec(lo, hi).le_spec(hi),
    {
    }
}

} // verus!
