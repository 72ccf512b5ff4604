use crate::lm::float::{Float, INFINITY_BITS, ONE_BITS};
use vstd::arithmetic::power2::{lemma2_to64, lemma_pow2_adds, lemma_pow2_pos, lemma_pow2_unfold, pow2};
use vstd::prelude::*;

verus! {

/// Two to the power of 52: the weight of the lowest exponent bit in a
/// magnitude, and the hidden leading bit of a normal number's significand.
pub const HIDDEN_BIT: u64 = 0x10_0000_0000_0000;

/// What a magnitude is worth in units of the smallest positive double,
/// `2^-1074`. With exponent field `e` and fraction field `f`, a subnormal
/// magnitude (`e` is 0) is worth `f` units, and a normal one
/// `(2^52 + f) * 2^(e - 1)`. The magnitude of infinity gets what the formula
/// gives for it, which is more than any finite magnitude is worth.
pub open spec fn units(magnitude: int) -> int {
    let e = magnitude / (HIDDEN_BIT as int);
    let f = magnitude % (HIDDEN_BIT as int);
    if e <= 0 {
        f
    } else {
        (HIDDEN_BIT + f) * pow2((e - 1) as nat)
    }
}

/// The next magnitude is worth more.
proof fn lemma_units_step(m: int)
    requires
        0 <= m,
    ensures
        units(m) < units(m + 1),
{
    let p = HIDDEN_BIT as int;
    let e = m / p;
    let f = m % p;
    if f + 1 < p {
        assert((m + 1) / p == e && (m + 1) % p == f + 1);
        if e > 0 {
            let w = pow2((e - 1) as nat) as int;
            lemma_pow2_pos((e - 1) as nat);
            assert((p + f) * w < (p + f + 1) * w) by (nonlinear_arith)
                requires
                    w > 0,
            ;
        }
    } else {
        assert((m + 1) / p == e + 1 && (m + 1) % p == 0);
        if e > 0 {
            let w = pow2((e - 1) as nat) as int;
            lemma_pow2_pos((e - 1) as nat);
            lemma_pow2_unfold(e as nat);
            assert(pow2(e as nat) == 2 * w);
            assert((p + f) * w < p * (2 * w)) by (nonlinear_arith)
                requires
                    w > 0,
                    f < p,
                    p > 0,
            ;
        } else {
            lemma2_to64();
            assert(p * pow2(0) == p) by (nonlinear_arith)
                requires
                    pow2(0) == 1,
            ;
        }
    }
}

/// A greater magnitude is worth more.
pub proof fn lemma_units_increase(low: int, high: int)
    requires
        0 <= low < high,
    ensures
        units(low) < units(high),
    decreases high - low,
{
    if low + 1 < high {
        lemma_units_increase(low, high - 1);
    }
    lemma_units_step(high - 1);
}

impl Float {
    /// The value in units of `2^-1074`: a whole number for every finite
    /// double. For an infinity it is a stand-in beyond every finite value,
    /// and for a NaN it means nothing.
    pub open spec fn scaled(self) -> int {
        if self.is_sign_negative_spec() {
            -units(self.magnitude())
        } else {
            units(self.magnitude())
        }
    }

    /// The order of the ranks is the order of the values: of two numbers the
    /// one with the smaller rank is the smaller number, and two numbers have
    /// the same rank just when they have the same value.
    pub proof fn lemma_rank_orders_values(a: Float, b: Float)
        ensures
            a.rank() < b.rank() <==> a.scaled() < b.scaled(),
            a.rank() == b.rank() <==> a.scaled() == b.scaled(),
    {
        let (x, y) = (a.magnitude(), b.magnitude());
        assert(units(0) == 0);
        if x > 0 {
            lemma_units_increase(0, x);
        }
        if y > 0 {
            lemma_units_increase(0, y);
        }
        if x < y {
            lemma_units_increase(x, y);
        }
        if y < x {
            lemma_units_increase(y, x);
        }
    }

    /// `<` compares values: it holds of two numbers just when the first has
    /// the smaller value.
    pub proof fn lemma_lt_is_numeric(a: Float, b: Float)
        requires
            !a.is_nan_spec(),
            !b.is_nan_spec(),
        ensures
            a.lt_spec(b) <==> a.scaled() < b.scaled(),
            a.le_spec(b) <==> a.scaled() <= b.scaled(),
            a.same_number(b) <==> a.scaled() == b.scaled(),
    {
        Self::lemma_rank_orders_values(a, b);
    }

    /// Both zeros have the value 0, and no other number has.
    pub proof fn lemma_zero_value(a: Float)
        ensures
            a.scaled() == 0 <==> a.magnitude() == 0,
    {
        assert(units(0) == 0);
        if a.magnitude() > 0 {
            lemma_units_increase(0, a.magnitude());
        }
    }

    /// `1.0` is worth `2^1074` units.
    pub proof fn lemma_one_value()
        ensures
            (Float { bits: ONE_BITS }).scaled() == pow2(1074),
    {
        let one = Float { bits: ONE_BITS };
        assert(one.magnitude() == ONE_BITS);
        assert(ONE_BITS as int / (HIDDEN_BIT as int) == 1023);
        assert(ONE_BITS as int % (HIDDEN_BIT as int) == 0);
        lemma_hidden_bit_is_a_power();
        lemma_pow2_adds(52, 1022);
    }

    /// Flipping the sign negates the value.
    pub proof fn lemma_negation_value(a: Float)
        ensures
            a.negation().scaled() == -a.scaled(),
            a.negation().magnitude() == a.magnitude(),
    {
    }

    /// Every finite number has a smaller value than positive infinity and a
    /// greater one than negative infinity.
    pub proof fn lemma_finite_between_infinities(a: Float)
        requires
            a.is_finite_spec(),
        ensures
            (Float { bits: 0xfff0_0000_0000_0000 }).lt_spec(a),
            a.lt_spec(Float { bits: INFINITY_BITS }),
    {
    }
}

/// The hidden bit is two to the power of 52.
proof fn lemma_hidden_bit_is_a_power()
    ensures
        pow2(52) == HIDDEN_BIT,
{
    vstd::arithmetic::power2::lemma2_to64_rest();
}

} // verus!
