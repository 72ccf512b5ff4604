use crate::lm::float::{Float, SIGN_MASK};
use std::cmp::Ordering;
use std::ops::Neg;
use vstd::prelude::*;

verus! {

impl PartialEq for Float {
    /// Numeric equality: a NaN equals nothing, and the two zeros are equal.
    fn eq(&self, other: &Float) -> (r: bool) {
        !self.is_nan() && !other.is_nan() && self.rank_of() == other.rank_of()
    }
}

impl vstd::std_specs::cmp::PartialEqSpecImpl for Float {
    open spec fn obeys_eq_spec() -> bool {
        true
    }

    open spec fn eq_spec(&self, other: &Float) -> bool {
        self.same_number(*other)
    }
}

impl PartialOrd for Float {
    /// The numeric order: `None` where either side is a NaN.
    fn partial_cmp(&self, other: &Float) -> (r: Option<Ordering>) {
        if self.is_nan() || other.is_nan() {
            None
        } else {
            let a = self.rank_of();
            let b = other.rank_of();
            if a < b {
                Some(Ordering::Less)
            } else if a == b {
                Some(Ordering::Equal)
            } else {
                Some(Ordering::Greater)
            }
        }
    }
}

impl vstd::std_specs::cmp::PartialOrdSpecImpl for Float {
    open spec fn obeys_partial_cmp_spec() -> bool {
        true
    }

    open spec fn partial_cmp_spec(&self, other: &Float) -> Option<Ordering> {
        if self.is_nan_spec() || other.is_nan_spec() {
            None
        } else if self.rank() < other.rank() {
            Some(Ordering::Less)
        } else if self.rank() == other.rank() {
            Some(Ordering::Equal)
        } else {
            Some(Ordering::Greater)
        }
    }
}

impl Neg for Float {
    type Output = Float;

    /// Flips the sign bit.
    fn neg(self) -> (r: Float) {
        if self.bits >= SIGN_MASK {
            Float { bits: self.bits - SIGN_MASK }
        } else {
            Float { bits: self.bits + SIGN_MASK }
        }
    }
}

impl vstd::std_specs::ops::NegSpecImpl for Float {
    open spec fn obeys_neg_spec() -> bool {
        true
    }

    open spec fn neg_req(self) -> bool {
        true
    }

    open spec fn neg_spec(self) -> Float {
        self.negation()
    }
}

} // verus!
