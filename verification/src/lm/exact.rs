//! Readings of numbers as integers, over which the layout of a computation
//! can be held to the algebra it stands for.
//!
//! The library lays out the operands of determinants and products, and a
//! caller multiplies and adds them with rounding. What the layout computes is
//! stated for arithmetic that does not round: for a reading `val` of each
//! number as an integer, and results that `val` reads as the exact products
//! and sums of what it reads the operands as. Matrices of small whole numbers
//! are computed without rounding, and of them the laws hold as they stand.
use crate::lm::float::Float;
use vstd::prelude::*;

verus! {

/// Whether `val` reads the negation of every number as the negative of what
/// it reads the number as.
pub open spec fn respects_negation(val: spec_fn(Float) -> int) -> bool {
    forall|x: Float| #[trigger] val(x.negation()) == -val(x)
}

/// The minor `a * b - c * d` of the operands `(a, b, c, d)`, as `val` reads
/// them.
pub open spec fn exact_minor(val: spec_fn(Float) -> int, operands: [Float; 4]) -> int {
    val(operands[0]) * val(operands[1]) - val(operands[2]) * val(operands[3])
}

/// The inner product of three pairs of operands, as `val` reads them.
pub open spec fn exact_inner3(val: spec_fn(Float) -> int, operands: ([Float; 3], [Float; 3])) -> int {
    let (x, y) = operands;
    val(x[0]) * val(y[0]) + val(x[1]) * val(y[1]) + val(x[2]) * val(y[2])
}

/// The inner product of six pairs of operands, as `val` reads them.
pub open spec fn exact_inner6(val: spec_fn(Float) -> int, operands: ([Float; 6], [Float; 6])) -> int {
    let (x, y) = operands;
    val(x[0]) * val(y[0]) + val(x[1]) * val(y[1]) + val(x[2]) * val(y[2]) + val(x[3]) * val(y[3])
        + val(x[4]) * val(y[4]) + val(x[5]) * val(y[5])
}

/// The inner product of two rows of numbers, as `val` reads them: the sum of
/// the products of the numbers in the same place.
pub open spec fn exact_dot(val: spec_fn(Float) -> int, x: Seq<Float>, y: Seq<Float>) -> int
    decreases x.len(),
{
    if x.len() == 0 {
        0
    } else {
        exact_dot(val, x.drop_last(), y.drop_last()) + val(x.last()) * val(y.last())
    }
}

} // verus!
