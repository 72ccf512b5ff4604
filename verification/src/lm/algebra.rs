use vstd::prelude::*;

verus! {

/// `x * (a + b - c)`, multiplied out.
pub proof fn lemma_spread(x: int, a: int, b: int, c: int)
    ensures
        x * (a + b - c) == x * a + x * b - x * c,
{
    assert(x * (a + b - c) == x * a + x * b - x * c) by (nonlinear_arith);
}

/// A product of three, bracketed and ordered at will.
pub proof fn lemma_triple(x: int, y: int, z: int)
    ensures
        x * (y * z) == x * y * z,
        x * (-y * z) == -(x * y * z),
        y * x * z == x * y * z,
        x * z * y == x * y * z,
        z * y * x == x * y * z,
        y * z * x == x * y * z,
        z * x * y == x * y * z,
{
    assert(x * (y * z) == x * y * z) by (nonlinear_arith);
    assert(x * (-y * z) == -(x * y * z)) by (nonlinear_arith);
    assert(y * x * z == x * y * z) by (nonlinear_arith);
    assert(x * z * y == x * y * z) by (nonlinear_arith);
    assert(z * y * x == x * y * z) by (nonlinear_arith);
    assert(y * z * x == x * y * z) by (nonlinear_arith);
    assert(z * x * y == x * y * z) by (nonlinear_arith);
}

/// `(a * b - c * d) * x`, multiplied out.
pub proof fn lemma_minor_times(a: int, b: int, c: int, d: int, x: int)
    ensures
        (a * b - c * d) * x == a * b * x - c * d * x,
        x * (a * b - c * d) == a * b * x - c * d * x,
{
    let (u, v) = (a * b, c * d);
    assert((u - v) * x == u * x - v * x) by (nonlinear_arith);
    assert(x * (u - v) == u * x - v * x) by (nonlinear_arith);
}

/// `x * (a - b)` and `(a - b) * x`, multiplied out.
pub proof fn lemma_difference_times(x: int, a: int, b: int)
    ensures
        x * (a - b) == x * a - x * b,
        (a - b) * x == a * x - b * x,
{
    assert(x * (a - b) == x * a - x * b) by (nonlinear_arith);
    assert((a - b) * x == a * x - b * x) by (nonlinear_arith);
}

/// A product with 0 or 1 as a factor.
pub proof fn lemma_unit_product(x: int, y: int)
    ensures
        x == 0 || y == 0 ==> x * y == 0,
        x == 1 ==> x * y == y,
        y == 1 ==> x * y == x,
{
    assert(x == 0 || y == 0 ==> x * y == 0) by (nonlinear_arith);
    assert(x == 1 ==> x * y == y) by (nonlinear_arith);
    assert(y == 1 ==> x * y == x) by (nonlinear_arith);
}

/// A multiple of zero is zero.
pub proof fn lemma_times_zero(x: int, zero: int)
    requires
        zero == 0,
    ensures
        x * zero == 0,
{
    assert(x * zero == 0) by (nonlinear_arith)
        requires
            zero == 0,
    ;
}

/// A 3x3 determinant with a repeated row is zero: the first row is
/// `(a, b, c)` again in the first claim and `(d, e, f)` again in the second.
pub proof fn lemma_repeated_row(a: int, b: int, c: int, d: int, e: int, f: int)
    ensures
        a * (b * f - e * c) - b * (a * f - d * c) + c * (a * e - d * b) == 0,
        d * (b * f - e * c) - e * (a * f - d * c) + f * (a * e - d * b) == 0,
{
    lemma_minor_times(b, f, e, c, a);
    lemma_minor_times(a, f, d, c, b);
    lemma_minor_times(a, e, d, b, c);
    lemma_triple(a, b, f);
    lemma_triple(a, e, c);
    lemma_triple(d, b, c);
    lemma_minor_times(b, f, e, c, d);
    lemma_minor_times(a, f, d, c, e);
    lemma_minor_times(a, e, d, b, f);
    lemma_triple(d, b, f);
    lemma_triple(d, c, e);
    lemma_triple(a, e, f);
}

/// `x * y`, with either factor negated or the two exchanged.
pub proof fn lemma_signs(x: int, y: int)
    ensures
        (-x) * y == -(x * y),
        x * (-y) == -(x * y),
        y * x == x * y,
{
    assert((-x) * y == -(x * y)) by (nonlinear_arith);
    assert(x * (-y) == -(x * y)) by (nonlinear_arith);
    assert(y * x == x * y) by (nonlinear_arith);
}

} // verus!
