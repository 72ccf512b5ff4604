use crate::lm::algebra::lemma_unit_product;
use crate::lm::exact::respects_negation;
use crate::lm::float::{Float, ONE_BITS};
use crate::lm::math::{SquareMatrix, Vector};
use std::ops::Neg;
use vstd::prelude::*;

verus! {

/// The matrix that moves a point by `(x, y, z)`.
pub open spec fn translation(x: Float, y: Float, z: Float) -> SquareMatrix<4> {
    let o = Float { bits: 0 };
    let l = Float { bits: ONE_BITS };
    SquareMatrix { m: [[l, o, o, x], [o, l, o, y], [o, o, l, z], [o, o, o, l]] }
}

/// The matrix that stretches the three axes by `x`, `y` and `z`.
pub open spec fn scaling(x: Float, y: Float, z: Float) -> SquareMatrix<4> {
    let o = Float { bits: 0 };
    let l = Float { bits: ONE_BITS };
    SquareMatrix { m: [[x, o, o, o], [o, y, o, o], [o, o, z, o], [o, o, o, l]] }
}

/// The matrix that turns about the first axis by the angle with the given
/// sine and cosine.
pub open spec fn rotation_x(sin: Float, cos: Float) -> SquareMatrix<4> {
    let o = Float { bits: 0 };
    let l = Float { bits: ONE_BITS };
    SquareMatrix { m: [[l, o, o, o], [o, cos, sin.negation(), o], [o, sin, cos, o], [o, o, o, l]] }
}

/// The matrix that turns about the second axis by the angle with the given
/// sine and cosine.
pub open spec fn rotation_y(sin: Float, cos: Float) -> SquareMatrix<4> {
    let o = Float { bits: 0 };
    let l = Float { bits: ONE_BITS };
    SquareMatrix { m: [[cos, o, sin, o], [o, l, o, o], [sin.negation(), o, cos, o], [o, o, o, l]] }
}

/// The matrix that turns about the third axis by the angle with the given
/// sine and cosine.
pub open spec fn rotation_z(sin: Float, cos: Float) -> SquareMatrix<4> {
    let o = Float { bits: 0 };
    let l = Float { bits: ONE_BITS };
    SquareMatrix { m: [[cos, sin.negation(), o, o], [sin, cos, o, o], [o, o, l, o], [o, o, o, l]] }
}

/// The matrix whose first three columns are the axes `right`, `up` and
/// `direction` of a frame and whose fourth is its origin `position`.
pub open spec fn frame_spec(
    right: Vector<3>,
    up: Vector<3>,
    direction: Vector<3>,
    position: Vector<3>,
) -> SquareMatrix<4> {
    let o = Float { bits: 0 };
    let l = Float { bits: ONE_BITS };
    SquareMatrix {
        m: [
            [right.v[0], up.v[0], direction.v[0], position.v[0]],
            [right.v[1], up.v[1], direction.v[1], position.v[1]],
            [right.v[2], up.v[2], direction.v[2], position.v[2]],
            [o, o, o, l],
        ],
    }
}

/// The matrix of a perspective divide that maps depth `d` to
/// `depth_scale * d + depth_shift` before dividing by `d`.
pub open spec fn projection_spec(depth_scale: Float, depth_shift: Float) -> SquareMatrix<4> {
    let o = Float { bits: 0 };
    let l = Float { bits: ONE_BITS };
    SquareMatrix { m: [[l, o, o, o], [o, l, o, o], [o, o, depth_scale, depth_shift], [o, o, l, o]] }
}

/// The entry in row `i` and column `j` of the product of `a` and `b`, as
/// `val` reads their entries.
pub open spec fn exact_entry(
    val: spec_fn(Float) -> int,
    a: SquareMatrix<4>,
    b: SquareMatrix<4>,
    i: int,
    j: int,
) -> int {
    val(a.at(i, 0)) * val(b.at(0, j)) + val(a.at(i, 1)) * val(b.at(1, j)) + val(a.at(i, 2)) * val(
        b.at(2, j),
    ) + val(a.at(i, 3)) * val(b.at(3, j))
}

/// Whether the product of `a` and `b` is the identity, as `val` reads their
/// entries.
pub open spec fn multiply_to_identity(
    val: spec_fn(Float) -> int,
    a: SquareMatrix<4>,
    b: SquareMatrix<4>,
) -> bool {
    forall|i: int, j: int|
        0 <= i < 4 && 0 <= j < 4 ==> #[trigger] exact_entry(val, a, b, i, j) == if i == j {
            1int
        } else {
            0int
        }
}

/// A move by `(x, y, z)` is undone by the move by its negation, in exact
/// arithmetic: the two matrices multiply to the identity, whichever comes
/// first.
pub proof fn lemma_translation_inverts(val: spec_fn(Float) -> int, x: Float, y: Float, z: Float)
    requires
        respects_negation(val),
        val(Float { bits: 0 }) == 0,
        val(Float { bits: ONE_BITS }) == 1,
    ensures
        multiply_to_identity(
            val,
            translation(x, y, z),
            translation(x.negation(), y.negation(), z.negation()),
        ),
        multiply_to_identity(
            val,
            translation(x.negation(), y.negation(), z.negation()),
            translation(x, y, z),
        ),
{
    let there = translation(x, y, z);
    let back = translation(x.negation(), y.negation(), z.negation());
    assert(val(x.negation()) == -val(x));
    assert(val(y.negation()) == -val(y));
    assert(val(z.negation()) == -val(z));
    assert forall|i: int, j: int| 0 <= i < 4 && 0 <= j < 4 implies #[trigger] exact_entry(
        val,
        there,
        back,
        i,
        j,
    ) == if i == j {
        1int
    } else {
        0int
    } by {
        lemma_unit_product(val(there.at(i, 0)), val(back.at(0, j)));
        lemma_unit_product(val(there.at(i, 1)), val(back.at(1, j)));
        lemma_unit_product(val(there.at(i, 2)), val(back.at(2, j)));
        lemma_unit_product(val(there.at(i, 3)), val(back.at(3, j)));
    }
    assert forall|i: int, j: int| 0 <= i < 4 && 0 <= j < 4 implies #[trigger] exact_entry(
        val,
        back,
        there,
        i,
        j,
    ) == if i == j {
        1int
    } else {
        0int
    } by {
        lemma_unit_product(val(back.at(i, 0)), val(there.at(0, j)));
        lemma_unit_product(val(back.at(i, 1)), val(there.at(1, j)));
        lemma_unit_product(val(back.at(i, 2)), val(there.at(2, j)));
        lemma_unit_product(val(back.at(i, 3)), val(there.at(3, j)));
    }
}

/// The matrix of a frame with the given axes and origin.
#[verifier::when_used_as_spec(frame_spec)]
pub fn frame(right: Vector<3>, up: Vector<3>, direction: Vector<3>, position: Vector<3>) -> (r:
    SquareMatrix<4>)
    ensures
        r == frame_spec(right, up, direction, position),
{
    let o = Float::zero();
    let l = Float::one();
    let r = SquareMatrix::new(
        [
            [right.v[0], up.v[0], direction.v[0], position.v[0]],
            [right.v[1], up.v[1], direction.v[1], position.v[1]],
            [right.v[2], up.v[2], direction.v[2], position.v[2]],
            [o, o, o, l],
        ],
    );
    proof {
        SquareMatrix::lemma_equal_by_entries(r, frame_spec(right, up, direction, position));
    }
    r
}

/// The matrix of a perspective divide.
#[verifier::when_used_as_spec(projection_spec)]
pub fn projection(depth_scale: Float, depth_shift: Float) -> (r: SquareMatrix<4>)
    ensures
        r == projection_spec(depth_scale, depth_shift),
{
    let o = Float::zero();
    let l = Float::one();
    let r = SquareMatrix::new(
        [[l, o, o, o], [o, l, o, o], [o, o, depth_scale, depth_shift], [o, o, l, o]],
    );
    proof {
        SquareMatrix::lemma_equal_by_entries(r, projection_spec(depth_scale, depth_shift));
    }
    r
}

/// An affine map of space together with its inverse.
///
/// The two matrices are made together and stay together: transposing swaps
/// them, and composing multiplies the forward matrices in order and the
/// inverses in reverse order, so that no matrix is ever inverted twice.
#[derive(Clone, Copy, Debug)]
pub struct Transform {
    matrix: SquareMatrix<4>,
    inversed: SquareMatrix<4>,
}

impl Transform {
    /// The forward matrix.
    pub closed spec fn matrix_spec(&self) -> SquareMatrix<4> {
        self.matrix
    }

    /// The matrix of the inverse map.
    pub closed spec fn inversed_spec(&self) -> SquareMatrix<4> {
        self.inversed
    }

    /// Whether `r` is a composition of `a` and `b` under `product`: its
    /// forward matrix a product of the forward matrices in this order, its
    /// inverse a product of the inverses in the reverse order.
    pub open spec fn is_composition<F: Fn(SquareMatrix<4>, SquareMatrix<4>) -> SquareMatrix<4>>(
        product: F,
        a: Transform,
        b: Transform,
        r: Transform,
    ) -> bool {
        &&& call_ensures(product, (a.matrix(), b.matrix()), r.matrix())
        &&& call_ensures(product, (b.inversed(), a.inversed()), r.inversed())
    }

    /// A transform is its two matrices and nothing more.
    pub proof fn lemma_equal_by_parts(a: Transform, b: Transform)
        requires
            a.matrix() == b.matrix(),
            a.inversed() == b.inversed(),
        ensures
            a == b,
    {
    }

    /// Swapping the two matrices twice gives the transform back.
    pub proof fn lemma_transpose_twice(t: Transform, once: Transform, twice: Transform)
        requires
            once.matrix() == t.inversed(),
            once.inversed() == t.matrix(),
            twice.matrix() == once.inversed(),
            twice.inversed() == once.matrix(),
        ensures
            twice == t,
    {
    }

    /// The inverse of a composition is the composition of the inverses in
    /// reverse order: where `r` composes `a` and `b`, `r` with its matrices
    /// swapped composes `b` and `a` with theirs swapped.
    pub proof fn lemma_composition_reverses<
        F: Fn(SquareMatrix<4>, SquareMatrix<4>) -> SquareMatrix<4>,
    >(
        product: F,
        a: Transform,
        b: Transform,
        r: Transform,
        a_swapped: Transform,
        b_swapped: Transform,
        r_swapped: Transform,
    )
        requires
            Self::is_composition(product, a, b, r),
            a_swapped.matrix() == a.inversed() && a_swapped.inversed() == a.matrix(),
            b_swapped.matrix() == b.inversed() && b_swapped.inversed() == b.matrix(),
            r_swapped.matrix() == r.inversed() && r_swapped.inversed() == r.matrix(),
        ensures
            Self::is_composition(product, b_swapped, a_swapped, r_swapped),
    {
    }

    /// Composing keeps the pairing, in any arithmetic whose matrix product
    /// `times` is associative and has `unit` as its neutral element: where
    /// the matrices of `a` and of `b` multiply to `unit`, so do those of a
    /// composition `r` of the two. The inverses must be multiplied in reverse
    /// order for this.
    pub proof fn lemma_composition_keeps_pairing<
        F: Fn(SquareMatrix<4>, SquareMatrix<4>) -> SquareMatrix<4>,
    >(
        product: F,
        times: spec_fn(SquareMatrix<4>, SquareMatrix<4>) -> SquareMatrix<4>,
        unit: SquareMatrix<4>,
        a: Transform,
        b: Transform,
        r: Transform,
    )
        requires
            forall|x: SquareMatrix<4>, y: SquareMatrix<4>, z: SquareMatrix<4>|
                call_ensures(product, (x, y), z) ==> z == times(x, y),
            forall|x: SquareMatrix<4>, y: SquareMatrix<4>, z: SquareMatrix<4>| #[trigger]
                times(times(x, y), z) == times(x, times(y, z)),
            forall|x: SquareMatrix<4>| #[trigger] times(unit, x) == x,
            times(a.matrix(), a.inversed()) == unit,
            times(b.matrix(), b.inversed()) == unit,
            Self::is_composition(product, a, b, r),
        ensures
            times(r.matrix(), r.inversed()) == unit,
    {
        let (am, ai, bm, bi) = (a.matrix(), a.inversed(), b.matrix(), b.inversed());
        assert(r.matrix() == times(am, bm));
        assert(r.inversed() == times(bi, ai));
        assert(times(times(am, bm), times(bi, ai)) == times(am, times(bm, times(bi, ai))));
        assert(times(times(bm, bi), ai) == times(bm, times(bi, ai)));
        assert(times(unit, ai) == ai);
    }

    /// Pairs `matrix` with the inverse that the caller computed for it.
    /// There must be one: no transform is made of a matrix without an
    /// inverse.
    pub fn build(matrix: &SquareMatrix<4>, inverse: Option<SquareMatrix<4>>) -> (r: Transform)
        requires
            inverse is Some,
        ensures
            r.matrix() == *matrix,
            r.inversed() == inverse->0,
    {
        Transform { matrix: *matrix, inversed: inverse.unwrap() }
    }

    #[verifier::when_used_as_spec(matrix_spec)]
    pub fn matrix(&self) -> (r: SquareMatrix<4>)
        ensures
            r == self.matrix(),
    {
        self.matrix
    }

    #[verifier::when_used_as_spec(inversed_spec)]
    pub fn inversed(&self) -> (r: SquareMatrix<4>)
        ensures
            r == self.inversed(),
    {
        self.inversed
    }

    /// The inverse transform: the same two matrices, swapped.
    pub fn transpose(&self) -> (r: Transform)
        ensures
            r.matrix() == self.inversed(),
            r.inversed() == self.matrix(),
    {
        Transform { matrix: self.inversed, inversed: self.matrix }
    }

    /// The move by `delta`, whose inverse is the move by `delta` negated.
    pub fn translate(delta: &Vector<3>) -> (r: Transform)
        ensures
            r.matrix() == translation(delta.v[0], delta.v[1], delta.v[2]),
            r.inversed() == translation(
                delta.v[0].negation(),
                delta.v[1].negation(),
                delta.v[2].negation(),
            ),
    {
        let o = Float::zero();
        let l = Float::one();
        let (x, y, z) = (delta.v[0], delta.v[1], delta.v[2]);
        let matrix = SquareMatrix::new([[l, o, o, x], [o, l, o, y], [o, o, l, z], [o, o, o, l]]);
        let inversed = SquareMatrix::new(
            [[l, o, o, x.neg()], [o, l, o, y.neg()], [o, o, l, z.neg()], [o, o, o, l]],
        );
        proof {
            SquareMatrix::lemma_equal_by_entries(matrix, translation(x, y, z));
            SquareMatrix::lemma_equal_by_entries(
                inversed,
                translation(x.negation(), y.negation(), z.negation()),
            );
        }
        Transform { matrix, inversed }
    }

    /// The stretch of the three axes by `x`, `y` and `z`, whose inverse
    /// stretches by the reciprocals that the caller computed.
    pub fn scale_with(
        x: Float,
        y: Float,
        z: Float,
        x_recip: Float,
        y_recip: Float,
        z_recip: Float,
    ) -> (r: Transform)
        ensures
            r.matrix() == scaling(x, y, z),
            r.inversed() == scaling(x_recip, y_recip, z_recip),
    {
        let o = Float::zero();
        let l = Float::one();
        let matrix = SquareMatrix::new([[x, o, o, o], [o, y, o, o], [o, o, z, o], [o, o, o, l]]);
        let inversed = SquareMatrix::new(
            [[x_recip, o, o, o], [o, y_recip, o, o], [o, o, z_recip, o], [o, o, o, l]],
        );
        proof {
            SquareMatrix::lemma_equal_by_entries(matrix, scaling(x, y, z));
            SquareMatrix::lemma_equal_by_entries(inversed, scaling(x_recip, y_recip, z_recip));
        }
        Transform { matrix, inversed }
    }

    /// The turn about the first axis by the angle with the given sine and
    /// cosine. Its inverse is the transposed matrix.
    pub fn rotate_x_with(sin_theta: Float, cos_theta: Float) -> (r: Transform)
        ensures
            r.matrix() == rotation_x(sin_theta, cos_theta),
            r.inversed().is_transpose_of(r.matrix()),
    {
        let o = Float::zero();
        let l = Float::one();
        let matrix = SquareMatrix::new(
            [[l, o, o, o], [o, cos_theta, sin_theta.neg(), o], [o, sin_theta, cos_theta, o], [o, o, o, l]],
        );
        proof {
            SquareMatrix::lemma_equal_by_entries(matrix, rotation_x(sin_theta, cos_theta));
        }
        Transform { matrix, inversed: matrix.transpose() }
    }

    /// The turn about the second axis by the angle with the given sine and
    /// cosine. Its inverse is the transposed matrix.
    pub fn rotate_y_with(sin_theta: Float, cos_theta: Float) -> (r: Transform)
        ensures
            r.matrix() == rotation_y(sin_theta, cos_theta),
            r.inversed().is_transpose_of(r.matrix()),
    {
        let o = Float::zero();
        let l = Float::one();
        let matrix = SquareMatrix::new(
            [[cos_theta, o, sin_theta, o], [o, l, o, o], [sin_theta.neg(), o, cos_theta, o], [o, o, o, l]],
        );
        proof {
            SquareMatrix::lemma_equal_by_entries(matrix, rotation_y(sin_theta, cos_theta));
        }
        Transform { matrix, inversed: matrix.transpose() }
    }

    /// The turn about the third axis by the angle with the given sine and
    /// cosine. Its inverse is the transposed matrix.
    pub fn rotate_z_with(sin_theta: Float, cos_theta: Float) -> (r: Transform)
        ensures
            r.matrix() == rotation_z(sin_theta, cos_theta),
            r.inversed().is_transpose_of(r.matrix()),
    {
        let o = Float::zero();
        let l = Float::one();
        let matrix = SquareMatrix::new(
            [[cos_theta, sin_theta.neg(), o, o], [sin_theta, cos_theta, o, o], [o, o, l, o], [o, o, o, l]],
        );
        proof {
            SquareMatrix::lemma_equal_by_entries(matrix, rotation_z(sin_theta, cos_theta));
        }
        Transform { matrix, inversed: matrix.transpose() }
    }

    /// The map that applies `rhs` first and `self` second.
    ///
    /// `product` multiplies two matrices. It is handed the forward matrices in
    /// this order and the inverses in the reverse order.
    pub fn compose<F: Fn(SquareMatrix<4>, SquareMatrix<4>) -> SquareMatrix<4>>(
        &self,
        rhs: &Transform,
        product: F,
    ) -> (r: Transform)
        requires
            forall|a: SquareMatrix<4>, b: SquareMatrix<4>| call_requires(product, (a, b)),
        ensures
            Self::is_composition(product, *self, *rhs, r),
    {
        let matrix = product(self.matrix, rhs.matrix);
        let inversed = product(rhs.inversed, self.inversed);
        Transform { matrix, inversed }
    }
}

} // verus!
