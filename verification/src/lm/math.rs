use crate::lm::algebra::{lemma_minor_times, lemma_triple};
use crate::lm::exact::{exact_dot, exact_minor};
use crate::lm::float::{Float, INFINITY_BITS, ONE_BITS};
use std::ops::{Index, IndexMut, Neg};
use vstd::prelude::*;

verus! {

/// A vector of `N` numbers.
#[derive(Clone, Copy, Debug)]
pub struct Vector<const N: usize> {
    pub v: [Float; N],
}

pub type Vector1 = Vector<1>;

pub type Vector2 = Vector<2>;

pub type Vector3 = Vector<3>;

pub type Vector4 = Vector<4>;

impl<const N: usize> View for Vector<N> {
    type V = Seq<Float>;

    /// The components in order.
    open spec fn view(&self) -> Seq<Float> {
        self.v@
    }
}

impl<const N: usize> Vector<N> {
    /// Whether `self` holds the components of `other` with their signs flipped.
    pub open spec fn is_negation_of(self, other: Vector<N>) -> bool {
        forall|i: int| 0 <= i < N ==> (#[trigger] self.v[i]) == other.v[i].negation()
    }

    /// The vector with the sign of every component flipped.
    pub open spec fn negation(self) -> Vector<N> {
        choose|r: Vector<N>| r.is_negation_of(self)
    }

    pub fn new(v: [Float; N]) -> (r: Vector<N>)
        ensures
            r.v == v,
    {
        Vector { v }
    }

    /// The vector whose components are all `+0.0`.
    pub fn zero() -> (r: Vector<N>)
        ensures
            forall|i: int| 0 <= i < N ==> (#[trigger] r.v[i]).bits == 0,
    {
        Vector { v: [Float::zero(); N] }
    }

    /// Replaces the component at `index`.
    pub fn set(&mut self, index: usize, value: Float)
        requires
            index < N,
        ensures
            final(self)@ == old(self)@.update(index as int, value),
    {
        self.v[index] = value;
    }

    /// The vector of what `op` makes of each component: the way a vector is
    /// negated, or multiplied or divided by a number.
    pub fn map_with<F: Fn(Float) -> Float>(&self, op: F) -> (r: Vector<N>)
        requires
            forall|x: Float| call_requires(op, (x,)),
        ensures
            forall|i: int| 0 <= i < N ==> call_ensures(op, (self.v[i],), #[trigger] r.v[i]),
    {
        let mut v = self.v;
        let mut i: usize = 0;
        while i < N
            invariant
                i <= N,
                forall|x: Float| call_requires(op, (x,)),
                forall|k: int| 0 <= k < i ==> call_ensures(op, (self.v[k],), #[trigger] v[k]),
            decreases N - i,
        {
            v[i] = op(self.v[i]);
            i += 1;
        }
        Vector { v }
    }

    /// The vector of what `op` makes of each component of `self` and the
    /// component of `rhs` in the same place: the way two vectors are added,
    /// subtracted, multiplied or divided.
    pub fn zip_with<F: Fn(Float, Float) -> Float>(&self, rhs: &Vector<N>, op: F) -> (r: Vector<N>)
        requires
            forall|x: Float, y: Float| call_requires(op, (x, y)),
        ensures
            forall|i: int|
                0 <= i < N ==> call_ensures(op, (self.v[i], rhs.v[i]), #[trigger] r.v[i]),
    {
        let mut v = self.v;
        let mut i: usize = 0;
        while i < N
            invariant
                i <= N,
                forall|x: Float, y: Float| call_requires(op, (x, y)),
                forall|k: int|
                    0 <= k < i ==> call_ensures(op, (self.v[k], rhs.v[k]), #[trigger] v[k]),
            decreases N - i,
        {
            v[i] = op(self.v[i], rhs.v[i]);
            i += 1;
        }
        Vector { v }
    }
}

impl Vector<3> {
    /// The operands `(a, b, c, d)` of the three components of the cross
    /// product with `rhs`, each of which is `a * b - c * d`: the expansion of
    /// a determinant whose lower rows are the two vectors.
    pub open spec fn cross_operands_spec(self, rhs: Vector<3>) -> [[Float; 4]; 3] {
        [
            [self.v[1], rhs.v[2], self.v[2], rhs.v[1]],
            [self.v[2], rhs.v[0], self.v[0], rhs.v[2]],
            [self.v[0], rhs.v[1], self.v[1], rhs.v[0]],
        ]
    }

    /// Whether `val` reads each component of `product` as the difference of
    /// products that its operands in the cross product of `self` and `rhs`
    /// call for.
    pub open spec fn is_exact_cross(
        self,
        rhs: Vector<3>,
        product: Vector<3>,
        val: spec_fn(Float) -> int,
    ) -> bool {
        forall|k: int|
            0 <= k < 3 ==> val(#[trigger] product.v[k]) == exact_minor(
                val,
                self.cross_operands_spec(rhs)[k],
            )
    }

    /// In exact arithmetic the cross product is perpendicular to both of its
    /// factors.
    pub proof fn lemma_cross_is_perpendicular(
        a: Vector<3>,
        b: Vector<3>,
        product: Vector<3>,
        val: spec_fn(Float) -> int,
    )
        requires
            a.is_exact_cross(b, product, val),
        ensures
            val(a.v[0]) * val(product.v[0]) + val(a.v[1]) * val(product.v[1]) + val(a.v[2]) * val(
                product.v[2],
            ) == 0,
            val(b.v[0]) * val(product.v[0]) + val(b.v[1]) * val(product.v[1]) + val(b.v[2]) * val(
                product.v[2],
            ) == 0,
    {
        let (a0, a1, a2) = (val(a.v[0]), val(a.v[1]), val(a.v[2]));
        let (b0, b1, b2) = (val(b.v[0]), val(b.v[1]), val(b.v[2]));
        let operands = a.cross_operands_spec(b);
        assert(val(product.v[0]) == exact_minor(val, operands[0]));
        assert(val(product.v[1]) == exact_minor(val, operands[1]));
        assert(val(product.v[2]) == exact_minor(val, operands[2]));
        lemma_minor_times(a1, b2, a2, b1, a0);
        lemma_minor_times(a2, b0, a0, b2, a1);
        lemma_minor_times(a0, b1, a1, b0, a2);
        lemma_triple(a0, b2, a1);
        lemma_triple(a0, b1, a2);
        lemma_triple(a1, b0, a2);
        lemma_minor_times(a1, b2, a2, b1, b0);
        lemma_minor_times(a2, b0, a0, b2, b1);
        lemma_minor_times(a0, b1, a1, b0, b2);
        lemma_triple(a1, b2, b0);
        lemma_triple(a2, b1, b0);
        lemma_triple(a0, b2, b1);
    }

    /// The operands of the cross product with `rhs`.
    pub fn cross_operands(&self, rhs: &Vector<3>) -> (r: [[Float; 4]; 3])
        ensures
            r == self.cross_operands_spec(*rhs),
    {
        let r = [
            [self.v[1], rhs.v[2], self.v[2], rhs.v[1]],
            [self.v[2], rhs.v[0], self.v[0], rhs.v[2]],
            [self.v[0], rhs.v[1], self.v[1], rhs.v[0]],
        ];
        proof {
            let wanted = self.cross_operands_spec(*rhs);
            assert(r[0] =~= wanted[0]);
            assert(r[1] =~= wanted[1]);
            assert(r[2] =~= wanted[2]);
            assert(r =~= wanted);
        }
        r
    }
}

impl<const N: usize> Index<usize> for Vector<N> {
    type Output = Float;

    /// The component at `index`, which must be below `N`.
    fn index(&self, index: usize) -> (r: &Float)
        ensures
            *r == self.v[index as int],
    {
        &self.v[index]
    }
}

impl<const N: usize> vstd::std_specs::core::IndexSpecImpl<usize> for Vector<N> {
    open spec fn index_req(&self, index: &usize) -> bool {
        *index < N
    }
}

impl<const N: usize> IndexMut<usize> for Vector<N> {
    /// The component at `index`, which must be below `N`, for writing.
    fn index_mut(&mut self, index: usize) -> (r: &mut Float)
        requires
            index < N,
        ensures
            *r == old(self).v[index as int],
            final(self)@ == old(self)@.update(index as int, *final(r)),
    {
        &mut self.v[index]
    }
}

impl<const N: usize> Neg for Vector<N> {
    type Output = Vector<N>;

    /// Flips the sign of every component.
    fn neg(self) -> (r: Vector<N>)
        ensures
            r.is_negation_of(self),
    {
        let mut v = self.v;
        let mut i: usize = 0;
        while i < N
            invariant
                i <= N,
                forall|k: int| 0 <= k < i ==> (#[trigger] v[k]) == self.v[k].negation(),
                forall|k: int| i <= k < N ==> v[k] == self.v[k],
            decreases N - i,
        {
            v[i] = self.v[i].neg();
            i += 1;
        }
        let r = Vector { v };
        proof {
            let chosen = self.negation();
            assert(r.is_negation_of(self));
            assert(chosen.is_negation_of(self));
            assert(r.v =~= chosen.v);
        }
        r
    }
}

impl<const N: usize> vstd::std_specs::ops::NegSpecImpl for Vector<N> {
    open spec fn obeys_neg_spec() -> bool {
        true
    }

    open spec fn neg_req(self) -> bool {
        true
    }

    open spec fn neg_spec(self) -> Vector<N> {
        self.negation()
    }
}

/// A square matrix of `N` rows, each a row of `N` numbers.
#[derive(Clone, Copy, Debug)]
pub struct SquareMatrix<const N: usize> {
    pub m: [[Float; N]; N],
}

pub type Matrix22 = SquareMatrix<2>;

pub type Matrix33 = SquareMatrix<3>;

pub type Matrix44 = SquareMatrix<4>;

impl<const N: usize> SquareMatrix<N> {
    /// The entry in row `i` and column `j`.
    pub open spec fn at(self, i: int, j: int) -> Float {
        self.m[i][j]
    }

    /// Whether `self` is `other` mirrored at its diagonal.
    pub open spec fn is_transpose_of(self, other: SquareMatrix<N>) -> bool {
        forall|i: int, j: int|
            0 <= i < N && 0 <= j < N ==> (#[trigger] self.at(i, j)) == other.at(j, i)
    }

    /// Whether `self` has `1.0` on its diagonal and `+0.0` elsewhere.
    pub open spec fn is_identity(self) -> bool {
        forall|i: int, j: int|
            0 <= i < N && 0 <= j < N ==> (#[trigger] self.at(i, j)).bits == if i == j {
                ONE_BITS
            } else {
                0
            }
    }

    /// Whether `self` holds the entries of `other` with their signs flipped.
    pub open spec fn is_negation_of(self, other: SquareMatrix<N>) -> bool {
        forall|i: int, j: int|
            0 <= i < N && 0 <= j < N ==> (#[trigger] self.at(i, j)) == other.at(i, j).negation()
    }

    /// The matrix with the sign of every entry flipped.
    pub open spec fn negation(self) -> SquareMatrix<N> {
        choose|r: SquareMatrix<N>| r.is_negation_of(self)
    }

    /// Two matrices with the same entries are the same matrix.
    pub proof fn lemma_equal_by_entries(a: SquareMatrix<N>, b: SquareMatrix<N>)
        requires
            forall|i: int, j: int| 0 <= i < N && 0 <= j < N ==> a.at(i, j) == b.at(i, j),
        ensures
            a == b,
    {
        assert forall|i: int| 0 <= i < N implies a.m[i] == b.m[i] by {
            assert forall|j: int| 0 <= j < N implies a.m[i][j] == b.m[i][j] by {
                assert(a.at(i, j) == b.at(i, j));
            }
            assert(a.m[i] =~= b.m[i]);
        }
        assert(a.m =~= b.m);
    }

    /// Transposing twice gives the matrix back, entry for entry.
    pub proof fn lemma_transpose_twice(
        m: SquareMatrix<N>,
        once: SquareMatrix<N>,
        twice: SquareMatrix<N>,
    )
        requires
            once.is_transpose_of(m),
            twice.is_transpose_of(once),
        ensures
            twice == m,
    {
        assert forall|i: int, j: int| 0 <= i < N && 0 <= j < N implies twice.at(i, j) == m.at(
            i,
            j,
        ) by {
            assert(twice.at(i, j) == once.at(j, i));
        }
        Self::lemma_equal_by_entries(twice, m);
    }

    /// The identity is its own transpose.
    pub proof fn lemma_identity_symmetric(id: SquareMatrix<N>, t: SquareMatrix<N>)
        requires
            id.is_identity(),
            t.is_transpose_of(id),
        ensures
            t == id,
    {
        assert forall|i: int, j: int| 0 <= i < N && 0 <= j < N implies t.at(i, j) == id.at(
            i,
            j,
        ) by {
            assert(t.at(i, j) == id.at(j, i));
            assert(id.at(j, i).bits == id.at(i, j).bits);
        }
        Self::lemma_equal_by_entries(t, id);
    }

    /// The sum of the first `n` products of an entry in row `i` of `a` with
    /// the entry of `b` below it in column `j`, as `val` reads them: with `N`
    /// for `n`, the entry in row `i` and column `j` of the matrix product.
    pub open spec fn row_times_column(
        val: spec_fn(Float) -> int,
        a: SquareMatrix<N>,
        b: SquareMatrix<N>,
        i: int,
        j: int,
        n: nat,
    ) -> int
        decreases n,
    {
        if n == 0 {
            0
        } else {
            Self::row_times_column(val, a, b, i, j, (n - 1) as nat) + val(a.at(i, n - 1)) * val(
                b.at(n - 1, j),
            )
        }
    }

    /// In exact arithmetic the inner product of a row of `a` with a row of
    /// the transposed `b` is an entry of the matrix product of `a` and `b`:
    /// what [`SquareMatrix::product_with`] lays out is the product of
    /// matrices. Here it is stated of the first `n` terms.
    pub proof fn lemma_rows_meet_columns(
        val: spec_fn(Float) -> int,
        a: SquareMatrix<N>,
        b: SquareMatrix<N>,
        t: SquareMatrix<N>,
        i: int,
        j: int,
        n: nat,
    )
        requires
            t.is_transpose_of(b),
            0 <= i < N,
            0 <= j < N,
            n <= N,
        ensures
            exact_dot(val, a.m[i]@.take(n as int), t.m[j]@.take(n as int)) == Self::row_times_column(
                val,
                a,
                b,
                i,
                j,
                n,
            ),
        decreases n,
    {
        if n > 0 {
            let x = a.m[i]@.take(n as int);
            let y = t.m[j]@.take(n as int);
            Self::lemma_rows_meet_columns(val, a, b, t, i, j, (n - 1) as nat);
            assert(x.drop_last() =~= a.m[i]@.take(n - 1));
            assert(y.drop_last() =~= t.m[j]@.take(n - 1));
            assert(x.last() == a.at(i, n - 1));
            assert(y.last() == t.at(j, n - 1));
            assert(t.at(j, n - 1) == b.at(n - 1, j));
        }
    }

    pub fn new(m: [[Float; N]; N]) -> (r: SquareMatrix<N>)
        ensures
            r.m == m,
    {
        SquareMatrix { m }
    }

    /// The matrix with `1.0` on its diagonal and `+0.0` elsewhere.
    pub fn identity() -> (r: SquareMatrix<N>)
        ensures
            r.is_identity(),
    {
        let mut m = [[Float::zero(); N]; N];
        let mut i: usize = 0;
        while i < N
            invariant
                i <= N,
                forall|a: int, b: int|
                    0 <= a < N && 0 <= b < N ==> (#[trigger] m[a][b]).bits == if a == b && a < i {
                        ONE_BITS
                    } else {
                        0
                    },
            decreases N - i,
        {
            m[i][i] = Float::one();
            i += 1;
        }
        SquareMatrix { m }
    }

    /// The matrix whose entries are all `+0.0`.
    pub fn zero() -> (r: SquareMatrix<N>)
        ensures
            forall|i: int, j: int| 0 <= i < N && 0 <= j < N ==> (#[trigger] r.at(i, j)).bits == 0,
    {
        SquareMatrix { m: [[Float::zero(); N]; N] }
    }

    /// The matrix mirrored at its diagonal: a pure reindexing.
    pub fn transpose(&self) -> (r: SquareMatrix<N>)
        ensures
            r.is_transpose_of(*self),
    {
        let mut m = self.m;
        let mut i: usize = 0;
        while i < N
            invariant
                i <= N,
                forall|a: int, b: int| 0 <= a < i && 0 <= b < N ==> (#[trigger] m[a][b]) == self.m[b][a],
            decreases N - i,
        {
            let mut j: usize = 0;
            while j < N
                invariant
                    i < N,
                    j <= N,
                    forall|a: int, b: int|
                        0 <= a < i && 0 <= b < N ==> (#[trigger] m[a][b]) == self.m[b][a],
                    forall|b: int| 0 <= b < j ==> (#[trigger] m[i as int][b]) == self.m[b][i as int],
                decreases N - j,
            {
                m[i][j] = self.m[j][i];
                j += 1;
            }
            i += 1;
        }
        SquareMatrix { m }
    }

    /// The matrix of what `op` makes of each entry: the way a matrix is
    /// multiplied or divided by a number.
    pub fn map_with<F: Fn(Float) -> Float>(&self, op: F) -> (r: SquareMatrix<N>)
        requires
            forall|x: Float| call_requires(op, (x,)),
        ensures
            forall|i: int, j: int|
                0 <= i < N && 0 <= j < N ==> call_ensures(
                    op,
                    (self.at(i, j),),
                    #[trigger] r.at(i, j),
                ),
    {
        let mut m = self.m;
        let mut i: usize = 0;
        while i < N
            invariant
                i <= N,
                forall|x: Float| call_requires(op, (x,)),
                forall|a: int, b: int|
                    0 <= a < i && 0 <= b < N ==> call_ensures(
                        op,
                        (self.m[a][b],),
                        #[trigger] m[a][b],
                    ),
            decreases N - i,
        {
            let mut j: usize = 0;
            while j < N
                invariant
                    i < N,
                    j <= N,
                    forall|x: Float| call_requires(op, (x,)),
                    forall|a: int, b: int|
                        0 <= a < i && 0 <= b < N ==> call_ensures(
                            op,
                            (self.m[a][b],),
                            #[trigger] m[a][b],
                        ),
                    forall|b: int|
                        0 <= b < j ==> call_ensures(
                            op,
                            (self.m[i as int][b],),
                            #[trigger] m[i as int][b],
                        ),
                decreases N - j,
            {
                m[i][j] = op(self.m[i][j]);
                j += 1;
            }
            i += 1;
        }
        SquareMatrix { m }
    }

    /// The matrix of what `op` makes of each entry of `self` and the entry of
    /// `rhs` in the same place: the way two matrices are added or subtracted.
    pub fn zip_with<F: Fn(Float, Float) -> Float>(&self, rhs: &SquareMatrix<N>, op: F) -> (r:
        SquareMatrix<N>)
        requires
            forall|x: Float, y: Float| call_requires(op, (x, y)),
        ensures
            forall|i: int, j: int|
                0 <= i < N && 0 <= j < N ==> call_ensures(
                    op,
                    (self.at(i, j), rhs.at(i, j)),
                    #[trigger] r.at(i, j),
                ),
    {
        let mut m = self.m;
        let mut i: usize = 0;
        while i < N
            invariant
                i <= N,
                forall|x: Float, y: Float| call_requires(op, (x, y)),
                forall|a: int, b: int|
                    0 <= a < i && 0 <= b < N ==> call_ensures(
                        op,
                        (self.m[a][b], rhs.m[a][b]),
                        #[trigger] m[a][b],
                    ),
            decreases N - i,
        {
            let mut j: usize = 0;
            while j < N
                invariant
                    i < N,
                    j <= N,
                    forall|x: Float, y: Float| call_requires(op, (x, y)),
                    forall|a: int, b: int|
                        0 <= a < i && 0 <= b < N ==> call_ensures(
                            op,
                            (self.m[a][b], rhs.m[a][b]),
                            #[trigger] m[a][b],
                        ),
                    forall|b: int|
                        0 <= b < j ==> call_ensures(
                            op,
                            (self.m[i as int][b], rhs.m[i as int][b]),
                            #[trigger] m[i as int][b],
                        ),
                decreases N - j,
            {
                m[i][j] = op(self.m[i][j], rhs.m[i][j]);
                j += 1;
            }
            i += 1;
        }
        SquareMatrix { m }
    }

    /// The product of two matrices: the entry in row `i` and column `j` is
    /// what `dot` makes of row `i` of `self` and row `j` of the transposed
    /// `rhs`, which is column `j` of `rhs`.
    pub fn product_with<F: Fn(&[Float; N], &[Float; N]) -> Float>(
        &self,
        rhs: &SquareMatrix<N>,
        dot: F,
    ) -> (r: SquareMatrix<N>)
        requires
            forall|x: &[Float; N], y: &[Float; N]| call_requires(dot, (x, y)),
        ensures
            exists|t: SquareMatrix<N>|
                t.is_transpose_of(*rhs) && forall|i: int, j: int|
                    0 <= i < N && 0 <= j < N ==> call_ensures(
                        dot,
                        (&self.m[i], &t.m[j]),
                        #[trigger] r.at(i, j),
                    ),
    {
        let t = rhs.transpose();
        let mut m = self.m;
        let mut i: usize = 0;
        while i < N
            invariant
                i <= N,
                forall|x: &[Float; N], y: &[Float; N]| call_requires(dot, (x, y)),
                forall|a: int, b: int|
                    0 <= a < i && 0 <= b < N ==> call_ensures(
                        dot,
                        (&self.m[a], &t.m[b]),
                        #[trigger] m[a][b],
                    ),
            decreases N - i,
        {
            let mut j: usize = 0;
            while j < N
                invariant
                    i < N,
                    j <= N,
                    forall|x: &[Float; N], y: &[Float; N]| call_requires(dot, (x, y)),
                    forall|a: int, b: int|
                        0 <= a < i && 0 <= b < N ==> call_ensures(
                            dot,
                            (&self.m[a], &t.m[b]),
                            #[trigger] m[a][b],
                        ),
                    forall|b: int|
                        0 <= b < j ==> call_ensures(
                            dot,
                            (&self.m[i as int], &t.m[b]),
                            #[trigger] m[i as int][b],
                        ),
                decreases N - j,
            {
                m[i][j] = dot(&self.m[i], &t.m[j]);
                j += 1;
            }
            i += 1;
        }
        let r = SquareMatrix { m };
        assert(forall|i: int, j: int|
            0 <= i < N && 0 <= j < N ==> call_ensures(
                dot,
                (&self.m[i], &t.m[j]),
                #[trigger] r.at(i, j),
            ));
        r
    }

    /// The product of the matrix with a column vector: component `i` is what
    /// `dot` makes of row `i` and the vector.
    pub fn apply_with<F: Fn(&[Float; N], &[Float; N]) -> Float>(&self, rhs: &Vector<N>, dot: F) -> (r:
        Vector<N>)
        requires
            forall|x: &[Float; N], y: &[Float; N]| call_requires(dot, (x, y)),
        ensures
            forall|i: int|
                0 <= i < N ==> call_ensures(dot, (&self.m[i], &rhs.v), #[trigger] r.v[i]),
    {
        let mut v = rhs.v;
        let mut i: usize = 0;
        while i < N
            invariant
                i <= N,
                forall|x: &[Float; N], y: &[Float; N]| call_requires(dot, (x, y)),
                forall|k: int|
                    0 <= k < i ==> call_ensures(dot, (&self.m[k], &rhs.v), #[trigger] v[k]),
            decreases N - i,
        {
            v[i] = dot(&self.m[i], &rhs.v);
            i += 1;
        }
        Vector { v }
    }
}

impl<const N: usize> Index<usize> for SquareMatrix<N> {
    type Output = [Float; N];

    /// The row at `index`, which must be below `N`.
    fn index(&self, index: usize) -> (r: &[Float; N])
        ensures
            *r == self.m[index as int],
    {
        &self.m[index]
    }
}

impl<const N: usize> vstd::std_specs::core::IndexSpecImpl<usize> for SquareMatrix<N> {
    open spec fn index_req(&self, index: &usize) -> bool {
        *index < N
    }
}

impl<const N: usize> Neg for SquareMatrix<N> {
    type Output = SquareMatrix<N>;

    /// Flips the sign of every entry.
    fn neg(self) -> (r: SquareMatrix<N>)
        ensures
            r.is_negation_of(self),
    {
        let mut m = self.m;
        let mut i: usize = 0;
        while i < N
            invariant
                i <= N,
                forall|a: int, b: int|
                    0 <= a < i && 0 <= b < N ==> (#[trigger] m[a][b]) == self.m[a][b].negation(),
                forall|a: int| i <= a < N ==> (#[trigger] m[a]) == self.m[a],
            decreases N - i,
        {
            let mut j: usize = 0;
            while j < N
                invariant
                    i < N,
                    j <= N,
                    forall|a: int, b: int|
                        0 <= a < i && 0 <= b < N ==> (#[trigger] m[a][b]) == self.m[a][b].negation(),
                    forall|a: int| i < a < N ==> (#[trigger] m[a]) == self.m[a],
                    forall|b: int|
                        0 <= b < j ==> (#[trigger] m[i as int][b]) == self.m[i as int][b].negation(),
                    forall|b: int| j <= b < N ==> (#[trigger] m[i as int][b]) == self.m[i as int][b],
                decreases N - j,
            {
                m[i][j] = self.m[i][j].neg();
                j += 1;
            }
            i += 1;
        }
        let r = SquareMatrix { m };
        proof {
            assert(r.is_negation_of(self));
            let chosen = self.negation();
            assert(chosen.is_negation_of(self));
            Self::lemma_equal_by_entries(r, chosen);
        }
        r
    }
}

impl<const N: usize> vstd::std_specs::ops::NegSpecImpl for SquareMatrix<N> {
    open spec fn obeys_neg_spec() -> bool {
        true
    }

    open spec fn neg_req(self) -> bool {
        true
    }

    open spec fn neg_spec(self) -> SquareMatrix<N> {
        self.negation()
    }
}

/// An axis-aligned range in `N` dimensions: on each axis a pair of a lower
/// and an upper end, both inside the range.
#[derive(Clone, Copy, Debug)]
pub struct Bound<const N: usize> {
    pub b: [(Float, Float); N],
}

/// The range of ray parameters in which a hit is accepted.
pub type Interval = Bound<1>;

impl<const N: usize> Bound<N> {
    /// The lower end on axis `i`.
    pub open spec fn lower(self, i: int) -> Float {
        self.b[i].0
    }

    /// The upper end on axis `i`.
    pub open spec fn upper(self, i: int) -> Float {
        self.b[i].1
    }

    /// Whether on every axis the lower end is at most the upper end.
    pub open spec fn is_ordered(self) -> bool {
        forall|i: int| 0 <= i < N ==> (#[trigger] self.lower(i)).le_spec(self.upper(i))
    }

    /// Whether on every axis the ends are the smaller and the greater of the
    /// pair that `pairs` gives for it.
    pub open spec fn is_normal_form_of(self, pairs: [(Float, Float); N]) -> bool {
        forall|i: int|
            0 <= i < N ==> (#[trigger] self.b[i]) == (
                pairs[i].0.min_spec(pairs[i].1),
                pairs[i].0.max_spec(pairs[i].1),
            )
    }

    /// Whether `v` lies in the range: on every axis the component is at
    /// least the lower end and at most the upper end. Neither holds of a NaN,
    /// so a vector with a NaN component lies in no range, and a range with a
    /// NaN end holds nothing.
    pub open spec fn contains_spec(self, v: Vector<N>) -> bool {
        forall|i: int|
            0 <= i < N ==> (#[trigger] self.lower(i)).le_spec(v.v[i]) && v.v[i].le_spec(
                self.upper(i),
            )
    }

    /// Whether `r` is `v` with each component held to the range on its axis.
    pub open spec fn clamps_to(self, v: Vector<N>, r: Vector<N>) -> bool {
        forall|i: int|
            0 <= i < N ==> (#[trigger] r.v[i]) == v.v[i].clamp_spec(self.lower(i), self.upper(i))
    }

    /// Two ranges with the same ends are the same range.
    pub proof fn lemma_equal_by_ends(x: Bound<N>, y: Bound<N>)
        requires
            forall|i: int| 0 <= i < N ==> x.b[i] == y.b[i],
        ensures
            x == y,
    {
        assert(x.b =~= y.b);
    }

    /// The ends of a range do not depend on the order in which each pair was
    /// given: where `swapped` holds the pairs of `given`, some of them with
    /// their ends exchanged, both have the same normal form.
    pub proof fn lemma_order_independent(
        given: [(Float, Float); N],
        swapped: [(Float, Float); N],
        from_given: Bound<N>,
        from_swapped: Bound<N>,
    )
        requires
            forall|i: int|
                0 <= i < N ==> swapped[i] == given[i] || swapped[i] == (given[i].1, given[i].0),
            from_given.is_normal_form_of(given),
            from_swapped.is_normal_form_of(swapped),
        ensures
            from_given == from_swapped,
    {
        assert forall|i: int| 0 <= i < N implies from_given.b[i] == from_swapped.b[i] by {
            Float::lemma_min_commutes(given[i].0, given[i].1);
            Float::lemma_max_commutes(given[i].0, given[i].1);
        }
        Self::lemma_equal_by_ends(from_given, from_swapped);
    }

    /// A normal form is ordered on every axis whose pair was not two NaNs.
    pub proof fn lemma_normal_form_ordered(pairs: [(Float, Float); N], bound: Bound<N>)
        requires
            bound.is_normal_form_of(pairs),
            forall|i: int|
                0 <= i < N ==> !(#[trigger] pairs[i]).0.is_nan_spec() || !pairs[i].1.is_nan_spec(),
        ensures
            bound.is_ordered(),
    {
        assert forall|i: int| 0 <= i < N implies (#[trigger] bound.lower(i)).le_spec(
            bound.upper(i),
        ) by {
            assert(bound.b[i] == (
                pairs[i].0.min_spec(pairs[i].1),
                pairs[i].0.max_spec(pairs[i].1),
            ));
            Float::lemma_min_le_max(pairs[i].0, pairs[i].1);
        }
    }

    /// A vector without a NaN, held to an ordered range, lies in that range.
    pub proof fn lemma_clamped_is_contained(bound: Bound<N>, v: Vector<N>, r: Vector<N>)
        requires
            bound.is_ordered(),
            bound.clamps_to(v, r),
            forall|i: int| 0 <= i < N ==> !v.v[i].is_nan_spec(),
        ensures
            bound.contains_spec(r),
    {
        assert forall|i: int| 0 <= i < N implies (#[trigger] bound.lower(i)).le_spec(r.v[i])
            && r.v[i].le_spec(bound.upper(i)) by {
            assert(r.v[i] == v.v[i].clamp_spec(bound.lower(i), bound.upper(i)));
            Float::lemma_clamp_in_range(v.v[i], bound.lower(i), bound.upper(i));
        }
    }

    /// Holding a vector to a range in which it lies changes nothing.
    pub proof fn lemma_contained_is_unchanged(bound: Bound<N>, v: Vector<N>, r: Vector<N>)
        requires
            bound.contains_spec(v),
            bound.clamps_to(v, r),
        ensures
            r == v,
    {
        assert forall|i: int| 0 <= i < N implies r.v[i] == v.v[i] by {
            assert(bound.lower(i).le_spec(v.v[i]));
            assert(r.v[i] == v.v[i].clamp_spec(bound.lower(i), bound.upper(i)));
        }
        assert(r.v =~= v.v);
    }

    /// What lies in a range is a number on every axis, and a range in which
    /// anything lies is ordered.
    pub proof fn lemma_contained_is_number(bound: Bound<N>, v: Vector<N>)
        requires
            bound.contains_spec(v),
        ensures
            forall|i: int| 0 <= i < N ==> !(#[trigger] v.v[i]).is_nan_spec(),
            bound.is_ordered(),
    {
        assert forall|i: int| 0 <= i < N implies !(#[trigger] v.v[i]).is_nan_spec() by {
            assert(bound.lower(i).le_spec(v.v[i]));
        }
        assert forall|i: int| 0 <= i < N implies (#[trigger] bound.lower(i)).le_spec(
            bound.upper(i),
        ) by {
            let low = bound.lower(i);
            assert(low.le_spec(v.v[i]));
            assert(v.v[i].le_spec(bound.upper(i)));
            Float::lemma_le_transitive(low, v.v[i], bound.upper(i));
        }
    }

    /// A vector with a NaN component lies in no range.
    pub proof fn lemma_nan_is_outside(bound: Bound<N>, v: Vector<N>, axis: int)
        requires
            0 <= axis < N,
            v.v[axis].is_nan_spec(),
        ensures
            !bound.contains_spec(v),
    {
        if bound.contains_spec(v) {
            assert(bound.lower(axis).le_spec(v.v[axis]));
        }
    }

    /// A vector with an infinite component on an axis whose ends are both
    /// finite lies outside the range.
    pub proof fn lemma_infinite_is_outside(bound: Bound<N>, v: Vector<N>, axis: int)
        requires
            0 <= axis < N,
            bound.lower(axis).is_finite_spec(),
            bound.upper(axis).is_finite_spec(),
            v.v[axis].is_infinite_spec(),
        ensures
            !bound.contains_spec(v),
    {
        if bound.contains_spec(v) {
            assert(bound.lower(axis).le_spec(v.v[axis]) && v.v[axis].le_spec(bound.upper(axis)));
        }
    }

    /// The range with the given pair of ends on each axis, each pair put in
    /// order: the lower end is the smaller of the two, whichever came first.
    pub fn new(bound: [(Float, Float); N]) -> (r: Bound<N>)
        ensures
            r.is_normal_form_of(bound),
            (forall|i: int|
                0 <= i < N ==> !(#[trigger] bound[i]).0.is_nan_spec() || !bound[i].1.is_nan_spec())
                ==> r.is_ordered(),
    {
        let mut b = bound;
        let mut i: usize = 0;
        while i < N
            invariant
                i <= N,
                forall|k: int|
                    0 <= k < i ==> (#[trigger] b[k]) == (
                        bound[k].0.min_spec(bound[k].1),
                        bound[k].0.max_spec(bound[k].1),
                    ),
            decreases N - i,
        {
            let pair = bound[i];
            b[i] = (pair.0.min(pair.1), pair.0.max(pair.1));
            i += 1;
        }
        let r = Bound { b };
        proof {
            if forall|i: int|
                0 <= i < N ==> !(#[trigger] bound[i]).0.is_nan_spec() || !bound[i].1.is_nan_spec() {
                Self::lemma_normal_form_ordered(bound, r);
            }
        }
        r
    }

    /// The range that on every axis runs from negative to positive infinity.
    pub fn all() -> (r: Bound<N>)
        ensures
            forall|i: int|
                0 <= i < N ==> (#[trigger] r.b[i]) == (
                    Float { bits: 0xfff0_0000_0000_0000 },
                    Float { bits: INFINITY_BITS },
                ),
    {
        Bound { b: [(Float::neg_infinity(), Float::infinity()); N] }
    }

    /// Holds each component of `vector` to the range on its axis. The range
    /// must be ordered on every axis.
    pub fn clamp(&self, vector: &Vector<N>) -> (r: Vector<N>)
        requires
            self.is_ordered(),
        ensures
            self.clamps_to(*vector, r),
    {
        let mut v = vector.v;
        let mut d: usize = 0;
        while d < N
            invariant
                d <= N,
                self.is_ordered(),
                forall|k: int|
                    0 <= k < d ==> (#[trigger] v[k]) == vector.v[k].clamp_spec(
                        self.lower(k),
                        self.upper(k),
                    ),
            decreases N - d,
        {
            assert(self.lower(d as int).le_spec(self.upper(d as int)));
            v[d] = vector.v[d].clamp(self.b[d].0, self.b[d].1);
            d += 1;
        }
        Vector { v }
    }

    /// Whether `v` lies in the range.
    pub fn contains(&self, v: &Vector<N>) -> (r: bool)
        ensures
            r == self.contains_spec(*v),
    {
        let mut i: usize = 0;
        while i < N
            invariant
                i <= N,
                forall|k: int|
                    0 <= k < i ==> (#[trigger] self.lower(k)).le_spec(v.v[k]) && v.v[k].le_spec(
                        self.upper(k),
                    ),
            decreases N - i,
        {
            let (lo, hi) = self.b[i];
            let x = v.v[i];
            assert(lo == self.lower(i as int) && hi == self.upper(i as int));
            if !(lo <= x && x <= hi) {
                return false;
            }
            assert forall|k: int| 0 <= k < i + 1 implies (#[trigger] self.lower(k)).le_spec(
                v.v[k],
            ) && v.v[k].le_spec(self.upper(k)) by {
                if k == i {
                    assert(lo == self.lower(k) && hi == self.upper(k));
                }
            }
            i += 1;
        }
        true
    }

    /// Replaces the pair of ends on axis `index`.
    pub fn set(&mut self, index: usize, ends: (Float, Float))
        requires
            index < N,
        ensures
            final(self).b@ == old(self).b@.update(index as int, ends),
    {
        self.b[index] = ends;
    }
}

impl<const N: usize> Index<usize> for Bound<N> {
    type Output = (Float, Float);

    /// The pair of ends on axis `index`, which must be below `N`.
    fn index(&self, index: usize) -> (r: &(Float, Float))
        ensures
            *r == self.b[index as int],
    {
        &self.b[index]
    }
}

impl<const N: usize> vstd::std_specs::core::IndexSpecImpl<usize> for Bound<N> {
    open spec fn index_req(&self, index: &usize) -> bool {
        *index < N
    }
}

impl<const N: usize> IndexMut<usize> for Bound<N> {
    /// The pair of ends on axis `index`, which must be below `N`, for writing.
    fn index_mut(&mut self, index: usize) -> (r: &mut (Float, Float))
        requires
            index < N,
        ensures
            *r == old(self).b[index as int],
            final(self).b@ == old(self).b@.update(index as int, *final(r)),
    {
        &mut self.b[index]
    }
}

} // verus!
