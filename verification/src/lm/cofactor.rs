use crate::lm::algebra::{
    lemma_minor_times, lemma_repeated_row, lemma_signs, lemma_spread, lemma_times_zero,
    lemma_triple,
};
use crate::lm::exact::{exact_inner3, exact_inner6, exact_minor, respects_negation};
use crate::lm::float::Float;
use crate::lm::math::SquareMatrix;
use std::ops::Neg;
use vstd::prelude::*;

verus! {

/// The six 2x2 minors of two rows of four, one for each pair of columns:
/// (0, 1), (0, 2), (0, 3), (1, 2), (1, 3), (2, 3).
pub open spec fn minors_of(u: Seq<int>, v: Seq<int>) -> Seq<int> {
    seq![
        u[0] * v[1] - v[0] * u[1],
        u[0] * v[2] - v[0] * u[2],
        u[0] * v[3] - v[0] * u[3],
        u[1] * v[2] - v[1] * u[2],
        u[1] * v[3] - v[1] * u[3],
        u[2] * v[3] - v[2] * u[3],
    ]
}

/// The determinant of a 4x4 matrix from the minors `s` of its first two rows
/// and the minors `c` of its last two: each minor times the minor of the
/// other two columns in the other two rows, with the sign of the permutation.
pub open spec fn determinant_of(s: Seq<int>, c: Seq<int>) -> int {
    s[0] * c[5] - s[1] * c[4] + s[2] * c[3] + s[3] * c[2] - s[4] * c[1] + s[5] * c[0]
}

/// The four cofactors that the row `r` has with the minors `x` of two other rows.
pub open spec fn cofactors_of(r: Seq<int>, x: Seq<int>) -> Seq<int> {
    seq![
        r[1] * x[5] + r[3] * x[3] - r[2] * x[4],
        -r[0] * x[5] + r[2] * x[2] - r[3] * x[1],
        r[0] * x[4] + r[3] * x[0] - r[1] * x[2],
        -r[0] * x[3] + r[1] * x[1] - r[2] * x[0],
    ]
}

/// The inner product of two rows of four.
pub open spec fn dot4(u: Seq<int>, v: Seq<int>) -> int {
    u[0] * v[0] + u[1] * v[1] + u[2] * v[2] + u[3] * v[3]
}

/// The inner product of a row `v` with the cofactors of a row `r` is the
/// determinant made of the minors of `v` and `r` and the minors `x`.
proof fn lemma_pairing(
    v0: int, v1: int, v2: int, v3: int,
    r0: int, r1: int, r2: int, r3: int,
    x0: int, x1: int, x2: int, x3: int, x4: int, x5: int,
)
    ensures
        v0 * (r1 * x5 + r3 * x3 - r2 * x4) + v1 * (-r0 * x5 + r2 * x2 - r3 * x1) + v2 * (r0 * x4
            + r3 * x0 - r1 * x2) + v3 * (-r0 * x3 + r1 * x1 - r2 * x0) == (v0 * r1 - r0 * v1) * x5
            - (v0 * r2 - r0 * v2) * x4 + (v0 * r3 - r0 * v3) * x3 + (v1 * r2 - r1 * v2) * x2 - (v1
            * r3 - r1 * v3) * x1 + (v2 * r3 - r2 * v3) * x0,
{
    lemma_spread(v0, r1 * x5, r3 * x3, r2 * x4);
    lemma_spread(v1, -r0 * x5, r2 * x2, r3 * x1);
    lemma_spread(v2, r0 * x4, r3 * x0, r1 * x2);
    lemma_spread(v3, -r0 * x3, r1 * x1, r2 * x0);
    lemma_triple(v0, r1, x5);
    lemma_triple(v0, r3, x3);
    lemma_triple(v0, r2, x4);
    lemma_triple(v1, r0, x5);
    lemma_triple(v1, r2, x2);
    lemma_triple(v1, r3, x1);
    lemma_triple(v2, r0, x4);
    lemma_triple(v2, r3, x0);
    lemma_triple(v2, r1, x2);
    lemma_triple(v3, r0, x3);
    lemma_triple(v3, r1, x1);
    lemma_triple(v3, r2, x0);
    lemma_minor_times(v0, r1, r0, v1, x5);
    lemma_minor_times(v0, r2, r0, v2, x4);
    lemma_minor_times(v0, r3, r0, v3, x3);
    lemma_minor_times(v1, r2, r1, v2, x2);
    lemma_minor_times(v1, r3, r1, v3, x1);
    lemma_minor_times(v2, r3, r2, v3, x0);
}

/// The inner product of a row `u` with the cofactors of a row `r`, sorted by
/// the entries of `r`.
proof fn lemma_regroup(
    u0: int, u1: int, u2: int, u3: int,
    r0: int, r1: int, r2: int, r3: int,
    x0: int, x1: int, x2: int, x3: int, x4: int, x5: int,
)
    ensures
        u0 * (r1 * x5 + r3 * x3 - r2 * x4) + u1 * (-r0 * x5 + r2 * x2 - r3 * x1) + u2 * (r0 * x4
            + r3 * x0 - r1 * x2) + u3 * (-r0 * x3 + r1 * x1 - r2 * x0) == r1 * (u0 * x5 + u3 * x1
            - u2 * x2) + r3 * (u0 * x3 + u2 * x0 - u1 * x1) - r0 * (u1 * x5 + u3 * x3 - u2 * x4)
            - r2 * (u0 * x4 + u3 * x0 - u1 * x2),
{
    lemma_spread(u0, r1 * x5, r3 * x3, r2 * x4);
    lemma_spread(u1, -r0 * x5, r2 * x2, r3 * x1);
    lemma_spread(u2, r0 * x4, r3 * x0, r1 * x2);
    lemma_spread(u3, -r0 * x3, r1 * x1, r2 * x0);
    lemma_triple(u0, r1, x5);
    lemma_triple(u0, r3, x3);
    lemma_triple(u0, r2, x4);
    lemma_triple(u1, r0, x5);
    lemma_triple(u1, r2, x2);
    lemma_triple(u1, r3, x1);
    lemma_triple(u2, r0, x4);
    lemma_triple(u2, r3, x0);
    lemma_triple(u2, r1, x2);
    lemma_triple(u3, r0, x3);
    lemma_triple(u3, r1, x1);
    lemma_triple(u3, r2, x0);
    lemma_spread(r1, u0 * x5, u3 * x1, u2 * x2);
    lemma_spread(r3, u0 * x3, u2 * x0, u1 * x1);
    lemma_spread(r0, u1 * x5, u3 * x3, u2 * x4);
    lemma_spread(r2, u0 * x4, u3 * x0, u1 * x2);
    lemma_triple(r1, u0, x5);
    lemma_triple(r1, u3, x1);
    lemma_triple(r1, u2, x2);
    lemma_triple(r3, u0, x3);
    lemma_triple(r3, u2, x0);
    lemma_triple(r3, u1, x1);
    lemma_triple(r0, u1, x5);
    lemma_triple(r0, u3, x3);
    lemma_triple(r0, u2, x4);
    lemma_triple(r2, u0, x4);
    lemma_triple(r2, u3, x0);
    lemma_triple(r2, u1, x2);
}

/// The inner product of a row with the cofactors that another row has with
/// minors: the determinant made of the minors of the two rows and those
/// minors.
pub proof fn lemma_row_meets_cofactors(v: Seq<int>, r: Seq<int>, x: Seq<int>)
    requires
        v.len() == 4,
        r.len() == 4,
        x.len() == 6,
    ensures
        dot4(v, cofactors_of(r, x)) == determinant_of(minors_of(v, r), x),
{
    lemma_pairing(v[0], v[1], v[2], v[3], r[0], r[1], r[2], r[3], x[0], x[1], x[2], x[3], x[4], x[5]);
}

/// A row is perpendicular to the cofactors that any row has with the minors
/// of that row and another.
pub proof fn lemma_row_misses_cofactors(u: Seq<int>, v: Seq<int>, r: Seq<int>)
    requires
        u.len() == 4,
        v.len() == 4,
        r.len() == 4,
    ensures
        dot4(u, cofactors_of(r, minors_of(u, v))) == 0,
        dot4(v, cofactors_of(r, minors_of(u, v))) == 0,
{
    let x = minors_of(u, v);
    lemma_regroup(u[0], u[1], u[2], u[3], r[0], r[1], r[2], r[3], x[0], x[1], x[2], x[3], x[4], x[5]);
    lemma_regroup(v[0], v[1], v[2], v[3], r[0], r[1], r[2], r[3], x[0], x[1], x[2], x[3], x[4], x[5]);
    lemma_repeated_row(u[0], u[2], u[3], v[0], v[2], v[3]);
    lemma_repeated_row(u[0], u[1], u[2], v[0], v[1], v[2]);
    lemma_repeated_row(u[1], u[2], u[3], v[1], v[2], v[3]);
    lemma_repeated_row(u[0], u[1], u[3], v[0], v[1], v[3]);
    assert(x[5] == u[2] * v[3] - v[2] * u[3]);
    assert(x[4] == u[1] * v[3] - v[1] * u[3]);
    assert(x[3] == u[1] * v[2] - v[1] * u[2]);
    assert(x[2] == u[0] * v[3] - v[0] * u[3]);
    assert(x[1] == u[0] * v[2] - v[0] * u[2]);
    assert(x[0] == u[0] * v[1] - v[0] * u[1]);
    assert(u[0] * x[5] + u[3] * x[1] - u[2] * x[2] == 0);
    assert(u[0] * x[3] + u[2] * x[0] - u[1] * x[1] == 0);
    assert(u[1] * x[5] + u[3] * x[3] - u[2] * x[4] == 0);
    assert(u[0] * x[4] + u[3] * x[0] - u[1] * x[2] == 0);
    assert(v[0] * x[5] + v[3] * x[1] - v[2] * x[2] == 0);
    assert(v[0] * x[3] + v[2] * x[0] - v[1] * x[1] == 0);
    assert(v[1] * x[5] + v[3] * x[3] - v[2] * x[4] == 0);
    assert(v[0] * x[4] + v[3] * x[0] - v[1] * x[2] == 0);
    lemma_times_zero(r[1], u[0] * x[5] + u[3] * x[1] - u[2] * x[2]);
    lemma_times_zero(r[3], u[0] * x[3] + u[2] * x[0] - u[1] * x[1]);
    lemma_times_zero(r[0], u[1] * x[5] + u[3] * x[3] - u[2] * x[4]);
    lemma_times_zero(r[2], u[0] * x[4] + u[3] * x[0] - u[1] * x[2]);
    lemma_times_zero(r[1], v[0] * x[5] + v[3] * x[1] - v[2] * x[2]);
    lemma_times_zero(r[3], v[0] * x[3] + v[2] * x[0] - v[1] * x[1]);
    lemma_times_zero(r[0], v[1] * x[5] + v[3] * x[3] - v[2] * x[4]);
    lemma_times_zero(r[2], v[0] * x[4] + v[3] * x[0] - v[1] * x[2]);
}

/// The determinant does not depend on which pair of rows comes first.
pub proof fn lemma_determinant_symmetric(s: Seq<int>, c: Seq<int>)
    requires
        s.len() == 6,
        c.len() == 6,
    ensures
        determinant_of(c, s) == determinant_of(s, c),
{
    lemma_signs(s[0], c[5]);
    lemma_signs(s[1], c[4]);
    lemma_signs(s[2], c[3]);
    lemma_signs(s[3], c[2]);
    lemma_signs(s[4], c[1]);
    lemma_signs(s[5], c[0]);
}

/// Negating the minors of one pair of rows negates the determinant.
pub proof fn lemma_determinant_negated(s: Seq<int>, t: Seq<int>, c: Seq<int>)
    requires
        s.len() == 6,
        t.len() == 6,
        c.len() == 6,
        forall|k: int| 0 <= k < 6 ==> t[k] == -s[k],
    ensures
        determinant_of(t, c) == -determinant_of(s, c),
{
    lemma_signs(s[0], c[5]);
    lemma_signs(s[1], c[4]);
    lemma_signs(s[2], c[3]);
    lemma_signs(s[3], c[2]);
    lemma_signs(s[4], c[1]);
    lemma_signs(s[5], c[0]);
}

/// The determinant is zero where the minors of one pair of rows all are.
pub proof fn lemma_determinant_zero(s: Seq<int>, c: Seq<int>)
    requires
        s.len() == 6,
        c.len() == 6,
        forall|k: int| 0 <= k < 6 ==> s[k] == 0,
    ensures
        determinant_of(s, c) == 0,
{
    lemma_times_zero(c[5], s[0]);
    lemma_times_zero(c[4], s[1]);
    lemma_times_zero(c[3], s[2]);
    lemma_times_zero(c[2], s[3]);
    lemma_times_zero(c[1], s[4]);
    lemma_times_zero(c[0], s[5]);
    lemma_signs(s[0], c[5]);
    lemma_signs(s[1], c[4]);
    lemma_signs(s[2], c[3]);
    lemma_signs(s[3], c[2]);
    lemma_signs(s[4], c[1]);
    lemma_signs(s[5], c[0]);
}

/// A row of four with every entry negated.
pub open spec fn negated4(v: Seq<int>) -> Seq<int> {
    seq![-v[0], -v[1], -v[2], -v[3]]
}

/// Negating one of two rows negates their inner product.
pub proof fn lemma_dot_negated(v: Seq<int>, w: Seq<int>)
    requires
        v.len() == 4,
        w.len() == 4,
    ensures
        dot4(v, negated4(w)) == -dot4(v, w),
{
    lemma_signs(v[0], w[0]);
    lemma_signs(v[1], w[1]);
    lemma_signs(v[2], w[2]);
    lemma_signs(v[3], w[3]);
}

/// Whether `m` is four rows of four.
pub open spec fn is_4x4(m: Seq<Seq<int>>) -> bool {
    m.len() == 4 && forall|i: int| 0 <= i < 4 ==> (#[trigger] m[i]).len() == 4
}

/// The determinant of a 4x4 matrix, by the minors of its upper and of its
/// lower two rows.
pub open spec fn determinant(m: Seq<Seq<int>>) -> int {
    determinant_of(minors_of(m[0], m[1]), minors_of(m[2], m[3]))
}

/// Column `j` of the adjugate of a 4x4 matrix: the cofactors that the
/// partner of row `j` in its pair has with the minors of the other pair,
/// negated for the second row of a pair.
pub open spec fn adjugate_column(m: Seq<Seq<int>>, j: int) -> Seq<int> {
    if j == 0 {
        cofactors_of(m[1], minors_of(m[2], m[3]))
    } else if j == 1 {
        negated4(cofactors_of(m[0], minors_of(m[2], m[3])))
    } else if j == 2 {
        cofactors_of(m[3], minors_of(m[0], m[1]))
    } else {
        negated4(cofactors_of(m[2], minors_of(m[0], m[1])))
    }
}

/// A matrix times its adjugate is the determinant times the identity: row
/// `i` of the matrix and column `j` of the adjugate have the determinant as
/// their inner product where `i` is `j`, and 0 elsewhere.
pub proof fn lemma_adjugate(m: Seq<Seq<int>>, i: int, j: int)
    requires
        is_4x4(m),
        0 <= i < 4,
        0 <= j < 4,
    ensures
        dot4(m[i], adjugate_column(m, j)) == if i == j {
            determinant(m)
        } else {
            0
        },
{
    let upper = minors_of(m[0], m[1]);
    let lower = minors_of(m[2], m[3]);
    let partner = if j == 0 {
        1int
    } else if j == 1 {
        0int
    } else if j == 2 {
        3int
    } else {
        2int
    };
    let other = if j < 2 {
        lower
    } else {
        upper
    };
    let plain = cofactors_of(m[partner], other);
    if j == 1 || j == 3 {
        lemma_dot_negated(m[i], plain);
    }
    if (i < 2) != (j < 2) {
        if j < 2 {
            lemma_row_misses_cofactors(m[2], m[3], m[partner]);
        } else {
            lemma_row_misses_cofactors(m[0], m[1], m[partner]);
        }
    } else {
        lemma_row_meets_cofactors(m[i], m[partner], other);
        let met = minors_of(m[i], m[partner]);
        if i == partner {
            lemma_determinant_zero(met, other);
        } else if j == 0 {
            assert(met =~= upper);
        } else if j == 1 {
            lemma_determinant_negated(upper, met, other);
        } else if j == 2 {
            assert(met =~= lower);
            lemma_determinant_symmetric(upper, lower);
        } else {
            lemma_determinant_negated(lower, met, other);
            lemma_determinant_symmetric(upper, lower);
        }
    }
}

/// The two columns of the pair with the given number.
pub open spec fn pair_spec(k: int) -> (int, int) {
    if k == 0 {
        (0, 1)
    } else if k == 1 {
        (0, 2)
    } else if k == 2 {
        (0, 3)
    } else if k == 3 {
        (1, 2)
    } else if k == 4 {
        (1, 3)
    } else {
        (2, 3)
    }
}

/// A term of a cofactor: whether it is subtracted, which entry of the row it
/// takes, and which minor.
pub type Term = (bool, int, int);

/// The three terms of the cofactor with the given number, as
/// [`cofactors_of`] lists them.
pub open spec fn terms_spec(k: int) -> (Term, Term, Term) {
    if k == 0 {
        ((false, 1, 5), (false, 3, 3), (true, 2, 4))
    } else if k == 1 {
        ((true, 0, 5), (false, 2, 2), (true, 3, 1))
    } else if k == 2 {
        ((false, 0, 4), (false, 3, 0), (true, 1, 2))
    } else {
        ((true, 0, 3), (false, 1, 1), (true, 2, 0))
    }
}

/// `value`, or its negation where `negative` is set.
pub open spec fn signed_spec(value: Float, negative: bool) -> Float {
    if negative {
        value.negation()
    } else {
        value
    }
}

#[verifier::when_used_as_spec(signed_spec)]
pub fn signed(value: Float, negative: bool) -> (r: Float)
    ensures
        r == signed_spec(value, negative),
{
    if negative {
        value.neg()
    } else {
        value
    }
}

/// The row that shares a pair with row `j`.
pub open spec fn partner_spec(j: int) -> int {
    if j == 0 {
        1
    } else if j == 1 {
        0
    } else if j == 2 {
        3
    } else {
        2
    }
}

impl SquareMatrix<4> {
    /// The operands `(a, b, c, d)` of the minor with number `k`, which is
    /// `a * b - c * d`. Numbers 0 to 5 are the minors of the upper two rows,
    /// one for each pair of columns; numbers 6 to 11 those of the lower two.
    pub open spec fn minor_operands_spec(self, k: int) -> [Float; 4] {
        let (a, b) = pair_spec(k % 6);
        let (u, v) = if k < 6 {
            (0int, 1int)
        } else {
            (2int, 3int)
        };
        [self.at(u, a), self.at(v, b), self.at(v, a), self.at(u, b)]
    }

    /// The operands of the inner product that makes the entry in row `i` and
    /// column `j` of the adjugate out of the twelve minors: three entries of
    /// the matrix, signed, and the three minors that they are multiplied
    /// with. In the columns with an odd number every sign is flipped and the
    /// last two terms change places.
    pub open spec fn cofactor_operands_spec(self, minors: [Float; 12], i: int, j: int) -> (
        [Float; 3],
        [Float; 3],
    ) {
        let row = partner_spec(j);
        let base = if j < 2 {
            6int
        } else {
            0int
        };
        let odd = j == 1 || j == 3;
        let (first, plain_second, plain_third) = terms_spec(i);
        let (second, third) = if odd {
            (plain_third, plain_second)
        } else {
            (plain_second, plain_third)
        };
        (
            [
                signed(self.at(row, first.1), first.0 != odd),
                signed(self.at(row, second.1), second.0 != odd),
                signed(self.at(row, third.1), third.0 != odd),
            ],
            [minors[base + first.2], minors[base + second.2], minors[base + third.2]],
        )
    }

    pub fn minor_operands(&self, k: usize) -> (r: [Float; 4])
        requires
            k < 12,
        ensures
            r == self.minor_operands_spec(k as int),
    {
        let (a, b): (usize, usize) = match k % 6 {
            0 => (0, 1),
            1 => (0, 2),
            2 => (0, 3),
            3 => (1, 2),
            4 => (1, 3),
            _ => (2, 3),
        };
        let (u, v): (usize, usize) = if k < 6 {
            (0, 1)
        } else {
            (2, 3)
        };
        let r = [self.m[u][a], self.m[v][b], self.m[v][a], self.m[u][b]];
        assert(r =~= self.minor_operands_spec(k as int));
        r
    }

    pub fn cofactor_operands(&self, minors: &[Float; 12], i: usize, j: usize) -> (r: (
        [Float; 3],
        [Float; 3],
    ))
        requires
            i < 4,
            j < 4,
        ensures
            r == self.cofactor_operands_spec(*minors, i as int, j as int),
    {
        let row: usize = match j {
            0 => 1,
            1 => 0,
            2 => 3,
            _ => 2,
        };
        let base: usize = if j < 2 {
            6
        } else {
            0
        };
        let odd = j == 1 || j == 3;
        let (first, plain_second, plain_third): ((bool, usize, usize), (bool, usize, usize), (
            bool,
            usize,
            usize,
        )) = match i {
            0 => ((false, 1, 5), (false, 3, 3), (true, 2, 4)),
            1 => ((true, 0, 5), (false, 2, 2), (true, 3, 1)),
            2 => ((false, 0, 4), (false, 3, 0), (true, 1, 2)),
            _ => ((true, 0, 3), (false, 1, 1), (true, 2, 0)),
        };
        let (second, third) = if odd {
            (plain_third, plain_second)
        } else {
            (plain_second, plain_third)
        };
        let entries = [
            signed(self.m[row][first.1], first.0 != odd),
            signed(self.m[row][second.1], second.0 != odd),
            signed(self.m[row][third.1], third.0 != odd),
        ];
        let factors = [minors[base + first.2], minors[base + second.2], minors[base + third.2]];
        proof {
            let wanted = self.cofactor_operands_spec(*minors, i as int, j as int);
            assert(entries =~= wanted.0);
            assert(factors =~= wanted.1);
        }
        (entries, factors)
    }
}

/// The operands of the inner product that makes the determinant out of the
/// twelve minors: the upper minors, two of them negated, each beside the
/// lower minor of the other two columns.
pub open spec fn determinant_operands_spec(minors: [Float; 12]) -> ([Float; 6], [Float; 6]) {
    (
        [
            minors[0],
            minors[1].negation(),
            minors[2],
            minors[3],
            minors[5],
            minors[4].negation(),
        ],
        [minors[11], minors[10], minors[9], minors[8], minors[6], minors[7]],
    )
}

pub fn determinant_operands(minors: &[Float; 12]) -> (r: ([Float; 6], [Float; 6]))
    ensures
        r == determinant_operands_spec(*minors),
{
    let upper = [
        minors[0],
        minors[1].neg(),
        minors[2],
        minors[3],
        minors[5],
        minors[4].neg(),
    ];
    let lower = [minors[11], minors[10], minors[9], minors[8], minors[6], minors[7]];
    proof {
        let wanted = determinant_operands_spec(*minors);
        assert(upper =~= wanted.0);
        assert(lower =~= wanted.1);
    }
    (upper, lower)
}

/// The entries of `m` as `val` reads them.
pub open spec fn values(val: spec_fn(Float) -> int, m: SquareMatrix<4>) -> Seq<Seq<int>> {
    Seq::new(4, |i: int| Seq::new(4, |j: int| val(m.at(i, j))))
}

/// Whether `val` reads each of `minors` as the minor of its operands in `m`.
pub open spec fn minors_are_exact(
    val: spec_fn(Float) -> int,
    m: SquareMatrix<4>,
    minors: [Float; 12],
) -> bool {
    forall|k: int|
        0 <= k < 12 ==> val(#[trigger] minors[k]) == exact_minor(val, m.minor_operands_spec(k))
}

/// Exact minors are the minors of the values: the first six those of the
/// upper two rows, the last six those of the lower two.
pub proof fn lemma_minor_values(val: spec_fn(Float) -> int, m: SquareMatrix<4>, minors: [Float; 12])
    requires
        minors_are_exact(val, m, minors),
    ensures
        forall|k: int|
            0 <= k < 6 ==> val(minors[k]) == #[trigger] minors_of(
                values(val, m)[0],
                values(val, m)[1],
            )[k],
        forall|k: int|
            0 <= k < 6 ==> val(minors[k + 6]) == #[trigger] minors_of(
                values(val, m)[2],
                values(val, m)[3],
            )[k],
{
    let v = values(val, m);
    assert forall|k: int| 0 <= k < 6 implies val(minors[k]) == #[trigger] minors_of(v[0], v[1])[k] by {
        let operands = m.minor_operands_spec(k);
        assert(val(minors[k]) == exact_minor(val, operands));
    }
    assert forall|k: int| 0 <= k < 6 implies val(minors[k + 6]) == #[trigger] minors_of(
        v[2],
        v[3],
    )[k] by {
        let operands = m.minor_operands_spec(k + 6);
        assert(val(minors[k + 6]) == exact_minor(val, operands));
    }
}

/// In exact arithmetic the operands of the determinant give the determinant
/// of the matrix.
pub proof fn lemma_layout_gives_determinant(
    val: spec_fn(Float) -> int,
    m: SquareMatrix<4>,
    minors: [Float; 12],
)
    requires
        respects_negation(val),
        minors_are_exact(val, m, minors),
    ensures
        exact_inner6(val, determinant_operands_spec(minors)) == determinant(values(val, m)),
{
    let v = values(val, m);
    let s = minors_of(v[0], v[1]);
    let c = minors_of(v[2], v[3]);
    lemma_minor_values(val, m, minors);
    assert(val(minors[0]) == s[0] && val(minors[1]) == s[1] && val(minors[2]) == s[2]);
    assert(val(minors[3]) == s[3] && val(minors[4]) == s[4] && val(minors[5]) == s[5]);
    assert(val(minors[0int + 6]) == c[0] && val(minors[1int + 6]) == c[1]);
    assert(val(minors[2int + 6]) == c[2] && val(minors[3int + 6]) == c[3]);
    assert(val(minors[4int + 6]) == c[4] && val(minors[5int + 6]) == c[5]);
    assert(val(minors[1].negation()) == -s[1]);
    assert(val(minors[4].negation()) == -s[4]);
    lemma_signs(s[1], c[4]);
    lemma_signs(s[4], c[1]);
}

/// In exact arithmetic the operands of the entry in row `i` and column `j`
/// give that entry of the adjugate of the matrix.
pub proof fn lemma_layout_gives_adjugate(
    val: spec_fn(Float) -> int,
    m: SquareMatrix<4>,
    minors: [Float; 12],
    i: int,
    j: int,
)
    requires
        respects_negation(val),
        minors_are_exact(val, m, minors),
        0 <= i < 4,
        0 <= j < 4,
    ensures
        exact_inner3(val, m.cofactor_operands_spec(minors, i, j)) == adjugate_column(
            values(val, m),
            j,
        )[i],
{
    let v = values(val, m);
    let r = v[partner_spec(j)];
    let x = if j < 2 {
        minors_of(v[2], v[3])
    } else {
        minors_of(v[0], v[1])
    };
    let base = if j < 2 {
        6int
    } else {
        0int
    };
    lemma_minor_values(val, m, minors);
    assert forall|k: int| 0 <= k < 6 implies val(minors[base + k]) == x[k] by {
        if j < 2 {
            assert(val(minors[k + 6]) == minors_of(v[2], v[3])[k]);
        } else {
            assert(val(minors[k]) == minors_of(v[0], v[1])[k]);
        }
    }
    let (first, second, third) = terms_spec(i);
    let row = partner_spec(j);
    assert(r[first.1] == val(m.at(row, first.1)));
    assert(r[second.1] == val(m.at(row, second.1)));
    assert(r[third.1] == val(m.at(row, third.1)));
    assert(val(m.at(row, first.1).negation()) == -r[first.1]);
    assert(val(m.at(row, second.1).negation()) == -r[second.1]);
    assert(val(m.at(row, third.1).negation()) == -r[third.1]);
    assert(val(minors[base + first.2]) == x[first.2]);
    assert(val(minors[base + second.2]) == x[second.2]);
    assert(val(minors[base + third.2]) == x[third.2]);
    lemma_signs(r[first.1], x[first.2]);
    lemma_signs(r[second.1], x[second.2]);
    lemma_signs(r[third.1], x[third.2]);
}

/// The cofactor expansion inverts in exact arithmetic: row `i` of the matrix
/// times column `j` of what the operands of the adjugate give is what the
/// operands of the determinant give where `i` is `j`, and 0 elsewhere. What
/// a caller computes from these operands differs from the inverse by
/// rounding alone.
pub proof fn lemma_layout_inverts(
    val: spec_fn(Float) -> int,
    m: SquareMatrix<4>,
    minors: [Float; 12],
    i: int,
    j: int,
)
    requires
        respects_negation(val),
        minors_are_exact(val, m, minors),
        0 <= i < 4,
        0 <= j < 4,
    ensures
        val(m.at(i, 0)) * exact_inner3(val, m.cofactor_operands_spec(minors, 0, j)) + val(
            m.at(i, 1),
        ) * exact_inner3(val, m.cofactor_operands_spec(minors, 1, j)) + val(m.at(i, 2))
            * exact_inner3(val, m.cofactor_operands_spec(minors, 2, j)) + val(m.at(i, 3))
            * exact_inner3(val, m.cofactor_operands_spec(minors, 3, j)) == if i == j {
            exact_inner6(val, determinant_operands_spec(minors))
        } else {
            0
        },
{
    let v = values(val, m);
    lemma_layout_gives_adjugate(val, m, minors, 0, j);
    lemma_layout_gives_adjugate(val, m, minors, 1, j);
    lemma_layout_gives_adjugate(val, m, minors, 2, j);
    lemma_layout_gives_adjugate(val, m, minors, 3, j);
    lemma_layout_gives_determinant(val, m, minors);
    lemma_adjugate(v, i, j);
    assert(v[i][0] == val(m.at(i, 0)) && v[i][1] == val(m.at(i, 1)));
    assert(v[i][2] == val(m.at(i, 2)) && v[i][3] == val(m.at(i, 3)));
}

} // verus!
