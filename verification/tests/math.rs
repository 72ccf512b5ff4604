use aisth::{Bound, Float, Interval, Matrix22, Matrix33, Matrix44, SquareMatrix, Vector, Vector3};

fn f(x: f64) -> Float {
    Float::from_bits(x.to_bits())
}

fn row<const N: usize>(values: [f64; N]) -> [Float; N] {
    values.map(f)
}

fn vector<const N: usize>(values: [f64; N]) -> Vector<N> {
    Vector::new(row(values))
}

fn matrix<const N: usize>(values: [[f64; N]; N]) -> SquareMatrix<N> {
    SquareMatrix::new(values.map(row))
}

fn bits<const N: usize>(m: &SquareMatrix<N>) -> Vec<Vec<u64>> {
    m.m.iter().map(|r| r.iter().map(|x| x.to_bits()).collect()).collect()
}

fn vector_bits<const N: usize>(v: &Vector<N>) -> Vec<u64> {
    v.v.iter().map(|x| x.to_bits()).collect()
}

fn bound<const N: usize>(pairs: [(f64, f64); N]) -> Bound<N> {
    Bound::new(pairs.map(|(a, b)| (f(a), f(b))))
}

fn ends<const N: usize>(b: &Bound<N>) -> Vec<(u64, u64)> {
    b.b.iter().map(|(lo, hi)| (lo.to_bits(), hi.to_bits())).collect()
}

#[test]
fn vector_new_keeps_the_components() {
    let v = vector([1.0, -2.5, 3.0]);
    assert_eq!(vector_bits(&v), vec![1.0f64.to_bits(), (-2.5f64).to_bits(), 3.0f64.to_bits()]);
    assert_eq!(v[1].to_bits(), (-2.5f64).to_bits());
}

#[test]
fn vector_zero_is_all_positive_zero() {
    let v = Vector::<4>::zero();
    assert_eq!(vector_bits(&v), vec![0, 0, 0, 0]);
}

#[test]
fn vector_components_can_be_replaced() {
    let mut v = vector([1.0, 2.0]);
    v.set(0, f(7.0));
    v[1] = f(9.0);
    assert_eq!(vector_bits(&v), vec![7.0f64.to_bits(), 9.0f64.to_bits()]);
}

#[test]
fn vector_negation_flips_every_sign() {
    let v = -vector([1.0, -2.0, 0.0]);
    assert_eq!(vector_bits(&v), vec![(-1.0f64).to_bits(), 2.0f64.to_bits(), (-0.0f64).to_bits()]);
}

#[test]
fn identity_has_ones_on_the_diagonal_only() {
    let id = Matrix33::identity();
    assert_eq!(bits(&id), bits(&matrix([[1.0, 0.0, 0.0], [0.0, 1.0, 0.0], [0.0, 0.0, 1.0]])));
    assert_eq!(bits(&SquareMatrix::<1>::identity()), vec![vec![1.0f64.to_bits()]]);
}

#[test]
fn zero_matrix_is_all_positive_zero() {
    assert_eq!(bits(&Matrix22::zero()), vec![vec![0, 0], vec![0, 0]]);
}

#[test]
fn transpose_mirrors_at_the_diagonal() {
    let m = matrix([[1.0, 2.0, 3.0], [4.0, 5.0, 6.0], [7.0, 8.0, 9.0]]);
    let t = m.transpose();
    assert_eq!(bits(&t), bits(&matrix([[1.0, 4.0, 7.0], [2.0, 5.0, 8.0], [3.0, 6.0, 9.0]])));
}

#[test]
fn transpose_twice_gives_the_matrix_back() {
    let m = matrix(
        [
            [1.0, -2.0, f64::NAN, 4.0],
            [0.1, 0.2, -0.0, f64::INFINITY],
            [9.0, 1e300, 1e-300, 12.0],
            [13.0, 14.0, 15.0, -16.0],
        ],
    );
    assert_eq!(bits(&m.transpose().transpose()), bits(&m));
    let id = Matrix44::identity();
    assert_eq!(bits(&id.transpose()), bits(&id));
}

#[test]
fn matrix_index_gives_a_row() {
    let m = matrix([[1.0, 2.0], [3.0, 4.0]]);
    assert_eq!(m[1][0].to_bits(), 3.0f64.to_bits());
    assert_eq!(m[0][1].to_bits(), 2.0f64.to_bits());
}

#[test]
fn matrix_negation_flips_every_sign() {
    let m = -matrix([[1.0, -2.0], [0.0, 4.0]]);
    assert_eq!(bits(&m), bits(&matrix([[-1.0, 2.0], [-0.0, -4.0]])));
}

#[test]
fn bound_is_the_same_whichever_end_comes_first() {
    let a = bound([(5.0, 1.0)]);
    let b = bound([(1.0, 5.0)]);
    assert_eq!(ends(&a), vec![(1.0f64.to_bits(), 5.0f64.to_bits())]);
    assert_eq!(ends(&a), ends(&b));
}

#[test]
fn bound_orders_each_axis_by_itself() {
    let a = bound([(5.0, 1.0), (-1.0, -2.0), (0.0, -0.0)]);
    let b = bound([(1.0, 5.0), (-2.0, -1.0), (-0.0, 0.0)]);
    assert_eq!(ends(&a), ends(&b));
    assert_eq!(
        ends(&a),
        vec![
            (1.0f64.to_bits(), 5.0f64.to_bits()),
            ((-2.0f64).to_bits(), (-1.0f64).to_bits()),
            ((-0.0f64).to_bits(), 0.0f64.to_bits()),
        ]
    );
}

#[test]
fn bound_with_one_nan_end_collapses_to_the_other() {
    let a = bound([(f64::NAN, 3.0)]);
    let b = bound([(3.0, f64::NAN)]);
    assert_eq!(ends(&a), vec![(3.0f64.to_bits(), 3.0f64.to_bits())]);
    assert_eq!(ends(&a), ends(&b));
}

#[test]
fn bound_all_runs_from_infinity_to_infinity() {
    let all = Bound::<2>::all();
    let pair = (f64::NEG_INFINITY.to_bits(), f64::INFINITY.to_bits());
    assert_eq!(ends(&all), vec![pair, pair]);
    assert!(all.contains(&vector([1e308, -1e308])));
    assert!(all.contains(&vector([f64::INFINITY, f64::NEG_INFINITY])));
}

#[test]
fn bound_contains_its_ends_and_what_lies_between() {
    let b = bound([(0.0, 1.0), (-1.0, 1.0)]);
    assert!(b.contains(&vector([0.0, -1.0])));
    assert!(b.contains(&vector([1.0, 1.0])));
    assert!(b.contains(&vector([0.5, 0.0])));
    assert!(!b.contains(&vector([1.5, 0.0])));
    assert!(!b.contains(&vector([0.5, -1.5])));
    assert!(!b.contains(&vector([-1e-300, 0.0])));
}

#[test]
fn bound_contains_no_nan() {
    let b = bound([(0.0, 1.0)]);
    assert!(!b.contains(&vector([f64::NAN])));
    assert!(!b.contains(&vector([-f64::NAN])));
    assert!(!Bound::<1>::all().contains(&vector([f64::NAN])));
    let wide = bound([(0.0, 1.0), (0.0, 1.0)]);
    assert!(!wide.contains(&vector([0.5, f64::NAN])));
    assert!(!wide.contains(&vector([f64::NAN, 0.5])));
}

#[test]
fn bound_with_a_nan_end_holds_nothing() {
    let mut b = bound([(0.0, 10.0)]);
    b[0].1 = f(f64::NAN);
    for x in [0.0, 5.0, 10.0, f64::INFINITY, f64::NAN] {
        assert!(!b.contains(&vector([x])));
    }
    let mut c = bound([(0.0, 10.0)]);
    c[0].0 = f(f64::NAN);
    for x in [0.0, 5.0, 10.0, f64::NEG_INFINITY, f64::NAN] {
        assert!(!c.contains(&vector([x])));
    }
}

#[test]
fn bound_contains_agrees_with_hardware_comparisons() {
    let values = [f64::NEG_INFINITY, -1.0, -0.0, 0.0, 0.5, 1.0, 2.0, f64::INFINITY, f64::NAN];
    for lo in values {
        for hi in values {
            let mut b = bound([(0.0, 0.0)]);
            b.set(0, (f(lo), f(hi)));
            for x in values {
                assert_eq!(b.contains(&vector([x])), lo <= x && x <= hi, "{lo} {x} {hi}");
            }
        }
    }
}

#[test]
fn finite_interval_holds_no_infinite_distance() {
    let b: Interval = bound([(1e-5, 1e30)]);
    assert!(!b.contains(&vector([f64::INFINITY])));
    assert!(!b.contains(&vector([f64::NEG_INFINITY])));
    let open: Interval = bound([(1e-5, f64::INFINITY)]);
    assert!(open.contains(&vector([f64::INFINITY])));
    assert!(!open.contains(&vector([f64::NEG_INFINITY])));
}

#[test]
fn clamp_holds_a_colour_to_the_unit_range() {
    let unit = bound([(0.0, 1.0), (0.0, 1.0), (0.0, 1.0)]);
    let colour: Vector3 = vector([1.5, -0.25, 0.7]);
    let held = unit.clamp(&colour);
    assert_eq!(vector_bits(&held), vec![1.0f64.to_bits(), 0.0f64.to_bits(), 0.7f64.to_bits()]);
    assert!(unit.contains(&held));
    assert_eq!(vector_bits(&unit.clamp(&held)), vector_bits(&held));
}

#[test]
fn bound_ends_can_be_read_and_replaced() {
    let mut b = bound([(0.0, 10.0)]);
    assert_eq!(b[0].1.to_bits(), 10.0f64.to_bits());
    b[0].1 = f(2.0);
    assert_eq!(ends(&b), vec![(0.0f64.to_bits(), 2.0f64.to_bits())]);
    b.set(0, (f(1.0), f(3.0)));
    assert_eq!(ends(&b), vec![(1.0f64.to_bits(), 3.0f64.to_bits())]);
}

fn n(x: Float) -> f64 {
    f64::from_bits(x.to_bits())
}

fn dot<const N: usize>(a: &[Float; N], b: &[Float; N]) -> Float {
    f(a.iter().zip(b).map(|(x, y)| n(*x) * n(*y)).sum())
}

#[test]
fn map_with_applies_to_every_component() {
    let v = vector([1.0, -2.0, 3.5]).map_with(|x| f(n(x) * 2.0));
    assert_eq!(v.v.map(n), [2.0, -4.0, 7.0]);
    let m = matrix([[1.0, 2.0], [3.0, 4.0]]).map_with(|x| f(n(x) + 1.0));
    assert_eq!(m.m.map(|r| r.map(n)), [[2.0, 3.0], [4.0, 5.0]]);
}

#[test]
fn zip_with_pairs_components_in_the_same_place() {
    let a = vector([1.0, 2.0, 3.0]);
    let b = vector([10.0, 20.0, 30.0]);
    assert_eq!(a.zip_with(&b, |x, y| f(n(x) + n(y))).v.map(n), [11.0, 22.0, 33.0]);
    assert_eq!(a.zip_with(&b, |x, y| f(n(x) - n(y))).v.map(n), [-9.0, -18.0, -27.0]);
    assert_eq!(b.zip_with(&a, |x, y| f(n(x) / n(y))).v.map(n), [10.0, 10.0, 10.0]);
    let p = matrix([[1.0, 2.0], [3.0, 4.0]]);
    let q = matrix([[10.0, 20.0], [30.0, 40.0]]);
    assert_eq!(
        p.zip_with(&q, |x, y| f(n(x) - n(y))).m.map(|r| r.map(n)),
        [[-9.0, -18.0], [-27.0, -36.0]]
    );
}

#[test]
fn product_with_multiplies_rows_by_columns() {
    let a = matrix([[1.0, 2.0], [3.0, 4.0]]);
    let b = matrix([[5.0, 6.0], [7.0, 8.0]]);
    assert_eq!(a.product_with(&b, dot).m.map(|r| r.map(n)), [[19.0, 22.0], [43.0, 50.0]]);
    assert_eq!(b.product_with(&a, dot).m.map(|r| r.map(n)), [[23.0, 34.0], [31.0, 46.0]]);
    let id = Matrix22::identity();
    assert_eq!(a.product_with(&id, dot).m.map(|r| r.map(n)), [[1.0, 2.0], [3.0, 4.0]]);
}

#[test]
fn apply_with_multiplies_rows_by_the_vector() {
    let a = matrix([[1.0, 2.0, 3.0], [4.0, 5.0, 6.0], [7.0, 8.0, 9.0]]);
    let v = vector([1.0, 0.0, -1.0]);
    assert_eq!(a.apply_with(&v, dot).v.map(n), [-2.0, -2.0, -2.0]);
}

fn cross(a: &Vector3, b: &Vector3) -> Vector3 {
    Vector::new(a.cross_operands(b).map(|operands| {
        let [a, b, c, d] = operands.map(n);
        f(a * b - c * d)
    }))
}

#[test]
fn cross_operands_expand_the_determinant() {
    let a = vector([1.0, 2.0, 3.0]);
    let b = vector([4.0, 5.0, 6.0]);
    let operands = a.cross_operands(&b).map(|row| row.map(n));
    assert_eq!(operands, [[2.0, 6.0, 3.0, 5.0], [3.0, 4.0, 1.0, 6.0], [1.0, 5.0, 2.0, 4.0]]);
    assert_eq!(cross(&a, &b).v.map(n), [-3.0, 6.0, -3.0]);
}

#[test]
fn cross_product_is_perpendicular_to_its_factors() {
    let a = vector([1.0, 2.0, 3.0]);
    let b = vector([-4.0, 5.0, 6.0]);
    let c = cross(&a, &b);
    assert_eq!(n(dot(&a.v, &c.v)), 0.0);
    assert_eq!(n(dot(&b.v, &c.v)), 0.0);
    let x = vector([1.0, 0.0, 0.0]);
    let y = vector([0.0, 1.0, 0.0]);
    assert_eq!(cross(&x, &y).v.map(n), [0.0, 0.0, 1.0]);
    assert_eq!(cross(&y, &x).v.map(n), [0.0, 0.0, -1.0]);
}
