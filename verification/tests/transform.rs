use aisth::lm::transform::{frame, projection};
use aisth::{Float, Matrix44, SquareMatrix, Transform, Vector3};

fn f(x: f64) -> Float {
    Float::from_bits(x.to_bits())
}

fn vec3(x: f64, y: f64, z: f64) -> Vector3 {
    Vector3::new([f(x), f(y), f(z)])
}

fn matrix(values: [[f64; 4]; 4]) -> Matrix44 {
    SquareMatrix::new(values.map(|r| r.map(f)))
}

fn numbers(m: &Matrix44) -> [[f64; 4]; 4] {
    m.m.map(|r| r.map(|x| f64::from_bits(x.to_bits())))
}

fn bits(m: &Matrix44) -> [[u64; 4]; 4] {
    m.m.map(|r| r.map(|x| x.to_bits()))
}

fn product(a: Matrix44, b: Matrix44) -> Matrix44 {
    let (x, y) = (numbers(&a), numbers(&b));
    let mut out = [[0.0f64; 4]; 4];
    for i in 0..4 {
        for j in 0..4 {
            for k in 0..4 {
                out[i][j] += x[i][k] * y[k][j];
            }
        }
    }
    matrix(out)
}

fn is_identity(m: &Matrix44) -> bool {
    let n = numbers(m);
    (0..4).all(|i| (0..4).all(|j| (n[i][j] - if i == j { 1.0 } else { 0.0 }).abs() < 1e-12))
}

#[test]
fn translate_moves_by_delta_and_back() {
    let t = Transform::translate(&vec3(1.0, -2.0, 3.0));
    assert_eq!(
        bits(&t.matrix()),
        bits(&matrix([[1.0, 0.0, 0.0, 1.0], [0.0, 1.0, 0.0, -2.0], [0.0, 0.0, 1.0, 3.0], [0.0, 0.0, 0.0, 1.0]]))
    );
    assert_eq!(
        bits(&t.inversed()),
        bits(&matrix([[1.0, 0.0, 0.0, -1.0], [0.0, 1.0, 0.0, 2.0], [0.0, 0.0, 1.0, -3.0], [0.0, 0.0, 0.0, 1.0]]))
    );
    assert!(is_identity(&product(t.matrix(), t.inversed())));
}

#[test]
fn scale_pairs_factors_with_reciprocals() {
    let t = Transform::scale_with(f(2.0), f(4.0), f(8.0), f(0.5), f(0.25), f(0.125));
    assert_eq!(
        bits(&t.matrix()),
        bits(&matrix([[2.0, 0.0, 0.0, 0.0], [0.0, 4.0, 0.0, 0.0], [0.0, 0.0, 8.0, 0.0], [0.0, 0.0, 0.0, 1.0]]))
    );
    assert_eq!(
        bits(&t.inversed()),
        bits(&matrix([[0.5, 0.0, 0.0, 0.0], [0.0, 0.25, 0.0, 0.0], [0.0, 0.0, 0.125, 0.0], [0.0, 0.0, 0.0, 1.0]]))
    );
    assert!(is_identity(&product(t.matrix(), t.inversed())));
}

#[test]
fn rotations_are_laid_out_about_their_axes() {
    let (s, c) = (30.0f64.to_radians().sin(), 30.0f64.to_radians().cos());
    let x = Transform::rotate_x_with(f(s), f(c));
    assert_eq!(
        bits(&x.matrix()),
        bits(&matrix([[1.0, 0.0, 0.0, 0.0], [0.0, c, -s, 0.0], [0.0, s, c, 0.0], [0.0, 0.0, 0.0, 1.0]]))
    );
    let y = Transform::rotate_y_with(f(s), f(c));
    assert_eq!(
        bits(&y.matrix()),
        bits(&matrix([[c, 0.0, s, 0.0], [0.0, 1.0, 0.0, 0.0], [-s, 0.0, c, 0.0], [0.0, 0.0, 0.0, 1.0]]))
    );
    let z = Transform::rotate_z_with(f(s), f(c));
    assert_eq!(
        bits(&z.matrix()),
        bits(&matrix([[c, -s, 0.0, 0.0], [s, c, 0.0, 0.0], [0.0, 0.0, 1.0, 0.0], [0.0, 0.0, 0.0, 1.0]]))
    );
    for t in [x, y, z] {
        assert_eq!(bits(&t.inversed()), bits(&t.matrix().transpose()));
        assert!(is_identity(&product(t.matrix(), t.inversed())));
    }
}

#[test]
fn build_pairs_a_matrix_with_its_inverse() {
    let m = matrix([[2.0, 0.0, 0.0, 0.0], [0.0, 2.0, 0.0, 0.0], [0.0, 0.0, 2.0, 0.0], [0.0, 0.0, 0.0, 1.0]]);
    let inv = matrix([[0.5, 0.0, 0.0, 0.0], [0.0, 0.5, 0.0, 0.0], [0.0, 0.0, 0.5, 0.0], [0.0, 0.0, 0.0, 1.0]]);
    let t = Transform::build(&m, Some(inv));
    assert_eq!(bits(&t.matrix()), bits(&m));
    assert_eq!(bits(&t.inversed()), bits(&inv));
    assert!(is_identity(&product(t.matrix(), t.inversed())));
}

#[test]
fn transpose_swaps_the_two_matrices() {
    let t = Transform::translate(&vec3(1.0, 2.0, 3.0));
    let swapped = t.transpose();
    assert_eq!(bits(&swapped.matrix()), bits(&t.inversed()));
    assert_eq!(bits(&swapped.inversed()), bits(&t.matrix()));
    let back = swapped.transpose();
    assert_eq!(bits(&back.matrix()), bits(&t.matrix()));
    assert_eq!(bits(&back.inversed()), bits(&t.inversed()));
}

#[test]
fn compose_multiplies_forward_in_order_and_inverses_in_reverse() {
    let a = Transform::translate(&vec3(1.0, 2.0, 3.0));
    let (s, c) = (45.0f64.to_radians().sin(), 45.0f64.to_radians().cos());
    let b = Transform::rotate_z_with(f(s), f(c));
    let ab = a.compose(&b, product);
    assert_eq!(bits(&ab.matrix()), bits(&product(a.matrix(), b.matrix())));
    assert_eq!(bits(&ab.inversed()), bits(&product(b.inversed(), a.inversed())));
    assert_ne!(bits(&ab.matrix()), bits(&product(b.matrix(), a.matrix())));
    assert!(is_identity(&product(ab.matrix(), ab.inversed())));
}

#[test]
fn composition_is_associative_as_the_product_is() {
    let a = Transform::translate(&vec3(1.0, 0.0, 0.0));
    let b = Transform::scale_with(f(2.0), f(2.0), f(2.0), f(0.5), f(0.5), f(0.5));
    let c = Transform::translate(&vec3(0.0, 4.0, 0.0));
    let left = a.compose(&b, product).compose(&c, product);
    let right = a.compose(&b.compose(&c, product), product);
    assert_eq!(bits(&left.matrix()), bits(&right.matrix()));
    assert_eq!(bits(&left.inversed()), bits(&right.inversed()));
}

#[test]
fn inverse_of_a_composition_composes_the_inverses_in_reverse() {
    let a = Transform::translate(&vec3(1.0, 2.0, 3.0));
    let b = Transform::scale_with(f(2.0), f(4.0), f(8.0), f(0.5), f(0.25), f(0.125));
    let left = a.compose(&b, product).transpose();
    let right = b.transpose().compose(&a.transpose(), product);
    assert_eq!(bits(&left.matrix()), bits(&right.matrix()));
    assert_eq!(bits(&left.inversed()), bits(&right.inversed()));
}

#[test]
fn frame_has_the_axes_as_columns() {
    let m = frame(vec3(1.0, 2.0, 3.0), vec3(4.0, 5.0, 6.0), vec3(7.0, 8.0, 9.0), vec3(10.0, 11.0, 12.0));
    assert_eq!(
        bits(&m),
        bits(&matrix([[1.0, 4.0, 7.0, 10.0], [2.0, 5.0, 8.0, 11.0], [3.0, 6.0, 9.0, 12.0], [0.0, 0.0, 0.0, 1.0]]))
    );
}

#[test]
fn projection_has_the_depth_terms_in_the_third_row() {
    let m = projection(f(2.0), f(-2.0));
    assert_eq!(
        bits(&m),
        bits(&matrix([[1.0, 0.0, 0.0, 0.0], [0.0, 1.0, 0.0, 0.0], [0.0, 0.0, 2.0, -2.0], [0.0, 0.0, 1.0, 0.0]]))
    );
}
