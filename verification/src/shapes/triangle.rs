use crate::lm::algebra::{lemma_difference_times, lemma_minor_times, lemma_signs, lemma_triple};
use crate::lm::cofactor::{
    cofactors_of, dot4, lemma_determinant_zero, lemma_row_meets_cofactors,
    lemma_row_misses_cofactors, minors_of,
};
use crate::lm::float::{Float, ONE_BITS};
use crate::lm::math::{Interval, Vector3};
use crate::lm::exact::exact_minor;
use crate::rt::ray::{Intersection, Ray};
use vstd::prelude::*;

verus! {

/// A triangle with a normal at each vertex, between which the normal of a
/// point inside is blended.
#[derive(Clone, Copy, Debug)]
pub struct Triangle {
    pub vertices: [Vector3; 3],
    pub normals: [Vector3; 3],
}

/// Where a point in the plane of a triangle lies, as weights of the second
/// and third vertex (the first has what is left of 1), together with the
/// rounded sum of the two as the caller computed it.
#[derive(Clone, Copy, Debug)]
pub struct Barycentric {
    pub u: Float,
    pub v: Float,
    pub sum: Float,
}

impl Barycentric {
    /// Whether the weights place the point in the triangle: `u` is at least
    /// 0 and at most 1, `v` is at least 0, and the sum is at most 1. None of
    /// this holds of a NaN, so a NaN weight places the point outside; so does
    /// an infinite one.
    pub open spec fn inside_spec(self) -> bool {
        let zero = Float { bits: 0 };
        let one = Float { bits: ONE_BITS };
        zero.le_spec(self.u) && self.u.le_spec(one) && zero.le_spec(self.v) && self.sum.le_spec(
            one,
        )
    }

    /// Weights that place a point in the triangle are numbers, and finite
    /// ones.
    pub proof fn lemma_inside_is_finite(weights: Barycentric)
        requires
            weights.inside_spec(),
        ensures
            weights.u.is_finite_spec(),
            !weights.v.is_nan_spec(),
            !weights.sum.is_nan_spec(),
    {
    }

    #[verifier::when_used_as_spec(inside_spec)]
    pub fn inside(self) -> (r: bool)
        ensures
            r == self.inside_spec(),
    {
        let zero = Float::zero();
        let one = Float::one();
        if !(zero <= self.u && self.u <= one) {
            return false;
        }
        if !(zero <= self.v && self.sum <= one) {
            return false;
        }
        true
    }
}

impl Triangle {
    pub fn new(vertices: [Vector3; 3], normals: [Vector3; 3]) -> (r: Triangle)
        ensures
            r.vertices == vertices,
            r.normals == normals,
    {
        Triangle { vertices, normals }
    }

    /// The triangle that has `normal` at each of its vertices.
    pub fn flat(vertices: [Vector3; 3], normal: Vector3) -> (r: Triangle)
        ensures
            r.vertices == vertices,
            r.normals == [normal, normal, normal],
    {
        Triangle { vertices, normals: [normal, normal, normal] }
    }

    /// The hit, if any, of a ray that meets the plane of a triangle at
    /// parameter `distance`, in `point`, which has the given `weights` and the
    /// blended `normal`: accepted where the weights place the point inside the
    /// triangle and `bound` holds `distance`.
    pub open spec fn hit_at_spec(
        weights: Barycentric,
        bound: Interval,
        distance: Float,
        point: Vector3,
        normal: Vector3,
    ) -> Option<Intersection> {
        if weights.inside_spec() {
            Intersection::within_spec(bound, distance, point, normal)
        } else {
            None
        }
    }

    /// A hit is made only of weights that place the point in the triangle
    /// and of a distance that is a number and that the range accepts.
    pub proof fn lemma_hit_is_accepted(
        weights: Barycentric,
        bound: Interval,
        distance: Float,
        point: Vector3,
        normal: Vector3,
        hit: Intersection,
    )
        requires
            Self::hit_at_spec(weights, bound, distance, point, normal) == Some(hit),
        ensures
            weights.inside_spec(),
            Intersection::accepted(bound, hit.distance),
            !hit.distance.is_nan_spec(),
            hit.distance == distance,
    {
        Intersection::lemma_hit_is_accepted(bound, distance, point, normal, hit);
    }

    /// A ray along the plane of a triangle, and any ray where the triangle
    /// has no area, divides by a determinant of zero. What it computes is
    /// then infinite or no number, and it has no hit: none where a weight or
    /// the distance is no number or the first weight is infinite, whatever
    /// the range.
    pub proof fn lemma_no_hit_off_the_numbers(
        weights: Barycentric,
        bound: Interval,
        distance: Float,
        point: Vector3,
        normal: Vector3,
    )
        requires
            !weights.u.is_finite_spec() || weights.v.is_nan_spec() || weights.sum.is_nan_spec()
                || distance.is_nan_spec(),
        ensures
            Self::hit_at_spec(weights, bound, distance, point, normal) is None,
    {
        Intersection::lemma_accepted(bound, distance);
    }

    pub fn hit_at(
        weights: Barycentric,
        bound: &Interval,
        distance: Float,
        point: Vector3,
        normal: Vector3,
    ) -> (r: Option<Intersection>)
        ensures
            r == Self::hit_at_spec(weights, *bound, distance, point, normal),
    {
        if weights.inside() {
            Intersection::within(bound, distance, point, normal)
        } else {
            None
        }
    }
}

/// What a caller has computed of a ray and a triangle: the weights of the
/// point in which the ray meets the plane of the triangle, the ray parameter
/// of that point, the point and the blended normal there. Whether this makes
/// a hit is for the range to decide.
#[derive(Clone, Copy, Debug)]
pub struct Meeting {
    pub weights: Barycentric,
    pub distance: Float,
    pub point: Vector3,
    pub normal: Vector3,
}

impl Meeting {
    /// The hit that the meeting makes in `bound`, if any.
    pub open spec fn hit_spec(self, bound: Interval) -> Option<Intersection> {
        Triangle::hit_at_spec(self.weights, bound, self.distance, self.point, self.normal)
    }

    /// The hit that the meeting makes in `bound`, if any.
    pub fn hit(&self, bound: &Interval) -> (r: Option<Intersection>)
        ensures
            r == self.hit_spec(*bound),
    {
        Triangle::hit_at(self.weights, bound, self.distance, self.point, self.normal)
    }
}

/// The difference of two vectors of three whole numbers.
pub open spec fn sub3(a: Seq<int>, b: Seq<int>) -> Seq<int> {
    seq![a[0] - b[0], a[1] - b[1], a[2] - b[2]]
}

/// The cross product of two vectors of three whole numbers.
pub open spec fn cross3(a: Seq<int>, b: Seq<int>) -> Seq<int> {
    seq![a[1] * b[2] - a[2] * b[1], a[2] * b[0] - a[0] * b[2], a[0] * b[1] - a[1] * b[0]]
}

/// The inner product of two vectors of three whole numbers.
pub open spec fn dot3(a: Seq<int>, b: Seq<int>) -> int {
    a[0] * b[0] + a[1] * b[1] + a[2] * b[2]
}

/// What the method of Möller and Trumbore computes for a triangle with the
/// corners `v0`, `v1`, `v2` and a ray from `o` along `d`, before it divides:
/// the determinant, and the weights `u` and `v` and the ray parameter, each
/// times the determinant.
pub open spec fn undivided(
    v0: Seq<int>,
    v1: Seq<int>,
    v2: Seq<int>,
    o: Seq<int>,
    d: Seq<int>,
) -> (int, int, int, int) {
    let e1 = sub3(v1, v0);
    let e2 = sub3(v2, v0);
    let s = sub3(o, v0);
    let s1 = cross3(d, e2);
    let s2 = cross3(s, e1);
    (dot3(e1, s1), dot3(s1, s), dot3(s2, d), dot3(s2, e2))
}

/// The four determinants of three out of the four vectors `a`, `b`, `d`, `s`,
/// each expanded along its third row, are what the method computes by cross
/// and inner products.
proof fn lemma_triple_products(
    ax: int, ay: int, az: int,
    bx: int, by: int, bz: int,
    dx: int, dy: int, dz: int,
    sx: int, sy: int, sz: int,
)
    ensures
        -az * (bx * dy - by * dx) + bz * (ax * dy - ay * dx) - dz * (ax * by - ay * bx) == ax * (dy
            * bz - dz * by) + ay * (dz * bx - dx * bz) + az * (dx * by - dy * bx),
        bz * (dx * sy - dy * sx) + sz * (bx * dy - by * dx) - dz * (bx * sy - by * sx) == -((dy * bz
            - dz * by) * sx + (dz * bx - dx * bz) * sy + (dx * by - dy * bx) * sz),
        -az * (dx * sy - dy * sx) + dz * (ax * sy - ay * sx) - sz * (ax * dy - ay * dx) == -((sy
            * az - sz * ay) * dx + (sz * ax - sx * az) * dy + (sx * ay - sy * ax) * dz),
        az * (bx * sy - by * sx) + sz * (ax * by - ay * bx) - bz * (ax * sy - ay * sx) == (sy * az
            - sz * ay) * bx + (sz * ax - sx * az) * by + (sx * ay - sy * ax) * bz,
{
    lemma_signs(az, bx * dy - by * dx);
    lemma_minor_times(bx, dy, by, dx, az);
    lemma_minor_times(ax, dy, ay, dx, bz);
    lemma_minor_times(ax, by, ay, bx, dz);
    lemma_minor_times(dy, bz, dz, by, ax);
    lemma_minor_times(dz, bx, dx, bz, ay);
    lemma_minor_times(dx, by, dy, bx, az);
    lemma_triple(ax, dy, bz);
    lemma_triple(ax, dz, by);
    lemma_triple(ay, dz, bx);
    lemma_triple(ay, dx, bz);
    lemma_triple(az, dx, by);
    lemma_triple(az, dy, bx);

    lemma_minor_times(dx, sy, dy, sx, bz);
    lemma_minor_times(bx, dy, by, dx, sz);
    lemma_minor_times(bx, sy, by, sx, dz);
    lemma_minor_times(dy, bz, dz, by, sx);
    lemma_minor_times(dz, bx, dx, bz, sy);
    lemma_minor_times(dx, by, dy, bx, sz);
    lemma_triple(dx, sy, bz);
    lemma_triple(dy, sx, bz);
    lemma_triple(bx, dy, sz);
    lemma_triple(by, dx, sz);
    lemma_triple(bx, sy, dz);
    lemma_triple(by, sx, dz);

    lemma_signs(az, dx * sy - dy * sx);
    lemma_minor_times(dx, sy, dy, sx, az);
    lemma_minor_times(ax, sy, ay, sx, dz);
    lemma_minor_times(ax, dy, ay, dx, sz);
    lemma_minor_times(sy, az, sz, ay, dx);
    lemma_minor_times(sz, ax, sx, az, dy);
    lemma_minor_times(sx, ay, sy, ax, dz);
    lemma_triple(dx, sy, az);
    lemma_triple(dy, sx, az);
    lemma_triple(ax, sy, dz);
    lemma_triple(ay, sx, dz);
    lemma_triple(ax, dy, sz);
    lemma_triple(ay, dx, sz);

    lemma_minor_times(bx, sy, by, sx, az);
    lemma_minor_times(ax, by, ay, bx, sz);
    lemma_minor_times(ax, sy, ay, sx, bz);
    lemma_minor_times(sy, az, sz, ay, bx);
    lemma_minor_times(sz, ax, sx, az, by);
    lemma_minor_times(sx, ay, sy, ax, bz);
    lemma_triple(bx, sy, az);
    lemma_triple(by, sx, az);
    lemma_triple(ax, by, sz);
    lemma_triple(ay, bx, sz);
    lemma_triple(ax, sy, bz);
    lemma_triple(ay, sx, bz);
}

/// In exact arithmetic the weights locate the hit: the point of the ray at
/// the computed parameter is the point of the triangle with the computed
/// weights, the first corner having what the two weights leave of 1, so that
/// the three weights sum to 1. Both are stated before the division, each side
/// times the determinant, the first for each coordinate `k`.
pub proof fn lemma_weights_locate_the_hit(
    v0: Seq<int>,
    v1: Seq<int>,
    v2: Seq<int>,
    o: Seq<int>,
    d: Seq<int>,
    k: int,
)
    requires
        v0.len() == 3,
        v1.len() == 3,
        v2.len() == 3,
        o.len() == 3,
        d.len() == 3,
        0 <= k < 3,
    ensures
        ({
            let (det, u, v, t) = undivided(v0, v1, v2, o, d);
            &&& det * o[k] + t * d[k] == (det - u - v) * v0[k] + u * v1[k] + v * v2[k]
            &&& (det - u - v) + u + v == det
        }),
{
    let a = sub3(v1, v0);
    let b = sub3(v2, v0);
    let s = sub3(o, v0);
    let (det, u, v, t) = undivided(v0, v1, v2, o, d);
    let x = seq![a[0], b[0], d[0], s[0]];
    let y = seq![a[1], b[1], d[1], s[1]];
    let z = seq![a[2], b[2], d[2], s[2]];
    let w = minors_of(x, y);
    let c = cofactors_of(z, w);
    lemma_triple_products(
        a[0], a[1], a[2], b[0], b[1], b[2], d[0], d[1], d[2], s[0], s[1], s[2],
    );
    assert(c[3] == det);
    assert(c[0] == -u);
    assert(c[1] == -v);
    assert(c[2] == t);
    lemma_row_misses_cofactors(x, y, z);
    lemma_row_meets_cofactors(z, z, w);
    lemma_determinant_zero(minors_of(z, z), w);
    let row = if k == 0 {
        x
    } else if k == 1 {
        y
    } else {
        z
    };
    assert(dot4(row, c) == 0);
    assert(row[0] == a[k] && row[1] == b[k] && row[2] == d[k] && row[3] == s[k]);
    lemma_signs(a[k], u);
    lemma_signs(b[k], v);
    lemma_signs(d[k], t);
    lemma_signs(s[k], det);
    assert(det * s[k] + t * d[k] == u * a[k] + v * b[k]);
    lemma_difference_times(det, o[k], v0[k]);
    lemma_difference_times(u, v1[k], v0[k]);
    lemma_difference_times(v, v2[k], v0[k]);
    lemma_difference_times(v0[k], det - u, v);
    lemma_difference_times(v0[k], det, u);
}

/// The same four determinants with the vectors `a` and `b` exchanged.
proof fn lemma_exchanged_products(
    ax: int, ay: int, az: int,
    bx: int, by: int, bz: int,
    dx: int, dy: int, dz: int,
    sx: int, sy: int, sz: int,
)
    ensures
        bx * (dy * az - dz * ay) + by * (dz * ax - dx * az) + bz * (dx * ay - dy * ax) == -(ax * (dy
            * bz - dz * by) + ay * (dz * bx - dx * bz) + az * (dx * by - dy * bx)),
        (dy * az - dz * ay) * sx + (dz * ax - dx * az) * sy + (dx * ay - dy * ax) * sz == -((sy * az
            - sz * ay) * dx + (sz * ax - sx * az) * dy + (sx * ay - sy * ax) * dz),
        (sy * bz - sz * by) * dx + (sz * bx - sx * bz) * dy + (sx * by - sy * bx) * dz == -((dy * bz
            - dz * by) * sx + (dz * bx - dx * bz) * sy + (dx * by - dy * bx) * sz),
        (sy * bz - sz * by) * ax + (sz * bx - sx * bz) * ay + (sx * by - sy * bx) * az == -((sy * az
            - sz * ay) * bx + (sz * ax - sx * az) * by + (sx * ay - sy * ax) * bz),
{
    lemma_minor_times(dy, az, dz, ay, bx);
    lemma_minor_times(dz, ax, dx, az, by);
    lemma_minor_times(dx, ay, dy, ax, bz);
    lemma_minor_times(dy, bz, dz, by, ax);
    lemma_minor_times(dz, bx, dx, bz, ay);
    lemma_minor_times(dx, by, dy, bx, az);
    lemma_triple(dy, az, bx);
    lemma_triple(dz, ay, bx);
    lemma_triple(dz, ax, by);
    lemma_triple(dx, az, by);
    lemma_triple(dx, ay, bz);
    lemma_triple(dy, ax, bz);

    lemma_minor_times(dy, az, dz, ay, sx);
    lemma_minor_times(dz, ax, dx, az, sy);
    lemma_minor_times(dx, ay, dy, ax, sz);
    lemma_minor_times(sy, az, sz, ay, dx);
    lemma_minor_times(sz, ax, sx, az, dy);
    lemma_minor_times(sx, ay, sy, ax, dz);
    lemma_triple(dy, az, sx);
    lemma_triple(dz, ay, sx);
    lemma_triple(dz, ax, sy);
    lemma_triple(dx, az, sy);
    lemma_triple(dx, ay, sz);
    lemma_triple(dy, ax, sz);

    lemma_minor_times(sy, bz, sz, by, dx);
    lemma_minor_times(sz, bx, sx, bz, dy);
    lemma_minor_times(sx, by, sy, bx, dz);
    lemma_minor_times(dy, bz, dz, by, sx);
    lemma_minor_times(dz, bx, dx, bz, sy);
    lemma_minor_times(dx, by, dy, bx, sz);
    lemma_triple(sy, bz, dx);
    lemma_triple(sz, by, dx);
    lemma_triple(sz, bx, dy);
    lemma_triple(sx, bz, dy);
    lemma_triple(sx, by, dz);
    lemma_triple(sy, bx, dz);

    lemma_minor_times(sy, bz, sz, by, ax);
    lemma_minor_times(sz, bx, sx, bz, ay);
    lemma_minor_times(sx, by, sy, bx, az);
    lemma_minor_times(sy, az, sz, ay, bx);
    lemma_minor_times(sz, ax, sx, az, by);
    lemma_minor_times(sx, ay, sy, ax, bz);
    lemma_triple(sy, bz, ax);
    lemma_triple(sz, by, ax);
    lemma_triple(sz, bx, ay);
    lemma_triple(sx, bz, ay);
    lemma_triple(sx, by, az);
    lemma_triple(sy, bx, az);
}

/// In exact arithmetic a triangle wound the other way is hit in the same
/// place: with the second and third corner exchanged the determinant and
/// everything computed with it change sign, and the two weights change
/// places, so that after the division the ray parameter is the same and each
/// corner keeps its weight.
pub proof fn lemma_winding_changes_the_sign(
    v0: Seq<int>,
    v1: Seq<int>,
    v2: Seq<int>,
    o: Seq<int>,
    d: Seq<int>,
)
    requires
        v0.len() == 3,
        v1.len() == 3,
        v2.len() == 3,
        o.len() == 3,
        d.len() == 3,
    ensures
        ({
            let (det, u, v, t) = undivided(v0, v1, v2, o, d);
            undivided(v0, v2, v1, o, d) == (-det, -v, -u, -t)
        }),
{
    let a = sub3(v1, v0);
    let b = sub3(v2, v0);
    let s = sub3(o, v0);
    lemma_exchanged_products(
        a[0], a[1], a[2], b[0], b[1], b[2], d[0], d[1], d[2], s[0], s[1], s[2],
    );
}

/// The three components of `v`, as `val` reads them.
pub open spec fn readings(val: spec_fn(Float) -> int, v: Vector3) -> Seq<int> {
    seq![val(v.v[0]), val(v.v[1]), val(v.v[2])]
}

/// Whether `val` reads each component of `r` as the difference of the
/// components of `a` and `b` in its place.
pub open spec fn is_exact_difference(
    val: spec_fn(Float) -> int,
    a: Vector3,
    b: Vector3,
    r: Vector3,
) -> bool {
    forall|k: int| 0 <= k < 3 ==> val(#[trigger] r.v[k]) == val(a.v[k]) - val(b.v[k])
}

/// Whether `val` reads `r` as the inner product of `a` and `b`.
pub open spec fn is_exact_dot(val: spec_fn(Float) -> int, a: Vector3, b: Vector3, r: Float) -> bool {
    val(r) == val(a.v[0]) * val(b.v[0]) + val(a.v[1]) * val(b.v[1]) + val(a.v[2]) * val(b.v[2])
}

/// What a caller computes by the method of Möller and Trumbore before it
/// divides: the sides `e1` and `e2` of the triangle, the way `s` from its
/// first corner to the origin of the ray, the cross products `s1` and `s2`
/// of these with the direction and the first side, the determinant `det`
/// and the undivided weights `u`, `v` and ray parameter `t`.
pub struct Undivided {
    pub e1: Vector3,
    pub e2: Vector3,
    pub s: Vector3,
    pub s1: Vector3,
    pub s2: Vector3,
    pub det: Float,
    pub u: Float,
    pub v: Float,
    pub t: Float,
}

impl Undivided {
    /// Whether `val` reads every step as made without rounding: the
    /// differences, the two cross products that
    /// [`Vector::cross_operands`] lays out, and the four inner products.
    pub open spec fn is_exact(self, val: spec_fn(Float) -> int, triangle: Triangle, ray: Ray) -> bool {
        &&& is_exact_difference(val, triangle.vertices[1], triangle.vertices[0], self.e1)
        &&& is_exact_difference(val, triangle.vertices[2], triangle.vertices[0], self.e2)
        &&& is_exact_difference(val, ray.o, triangle.vertices[0], self.s)
        &&& ray.d.is_exact_cross(self.e2, self.s1, val)
        &&& self.s.is_exact_cross(self.e1, self.s2, val)
        &&& is_exact_dot(val, self.e1, self.s1, self.det)
        &&& is_exact_dot(val, self.s1, self.s, self.u)
        &&& is_exact_dot(val, self.s2, ray.d, self.v)
        &&& is_exact_dot(val, self.s2, self.e2, self.t)
    }

    /// Where no step rounds, the weights locate the hit and sum to 1: the
    /// point of the ray at the computed parameter is the point of the
    /// triangle with the computed weights, both times the determinant, in
    /// each coordinate `k`.
    pub proof fn lemma_exact_weights_locate_the_hit(
        self,
        val: spec_fn(Float) -> int,
        triangle: Triangle,
        ray: Ray,
        k: int,
    )
        requires
            self.is_exact(val, triangle, ray),
            0 <= k < 3,
        ensures
            val(self.det) * val(ray.o.v[k]) + val(self.t) * val(ray.d.v[k]) == (val(self.det) - val(
                self.u,
            ) - val(self.v)) * val(triangle.vertices[0].v[k]) + val(self.u) * val(
                triangle.vertices[1].v[k],
            ) + val(self.v) * val(triangle.vertices[2].v[k]),
            (val(self.det) - val(self.u) - val(self.v)) + val(self.u) + val(self.v) == val(self.det),
    {
        let v0 = readings(val, triangle.vertices[0]);
        let v1 = readings(val, triangle.vertices[1]);
        let v2 = readings(val, triangle.vertices[2]);
        let o = readings(val, ray.o);
        let d = readings(val, ray.d);
        assert(sub3(v1, v0) =~= readings(val, self.e1));
        assert(sub3(v2, v0) =~= readings(val, self.e2));
        assert(sub3(o, v0) =~= readings(val, self.s));
        let first = ray.d.cross_operands_spec(self.e2);
        assert(val(self.s1.v[0]) == exact_minor(val, first[0]));
        assert(val(self.s1.v[1]) == exact_minor(val, first[1]));
        assert(val(self.s1.v[2]) == exact_minor(val, first[2]));
        assert(cross3(d, readings(val, self.e2)) =~= readings(val, self.s1));
        let second = self.s.cross_operands_spec(self.e1);
        assert(val(self.s2.v[0]) == exact_minor(val, second[0]));
        assert(val(self.s2.v[1]) == exact_minor(val, second[1]));
        assert(val(self.s2.v[2]) == exact_minor(val, second[2]));
        assert(cross3(readings(val, self.s), readings(val, self.e1)) =~= readings(val, self.s2));
        assert(undivided(v0, v1, v2, o, d) == (val(self.det), val(self.u), val(self.v), val(self.t)));
        lemma_weights_locate_the_hit(v0, v1, v2, o, d, k);
    }
}

} // verus!
