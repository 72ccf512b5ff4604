use crate::lm::float::Float;
use crate::lm::math::{Interval, Vector, Vector3};
use vstd::prelude::*;

verus! {

/// A ray: the points `o + t * d`, one for each parameter `t`. The direction
/// is kept as given, of whatever length.
#[derive(Clone, Copy, Debug)]
pub struct Ray {
    pub o: Vector<3>,
    pub d: Vector<3>,
}

impl Ray {
    pub fn new(o: Vector<3>, d: Vector<3>) -> (r: Ray)
        ensures
            r.o == o,
            r.d == d,
    {
        Ray { o, d }
    }
}

/// Where a ray meets a surface: the ray parameter of the meeting point, the
/// point itself and the surface normal there.
#[derive(Clone, Copy, Debug)]
pub struct Intersection {
    pub distance: Float,
    pub point: Vector<3>,
    pub normal: Vector<3>,
}

impl Intersection {
    /// Whether `bound` accepts `distance` as a ray parameter.
    pub open spec fn accepted(bound: Interval, distance: Float) -> bool {
        bound.contains_spec(Vector { v: [distance] })
    }

    /// The hit at `distance` if `bound` accepts that distance, and no hit
    /// otherwise.
    pub open spec fn within_spec(
        bound: Interval,
        distance: Float,
        point: Vector3,
        normal: Vector3,
    ) -> Option<Intersection> {
        if Self::accepted(bound, distance) {
            Some(Intersection { distance, point, normal })
        } else {
            None
        }
    }

    /// A distance is accepted when it is at least the lower end of the range
    /// and at most the upper end. No NaN is accepted.
    pub proof fn lemma_accepted(bound: Interval, distance: Float)
        ensures
            Self::accepted(bound, distance) <==> bound.lower(0).le_spec(distance)
                && distance.le_spec(bound.upper(0)),
            Self::accepted(bound, distance) ==> !distance.is_nan_spec(),
    {
        let v = Vector::<1> { v: [distance] };
        assert(v.v[0] == distance);
        if bound.lower(0).le_spec(distance) && distance.le_spec(bound.upper(0)) {
            assert(bound.contains_spec(v));
        }
        if bound.contains_spec(v) {
            assert(bound.lower(0).le_spec(v.v[0]));
        }
    }

    /// A hit is made only of a distance that is a number and that the range
    /// accepts, and holds what it was made of.
    pub proof fn lemma_hit_is_accepted(
        bound: Interval,
        distance: Float,
        point: Vector3,
        normal: Vector3,
        hit: Intersection,
    )
        requires
            Self::within_spec(bound, distance, point, normal) == Some(hit),
        ensures
            Self::accepted(bound, hit.distance),
            !hit.distance.is_nan_spec(),
            hit.distance == distance,
            hit.point == point,
            hit.normal == normal,
    {
        Self::lemma_accepted(bound, distance);
    }

    /// No hit is made of a distance that is no number, whatever the range.
    pub proof fn lemma_no_hit_at_nan(
        bound: Interval,
        distance: Float,
        point: Vector3,
        normal: Vector3,
    )
        requires
            distance.is_nan_spec(),
        ensures
            Self::within_spec(bound, distance, point, normal) is None,
    {
        Self::lemma_accepted(bound, distance);
    }

    /// The hit at `distance` if `bound` accepts that distance.
    pub fn within(bound: &Interval, distance: Float, point: Vector3, normal: Vector3) -> (r: Option<
        Intersection,
    >)
        ensures
            r == Self::within_spec(*bound, distance, point, normal),
    {
        if bound.contains(&Vector::new([distance])) {
            Some(Intersection { distance, point, normal })
        } else {
            None
        }
    }
}

} // verus!
