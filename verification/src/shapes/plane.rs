use crate::lm::float::Float;
use crate::lm::math::{Interval, Vector3};
use crate::rt::ray::Intersection;
use vstd::prelude::*;

verus! {

/// The plane through `point` that `normal` is perpendicular to.
#[derive(Clone, Copy, Debug)]
pub struct Plane {
    pub point: Vector3,
    pub normal: Vector3,
}

impl Plane {
    /// The plane through `point` with `normal`, which the caller has brought
    /// to unit length, as its normal.
    pub fn with_unit_normal(point: Vector3, normal: Vector3) -> (r: Plane)
        ensures
            r.point == point,
            r.normal == normal,
    {
        Plane { point, normal }
    }

    /// A ray that runs along the plane meets it at no finite parameter: the
    /// quotient is infinite, or no number where the ray lies in the plane.
    /// Such a ray has no hit in a range with finite ends, and where the
    /// parameter is no number it has none in any range.
    pub proof fn lemma_no_hit_along_the_plane(
        plane: Plane,
        bound: Interval,
        distance: Float,
        point: Vector3,
    )
        requires
            !distance.is_finite_spec(),
            distance.is_nan_spec() || (bound.lower(0).is_finite_spec() && bound.upper(
                0,
            ).is_finite_spec()),
        ensures
            Intersection::within_spec(bound, distance, point, plane.normal) is None,
    {
        Intersection::lemma_accepted(bound, distance);
    }

    /// The hit of a ray that meets the plane at parameter `distance`, in
    /// `point`: accepted where `bound` holds `distance`. The normal of the hit
    /// is the plane's own, whichever side the ray comes from.
    pub fn hit_at(&self, bound: &Interval, distance: Float, point: Vector3) -> (r: Option<
        Intersection,
    >)
        ensures
            r == Intersection::within_spec(*bound, distance, point, self.normal),
    {
        Intersection::within(bound, distance, point, self.normal)
    }
}

} // verus!
