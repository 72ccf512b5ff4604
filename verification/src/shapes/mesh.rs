use crate::lm::float::Float;
use crate::lm::math::{Bound, Interval};
use crate::rt::ray::Intersection;
use crate::shapes::triangle::{Meeting, Triangle};
use vstd::prelude::*;

verus! {

/// Triangles in a fixed order.
#[derive(Debug)]
pub struct Mesh {
    pub triangles: Vec<Triangle>,
}

impl Mesh {
    /// The range in which the next triangle is probed once the probes before
    /// it have had the given outcomes: `bound`, with the distance of the
    /// latest hit as its upper end.
    pub open spec fn window_after(bound: Interval, outcomes: Seq<Option<Intersection>>) -> Interval
        decreases outcomes.len(),
    {
        if outcomes.len() == 0 {
            bound
        } else {
            match outcomes.last() {
                Some(hit) => Bound { b: [(bound.lower(0), hit.distance)] },
                None => Self::window_after(bound, outcomes.drop_last()),
            }
        }
    }

    /// The latest hit among the outcomes.
    pub open spec fn latest_hit(outcomes: Seq<Option<Intersection>>) -> Option<Intersection>
        decreases outcomes.len(),
    {
        if outcomes.len() == 0 {
            None
        } else if outcomes.last() is Some {
            outcomes.last()
        } else {
            Self::latest_hit(outcomes.drop_last())
        }
    }

    /// Whether `outcomes` are what `probe` gave for the triangles, one after
    /// the other, each probed in the range that the hits before it left.
    pub open spec fn probed_in_order<F: Fn(&Triangle, &Interval) -> Option<Intersection>>(
        triangles: Seq<Triangle>,
        bound: Interval,
        probe: F,
        outcomes: Seq<Option<Intersection>>,
    ) -> bool {
        &&& outcomes.len() == triangles.len()
        &&& forall|i: int|
            0 <= i < triangles.len() ==> call_ensures(
                probe,
                (&triangles[i], &Self::window_after(bound, outcomes.take(i))),
                #[trigger] outcomes[i],
            )
    }

    pub fn new(triangles: Vec<Triangle>) -> (r: Mesh)
        ensures
            r.triangles == triangles,
    {
        Mesh { triangles }
    }

    /// The hit that is left when `probe` has been asked about each triangle
    /// in turn, every hit narrowing the range for the triangles after it.
    pub fn intersect_with<F: Fn(&Triangle, &Interval) -> Option<Intersection>>(
        &self,
        bound: &Interval,
        probe: F,
    ) -> (r: Option<Intersection>)
        requires
            forall|t: &Triangle, w: &Interval| call_requires(probe, (t, w)),
        ensures
            exists|outcomes: Seq<Option<Intersection>>|
                Self::probed_in_order(self.triangles@, *bound, probe, outcomes) && r
                    == Self::latest_hit(outcomes),
    {
        let mut intersection: Option<Intersection> = None;
        let mut b = *bound;
        let ghost mut outcomes: Seq<Option<Intersection>> = Seq::empty();
        let mut i: usize = 0;
        while i < self.triangles.len()
            invariant
                i <= self.triangles.len(),
                outcomes.len() == i,
                b == Self::window_after(*bound, outcomes),
                intersection == Self::latest_hit(outcomes),
                forall|t: &Triangle, w: &Interval| call_requires(probe, (t, w)),
                forall|k: int|
                    0 <= k < i ==> call_ensures(
                        probe,
                        (&self.triangles@[k], &Self::window_after(*bound, outcomes.take(k))),
                        #[trigger] outcomes[k],
                    ),
            decreases self.triangles.len() - i,
        {
            let candidate = probe(&self.triangles[i], &b);
            proof {
                let longer = outcomes.push(candidate);
                assert(longer.take(i as int) =~= outcomes);
                assert(longer.drop_last() =~= outcomes);
                assert forall|k: int| 0 <= k < i + 1 implies call_ensures(
                    probe,
                    (&self.triangles@[k], &Self::window_after(*bound, longer.take(k))),
                    #[trigger] longer[k],
                ) by {
                    if k < i {
                        assert(longer.take(k) =~= outcomes.take(k));
                        assert(longer[k] == outcomes[k]);
                    }
                }
                outcomes = longer;
            }
            if let Some(hit) = candidate {
                let lower = b.b[0].0;
                proof {
                    Self::lemma_lower_end_stays(*bound, outcomes.drop_last());
                }
                b = Bound { b: [(lower, hit.distance)] };
                intersection = Some(hit);
            }
            i += 1;
        }
        assert(Self::probed_in_order(self.triangles@, *bound, probe, outcomes));
        intersection
    }

    /// No probe moves the lower end of the range.
    pub proof fn lemma_lower_end_stays(bound: Interval, outcomes: Seq<Option<Intersection>>)
        ensures
            Self::window_after(bound, outcomes).lower(0) == bound.lower(0),
        decreases outcomes.len(),
    {
        if outcomes.len() > 0 && outcomes.last() is None {
            Self::lemma_lower_end_stays(bound, outcomes.drop_last());
        }
    }

    /// Whether every hit among the outcomes has a distance that the range it
    /// was probed in accepts.
    pub open spec fn hits_in_range(bound: Interval, outcomes: Seq<Option<Intersection>>) -> bool {
        forall|k: int|
            0 <= k < outcomes.len() ==> ((#[trigger] outcomes[k]) matches Some(hit)
                ==> Intersection::accepted(
                Self::window_after(bound, outcomes.take(k)),
                hit.distance,
            ))
    }

    /// Whether `probe` gives no hit but at a distance that the range it was
    /// asked about accepts. Every probe does that ends in
    /// [`Triangle::hit_at`] or [`Intersection::within`].
    pub open spec fn keeps_range<F: Fn(&Triangle, &Interval) -> Option<Intersection>>(
        probe: F,
    ) -> bool {
        forall|t: &Triangle, w: &Interval, hit: Intersection| #[trigger]
            call_ensures(probe, (t, w), Some(hit)) ==> Intersection::accepted(*w, hit.distance)
    }

    /// The outcomes of a probe that keeps the range have their hits in range.
    pub proof fn lemma_probed_hits_in_range<F: Fn(&Triangle, &Interval) -> Option<Intersection>>(
        triangles: Seq<Triangle>,
        bound: Interval,
        probe: F,
        outcomes: Seq<Option<Intersection>>,
    )
        requires
            Self::keeps_range(probe),
            Self::probed_in_order(triangles, bound, probe, outcomes),
        ensures
            Self::hits_in_range(bound, outcomes),
    {
        assert forall|k: int| 0 <= k < outcomes.len() implies ((#[trigger] outcomes[k]) matches Some(
            hit,
        ) ==> Intersection::accepted(Self::window_after(bound, outcomes.take(k)), hit.distance)) by {
            if let Some(hit) = outcomes[k] {
                assert(call_ensures(
                    probe,
                    (&triangles[k], &Self::window_after(bound, outcomes.take(k))),
                    Some(hit),
                ));
            }
        }
    }

    /// Hits in range are numbers: none has a distance that is a NaN.
    pub proof fn lemma_hits_are_numbers(bound: Interval, outcomes: Seq<Option<Intersection>>)
        requires
            Self::hits_in_range(bound, outcomes),
        ensures
            forall|k: int|
                0 <= k < outcomes.len() ==> ((#[trigger] outcomes[k]) matches Some(hit)
                    ==> !hit.distance.is_nan_spec()),
    {
        assert forall|k: int| 0 <= k < outcomes.len() implies ((#[trigger] outcomes[k]) matches Some(
            hit,
        ) ==> !hit.distance.is_nan_spec()) by {
            if let Some(hit) = outcomes[k] {
                Intersection::lemma_accepted(
                    Self::window_after(bound, outcomes.take(k)),
                    hit.distance,
                );
            }
        }
    }

    /// The first so many of outcomes with their hits in range have their
    /// hits in range.
    pub proof fn lemma_earlier_hits_in_range(
        bound: Interval,
        outcomes: Seq<Option<Intersection>>,
        n: int,
    )
        requires
            Self::hits_in_range(bound, outcomes),
            0 <= n <= outcomes.len(),
        ensures
            Self::hits_in_range(bound, outcomes.take(n)),
    {
        let earlier = outcomes.take(n);
        assert forall|k: int| 0 <= k < earlier.len() implies ((#[trigger] earlier[k]) matches Some(
            hit,
        ) ==> Intersection::accepted(Self::window_after(bound, earlier.take(k)), hit.distance)) by {
            assert(earlier[k] == outcomes[k]);
            assert(earlier.take(k) =~= outcomes.take(k));
        }
    }

    /// The upper end of the range is the distance of the latest hit, and that
    /// of `bound` while there is none.
    pub proof fn lemma_upper_end(bound: Interval, outcomes: Seq<Option<Intersection>>)
        ensures
            Self::window_after(bound, outcomes).upper(0) == match Self::latest_hit(outcomes) {
                Some(hit) => hit.distance,
                None => bound.upper(0),
            },
        decreases outcomes.len(),
    {
        if outcomes.len() > 0 && outcomes.last() is None {
            Self::lemma_upper_end(bound, outcomes.drop_last());
        }
    }

    /// There is a latest hit just when there is a hit, and it is one of the
    /// outcomes.
    pub proof fn lemma_latest_is_an_outcome(outcomes: Seq<Option<Intersection>>)
        ensures
            Self::latest_hit(outcomes) is None <==> forall|k: int|
                0 <= k < outcomes.len() ==> (#[trigger] outcomes[k]) is None,
            Self::latest_hit(outcomes) is Some ==> exists|k: int|
                0 <= k < outcomes.len() && #[trigger] outcomes[k] == Self::latest_hit(outcomes),
        decreases outcomes.len(),
    {
        if outcomes.len() > 0 {
            let before = outcomes.drop_last();
            let last = outcomes.len() - 1;
            assert(outcomes[last] == outcomes.last());
            Self::lemma_latest_is_an_outcome(before);
            if outcomes.last() is None {
                assert forall|k: int| 0 <= k < before.len() implies before[k] == outcomes[k] by {}
                if Self::latest_hit(before) is Some {
                    let k = choose|k: int|
                        0 <= k < before.len() && #[trigger] before[k] == Self::latest_hit(before);
                    assert(outcomes[k] == Self::latest_hit(outcomes));
                } else {
                    assert forall|k: int| 0 <= k < outcomes.len() implies (#[trigger] outcomes[k])
                        is None by {
                        if k < last {
                            assert(before[k] is None);
                        }
                    }
                }
            }
        }
    }

    /// The hit that is left is the nearest: where every hit lay in the range
    /// it was probed in, none of them has a smaller distance than the latest.
    pub proof fn lemma_latest_is_nearest(
        bound: Interval,
        outcomes: Seq<Option<Intersection>>,
        i: int,
    )
        requires
            Self::hits_in_range(bound, outcomes),
            0 <= i < outcomes.len(),
            outcomes[i] is Some,
        ensures
            Self::latest_hit(outcomes) is Some,
            !Self::latest_hit(outcomes)->0.distance.is_nan_spec(),
            Self::latest_hit(outcomes)->0.distance.le_spec(outcomes[i]->0.distance),
        decreases outcomes.len(),
    {
        let before = outcomes.drop_last();
        let last = outcomes.len() - 1;
        assert(before =~= outcomes.take(last));
        Self::lemma_hits_are_numbers(bound, outcomes);
        assert(outcomes[last] == outcomes.last());
        if i < last {
            Self::lemma_earlier_hits_in_range(bound, outcomes, last);
            Self::lemma_latest_is_nearest(bound, before, i);
            assert(before[i] == outcomes[i]);
            if let Some(hit) = outcomes.last() {
                let nearest_before = Self::latest_hit(before)->0;
                Self::lemma_upper_end(bound, before);
                Intersection::lemma_accepted(Self::window_after(bound, before), hit.distance);
                assert(hit.distance.le_spec(nearest_before.distance));
                Float::lemma_le_transitive(
                    hit.distance,
                    nearest_before.distance,
                    outcomes[i]->0.distance,
                );
            }
        }
    }

    /// Every hit in range lies in the range that the probing began with.
    pub proof fn lemma_hits_lie_in_bound(
        bound: Interval,
        outcomes: Seq<Option<Intersection>>,
        i: int,
    )
        requires
            Self::hits_in_range(bound, outcomes),
            0 <= i < outcomes.len(),
            outcomes[i] is Some,
        ensures
            Intersection::accepted(bound, outcomes[i]->0.distance),
        decreases i,
    {
        let hit = outcomes[i]->0;
        let earlier = outcomes.take(i);
        let window = Self::window_after(bound, earlier);
        Intersection::lemma_accepted(window, hit.distance);
        Intersection::lemma_accepted(bound, hit.distance);
        Self::lemma_lower_end_stays(bound, earlier);
        Self::lemma_upper_end(bound, earlier);
        Self::lemma_latest_is_an_outcome(earlier);
        if Self::latest_hit(earlier) is Some {
            let k = choose|k: int|
                0 <= k < earlier.len() && #[trigger] earlier[k] == Self::latest_hit(earlier);
            assert(earlier[k] == outcomes[k]);
            Self::lemma_hits_lie_in_bound(bound, outcomes, k);
            Intersection::lemma_accepted(bound, outcomes[k]->0.distance);
            Float::lemma_le_transitive(hit.distance, outcomes[k]->0.distance, bound.upper(0));
        }
    }

    /// The mesh gives the nearest hit. Where the probe keeps the range, the
    /// hit that is left when all triangles have been probed in order
    /// - is none just when no triangle was hit,
    /// - lies in the range that the probing began with, and
    /// - has a distance that is a number and at most that of every hit.
    pub proof fn lemma_nearest_hit<F: Fn(&Triangle, &Interval) -> Option<Intersection>>(
        triangles: Seq<Triangle>,
        bound: Interval,
        probe: F,
        outcomes: Seq<Option<Intersection>>,
    )
        requires
            Self::keeps_range(probe),
            Self::probed_in_order(triangles, bound, probe, outcomes),
        ensures
            Self::latest_hit(outcomes) is None <==> forall|k: int|
                0 <= k < outcomes.len() ==> (#[trigger] outcomes[k]) is None,
            Self::latest_hit(outcomes) matches Some(nearest) ==> {
                &&& Intersection::accepted(bound, nearest.distance)
                &&& !nearest.distance.is_nan_spec()
                &&& forall|k: int|
                    0 <= k < outcomes.len() ==> ((#[trigger] outcomes[k]) matches Some(hit)
                        ==> nearest.distance.le_spec(hit.distance))
            },
    {
        Self::lemma_probed_hits_in_range(triangles, bound, probe, outcomes);
        Self::lemma_latest_is_an_outcome(outcomes);
        if let Some(nearest) = Self::latest_hit(outcomes) {
            let at = choose|k: int|
                0 <= k < outcomes.len() && #[trigger] outcomes[k] == Self::latest_hit(outcomes);
            Self::lemma_hits_lie_in_bound(bound, outcomes, at);
            Intersection::lemma_accepted(bound, nearest.distance);
            assert forall|k: int| 0 <= k < outcomes.len() implies ((#[trigger] outcomes[k]) matches Some(
                hit,
            ) ==> nearest.distance.le_spec(hit.distance)) by {
                if outcomes[k] is Some {
                    Self::lemma_latest_is_nearest(bound, outcomes, k);
                }
            }
        }
    }

    /// The range only narrows: where every hit lay in the range it was probed
    /// in, the upper end after all probes is at most the upper end after any
    /// number of them.
    pub proof fn lemma_window_narrows(
        bound: Interval,
        outcomes: Seq<Option<Intersection>>,
        k: int,
    )
        requires
            Self::hits_in_range(bound, outcomes),
            !bound.upper(0).is_nan_spec(),
            0 <= k <= outcomes.len(),
        ensures
            Self::window_after(bound, outcomes).upper(0).le_spec(
                Self::window_after(bound, outcomes.take(k)).upper(0),
            ),
            Self::window_after(bound, outcomes).lower(0) == Self::window_after(
                bound,
                outcomes.take(k),
            ).lower(0),
        decreases outcomes.len() - k,
    {
        Self::lemma_lower_end_stays(bound, outcomes);
        Self::lemma_lower_end_stays(bound, outcomes.take(k));
        let shorter = outcomes.take(k);
        Self::lemma_earlier_hits_in_range(bound, outcomes, k);
        Self::lemma_hits_are_numbers(bound, shorter);
        Self::lemma_upper_is_number(bound, shorter);
        if k == outcomes.len() {
            assert(shorter =~= outcomes);
        } else {
            Self::lemma_window_narrows(bound, outcomes, k + 1);
            let longer = outcomes.take(k + 1);
            assert(longer.drop_last() =~= shorter);
            assert(longer.last() == outcomes[k]);
            if let Some(hit) = outcomes[k] {
                Intersection::lemma_accepted(Self::window_after(bound, shorter), hit.distance);
            }
            Float::lemma_le_transitive(
                Self::window_after(bound, outcomes).upper(0),
                Self::window_after(bound, longer).upper(0),
                Self::window_after(bound, shorter).upper(0),
            );
        }
    }

    /// While every hit distance is a number, so is the upper end of the
    /// range, if that of `bound` was one.
    pub proof fn lemma_upper_is_number(bound: Interval, outcomes: Seq<Option<Intersection>>)
        requires
            forall|k: int|
                0 <= k < outcomes.len() ==> ((#[trigger] outcomes[k]) matches Some(hit)
                    ==> !hit.distance.is_nan_spec()),
            !bound.upper(0).is_nan_spec(),
        ensures
            !Self::window_after(bound, outcomes).upper(0).is_nan_spec(),
        decreases outcomes.len(),
    {
        if outcomes.len() > 0 {
            assert(outcomes[outcomes.len() - 1] == outcomes.last());
            if outcomes.last() is None {
                let before = outcomes.drop_last();
                assert forall|k: int| 0 <= k < before.len() implies ((#[trigger] before[k]) matches Some(
                    hit,
                ) ==> !hit.distance.is_nan_spec()) by {
                    assert(before[k] == outcomes[k]);
                }
                Self::lemma_upper_is_number(bound, before);
            }
        }
    }

    /// The hits that the meetings make in `bound`, each taken by itself.
    pub open spec fn alone(meetings: Seq<Meeting>, bound: Interval) -> Seq<Option<Intersection>> {
        Seq::new(meetings.len(), |i: int| meetings[i].hit_spec(bound))
    }

    /// The nearest of the hits: the one with the least distance, and of
    /// several with the least distance the last.
    pub open spec fn nearest(hits: Seq<Option<Intersection>>) -> Option<Intersection>
        decreases hits.len(),
    {
        if hits.len() == 0 {
            None
        } else {
            let before = Self::nearest(hits.drop_last());
            match (hits.last(), before) {
                (None, _) => before,
                (Some(hit), None) => Some(hit),
                (Some(hit), Some(best)) => if hit.distance.le_spec(best.distance) {
                    Some(hit)
                } else {
                    Some(best)
                },
            }
        }
    }

    /// The nearest of the hits is one of them, there is one just when there
    /// is a hit, and where the distances are numbers none of the hits is
    /// nearer.
    pub proof fn lemma_nearest_is_least(hits: Seq<Option<Intersection>>)
        requires
            forall|k: int|
                0 <= k < hits.len() ==> ((#[trigger] hits[k]) matches Some(hit)
                    ==> !hit.distance.is_nan_spec()),
        ensures
            Self::nearest(hits) is None <==> forall|k: int|
                0 <= k < hits.len() ==> (#[trigger] hits[k]) is None,
            Self::nearest(hits) is Some ==> exists|k: int|
                0 <= k < hits.len() && #[trigger] hits[k] == Self::nearest(hits),
            Self::nearest(hits) matches Some(best) ==> forall|k: int|
                0 <= k < hits.len() ==> ((#[trigger] hits[k]) matches Some(hit)
                    ==> best.distance.le_spec(hit.distance)),
        decreases hits.len(),
    {
        if hits.len() > 0 {
            let before = hits.drop_last();
            let last = hits.len() - 1;
            assert(hits[last] == hits.last());
            assert forall|k: int| 0 <= k < before.len() implies before[k] == hits[k] by {}
            Self::lemma_nearest_is_least(before);
            let best_before = Self::nearest(before);
            if best_before is Some {
                let k = choose|k: int|
                    0 <= k < before.len() && #[trigger] before[k] == Self::nearest(before);
                assert(hits[k] == best_before);
            }
            if let Some(best) = Self::nearest(hits) {
                if Self::nearest(hits) == hits.last() {
                    assert(hits[last] == Self::nearest(hits));
                }
                assert forall|k: int| 0 <= k < hits.len() implies ((#[trigger] hits[k]) matches Some(
                    hit,
                ) ==> best.distance.le_spec(hit.distance)) by {
                    if let Some(hit) = hits[k] {
                        if k < last {
                            assert(before[k] == Some(hit));
                            let old_best = best_before->0;
                            assert(old_best.distance.le_spec(hit.distance));
                            Float::lemma_le_transitive(
                                best.distance,
                                old_best.distance,
                                hit.distance,
                            );
                        }
                    }
                }
            } else {
                assert forall|k: int| 0 <= k < hits.len() implies (#[trigger] hits[k]) is None by {
                    if k < last {
                        assert(before[k] is None);
                    }
                }
            }
        }
    }

    /// Of several hits with the least distance the nearest is the last: every
    /// hit after it is farther.
    pub proof fn lemma_nearest_is_the_last_such(hits: Seq<Option<Intersection>>)
        ensures
            Self::nearest(hits) matches Some(best) ==> exists|k: int|
                {
                    &&& 0 <= k < hits.len()
                    &&& #[trigger] hits[k] == Some(best)
                    &&& forall|j: int|
                        k < j < hits.len() ==> ((#[trigger] hits[j]) matches Some(hit)
                            ==> !hit.distance.le_spec(best.distance))
                },
        decreases hits.len(),
    {
        if hits.len() > 0 {
            let before = hits.drop_last();
            let last = hits.len() - 1;
            assert(hits[last] == hits.last());
            Self::lemma_nearest_is_the_last_such(before);
            if let Some(best) = Self::nearest(hits) {
                if hits.last() == Some(best) && (Self::nearest(before) matches Some(old)
                    ==> best.distance.le_spec(old.distance)) {
                    assert(hits[last] == Some(best) && forall|j: int|
                        last < j < hits.len() ==> ((#[trigger] hits[j]) matches Some(hit)
                            ==> !hit.distance.le_spec(best.distance)));
                } else {
                    assert(Self::nearest(before) == Some(best));
                    let k = choose|k: int|
                        {
                            &&& 0 <= k < before.len()
                            &&& #[trigger] before[k] == Some(best)
                            &&& forall|j: int|
                                k < j < before.len() ==> ((#[trigger] before[j]) matches Some(hit)
                                    ==> !hit.distance.le_spec(best.distance))
                        };
                    assert(hits[k] == before[k]);
                    assert forall|j: int| k < j < hits.len() implies ((#[trigger] hits[j]) matches Some(
                        hit,
                    ) ==> !hit.distance.le_spec(best.distance)) by {
                        if j < last {
                            assert(hits[j] == before[j]);
                        }
                    }
                }
            }
        }
    }

    /// What [`Mesh::nearest_hit`] returns, said of the meetings themselves:
    /// there is a nearest hit just when a meeting makes a hit in `bound`; it
    /// is the hit of one of the meetings in `bound`; its distance is a number
    /// in `bound` and at most that of every such hit.
    pub proof fn lemma_nearest_of_meetings(meetings: Seq<Meeting>, bound: Interval)
        ensures
            Self::nearest(Self::alone(meetings, bound)) is None <==> forall|k: int|
                0 <= k < meetings.len() ==> (#[trigger] meetings[k]).hit_spec(bound) is None,
            Self::nearest(Self::alone(meetings, bound)) matches Some(best) ==> {
                &&& exists|k: int|
                    0 <= k < meetings.len() && (#[trigger] meetings[k]).hit_spec(bound) == Some(best)
                &&& Intersection::accepted(bound, best.distance)
                &&& !best.distance.is_nan_spec()
                &&& forall|k: int|
                    0 <= k < meetings.len() ==> ((#[trigger] meetings[k]).hit_spec(bound) matches Some(
                        hit,
                    ) ==> best.distance.le_spec(hit.distance))
            },
    {
        let hits = Self::alone(meetings, bound);
        Self::lemma_alone_in_bound(meetings, bound);
        Self::lemma_nearest_is_least(hits);
        assert forall|k: int| 0 <= k < meetings.len() implies hits[k] == (
        #[trigger] meetings[k]).hit_spec(bound) by {}
        if let Some(best) = Self::nearest(hits) {
            let at = choose|k: int| 0 <= k < hits.len() && #[trigger] hits[k] == Self::nearest(hits);
            assert(meetings[at].hit_spec(bound) == Some(best));
            assert forall|k: int| 0 <= k < meetings.len() implies ((
            #[trigger] meetings[k]).hit_spec(bound) matches Some(hit) ==> best.distance.le_spec(
                hit.distance,
            )) by {
                assert(hits[k] == meetings[k].hit_spec(bound));
            }
        } else {
            assert forall|k: int| 0 <= k < meetings.len() implies (#[trigger] meetings[k]).hit_spec(
                bound,
            ) is None by {
                assert(hits[k] is None);
            }
        }
        if forall|k: int| 0 <= k < meetings.len() ==> (#[trigger] meetings[k]).hit_spec(bound) is None {
            assert forall|k: int| 0 <= k < hits.len() implies (#[trigger] hits[k]) is None by {
                assert(meetings[k].hit_spec(bound) is None);
            }
        }
    }

    /// The hits that meetings make in a range have distances that are
    /// numbers and lie in the range.
    pub proof fn lemma_alone_in_bound(meetings: Seq<Meeting>, bound: Interval)
        ensures
            forall|k: int|
                0 <= k < meetings.len() ==> ((#[trigger] Self::alone(meetings, bound)[k]) matches Some(
                    hit,
                ) ==> !hit.distance.is_nan_spec() && Intersection::accepted(bound, hit.distance)),
    {
        assert forall|k: int| 0 <= k < meetings.len() implies ((#[trigger] Self::alone(
            meetings,
            bound,
        )[k]) matches Some(hit) ==> !hit.distance.is_nan_spec() && Intersection::accepted(
            bound,
            hit.distance,
        )) by {
            let m = meetings[k];
            if let Some(hit) = m.hit_spec(bound) {
                Triangle::lemma_hit_is_accepted(
                    m.weights,
                    bound,
                    m.distance,
                    m.point,
                    m.normal,
                    hit,
                );
            }
        }
    }

    /// The nearest hit of a ray on the mesh in `bound`: of the hits that the
    /// triangles have in `bound`, each taken by itself, the one with the
    /// least distance, the last of them in the order of the triangles where
    /// several have it, and none where no triangle is hit.
    ///
    /// `meet` computes what the ray has to do with one triangle. The
    /// triangles are asked about in order, and each hit narrows the range for
    /// those after it.
    pub fn nearest_hit<F: Fn(&Triangle) -> Meeting>(&self, bound: &Interval, meet: F) -> (r: Option<
        Intersection,
    >)
        requires
            forall|t: &Triangle| call_requires(meet, (t,)),
        ensures
            exists|meetings: Seq<Meeting>|
                {
                    &&& meetings.len() == self.triangles@.len()
                    &&& forall|i: int|
                        0 <= i < meetings.len() ==> call_ensures(
                            meet,
                            (&self.triangles@[i],),
                            #[trigger] meetings[i],
                        )
                    &&& r == Self::nearest(Self::alone(meetings, *bound))
                },
    {
        let mut intersection: Option<Intersection> = None;
        let mut b = *bound;
        let ghost mut meetings: Seq<Meeting> = Seq::empty();
        let mut i: usize = 0;
        while i < self.triangles.len()
            invariant
                i <= self.triangles.len(),
                meetings.len() == i,
                forall|t: &Triangle| call_requires(meet, (t,)),
                forall|k: int|
                    0 <= k < i ==> call_ensures(meet, (&self.triangles@[k],), #[trigger] meetings[k]),
                intersection == Self::nearest(Self::alone(meetings, *bound)),
                b == match intersection {
                    Some(best) => (Bound { b: [(bound.lower(0), best.distance)] }),
                    None => *bound,
                },
                intersection matches Some(best) ==> Intersection::accepted(*bound, best.distance),
            decreases self.triangles.len() - i,
        {
            let meeting = meet(&self.triangles[i]);
            let candidate = meeting.hit(&b);
            proof {
                let longer = meetings.push(meeting);
                let hits = Self::alone(longer, *bound);
                assert(hits.drop_last() =~= Self::alone(meetings, *bound));
                assert(hits.last() == meeting.hit_spec(*bound));
                Intersection::lemma_accepted(b, meeting.distance);
                Intersection::lemma_accepted(*bound, meeting.distance);
                if let Some(best) = intersection {
                    Intersection::lemma_accepted(*bound, best.distance);
                    assert(b.lower(0) == bound.lower(0) && b.upper(0) == best.distance);
                    if meeting.distance.le_spec(best.distance) {
                        Float::lemma_le_transitive(
                            meeting.distance,
                            best.distance,
                            bound.upper(0),
                        );
                    }
                }
                assert(candidate == match (meeting.hit_spec(*bound), intersection) {
                    (None, _) => None,
                    (Some(hit), None) => Some(hit),
                    (Some(hit), Some(best)) => if hit.distance.le_spec(best.distance) {
                        Some(hit)
                    } else {
                        None
                    },
                });
                assert forall|k: int| 0 <= k < i + 1 implies call_ensures(
                    meet,
                    (&self.triangles@[k],),
                    #[trigger] longer[k],
                ) by {
                    if k < i {
                        assert(longer[k] == meetings[k]);
                    }
                }
                meetings = longer;
            }
            if let Some(hit) = candidate {
                let lower = b.b[0].0;
                b = Bound { b: [(lower, hit.distance)] };
                intersection = Some(hit);
            }
            i += 1;
        }
        intersection
    }
}

} // verus!
