use aisth::{
    Barycentric, Bound, Float, Intersection, Interval, Meeting, Mesh, Plane, Ray, Triangle, Vector,
    Vector3,
};

fn f(x: f64) -> Float {
    Float::from_bits(x.to_bits())
}

fn n(x: Float) -> f64 {
    f64::from_bits(x.to_bits())
}

fn vec3(v: [f64; 3]) -> Vector3 {
    Vector::new(v.map(f))
}

fn arr(v: &Vector3) -> [f64; 3] {
    v.v.map(n)
}

fn interval(lo: f64, hi: f64) -> Interval {
    Bound::new([(f(lo), f(hi))])
}

fn sub(a: [f64; 3], b: [f64; 3]) -> [f64; 3] {
    [a[0] - b[0], a[1] - b[1], a[2] - b[2]]
}

fn dot(a: [f64; 3], b: [f64; 3]) -> f64 {
    a[0] * b[0] + a[1] * b[1] + a[2] * b[2]
}

fn cross(a: [f64; 3], b: [f64; 3]) -> [f64; 3] {
    [a[1] * b[2] - a[2] * b[1], a[2] * b[0] - a[0] * b[2], a[0] * b[1] - a[1] * b[0]]
}

fn at(ray: &Ray, t: f64) -> [f64; 3] {
    let (o, d) = (arr(&ray.o), arr(&ray.d));
    [o[0] + d[0] * t, o[1] + d[1] * t, o[2] + d[2] * t]
}

fn normalize(a: [f64; 3]) -> [f64; 3] {
    let r = dot(a, a).sqrt().recip();
    [a[0] * r, a[1] * r, a[2] * r]
}

fn meet_plane(plane: &Plane, ray: &Ray, bound: &Interval) -> Option<Intersection> {
    let normal = arr(&plane.normal);
    let distance = dot(sub(arr(&plane.point), arr(&ray.o)), normal) / dot(arr(&ray.d), normal);
    plane.hit_at(bound, f(distance), vec3(at(ray, distance)))
}

fn meet(triangle: &Triangle, ray: &Ray) -> Meeting {
    let v = triangle.vertices.map(|p| arr(&p));
    let (o, d) = (arr(&ray.o), arr(&ray.d));
    let e_1 = sub(v[1], v[0]);
    let e_2 = sub(v[2], v[0]);
    let s = sub(o, v[0]);
    let s_1 = cross(d, e_2);
    let s_2 = cross(s, e_1);
    let det_recip = dot(e_1, s_1).recip();
    let u = dot(s_1, s) * det_recip;
    let w = dot(s_2, d) * det_recip;
    let distance = dot(s_2, e_2) * det_recip;
    let normals = triangle.normals.map(|p| arr(&p));
    let mut blended = [0.0; 3];
    for k in 0..3 {
        blended[k] = (1.0 - u - w) * normals[0][k] + u * normals[1][k] + w * normals[2][k];
    }
    Meeting {
        weights: Barycentric { u: f(u), v: f(w), sum: f(u + w) },
        distance: f(distance),
        point: vec3(at(ray, distance)),
        normal: vec3(normalize(blended)),
    }
}

fn meet_triangle(triangle: &Triangle, ray: &Ray, bound: &Interval) -> Option<Intersection> {
    meet(triangle, ray).hit(bound)
}

fn facing_triangle(z: f64) -> Triangle {
    Triangle::flat(
        [vec3([-1.0, -1.0, z]), vec3([3.0, -1.0, z]), vec3([-1.0, 3.0, z])],
        vec3([0.0, 0.0, -1.0]),
    )
}

#[test]
fn ray_keeps_origin_and_direction() {
    let ray = Ray::new(vec3([1.0, 2.0, 3.0]), vec3([0.0, 0.0, 2.0]));
    assert_eq!(arr(&ray.o), [1.0, 2.0, 3.0]);
    assert_eq!(arr(&ray.d), [0.0, 0.0, 2.0]);
}

#[test]
fn plane_is_hit_from_above_at_distance_one() {
    let plane = Plane::with_unit_normal(vec3([0.0, 0.0, 0.0]), vec3([0.0, 1.0, 0.0]));
    let ray = Ray::new(vec3([0.0, 1.0, 0.0]), vec3([0.0, -1.0, 0.0]));
    let hit = meet_plane(&plane, &ray, &interval(1e-5, f64::INFINITY)).expect("a hit");
    assert_eq!(n(hit.distance), 1.0);
    assert_eq!(arr(&hit.point), [0.0, 0.0, 0.0]);
    assert_eq!(arr(&hit.normal), [0.0, 1.0, 0.0]);
}

#[test]
fn plane_behind_the_ray_is_not_hit() {
    let plane = Plane::with_unit_normal(vec3([0.0, 0.0, 0.0]), vec3([0.0, 1.0, 0.0]));
    let ray = Ray::new(vec3([0.0, 1.0, 0.0]), vec3([0.0, 1.0, 0.0]));
    assert!(meet_plane(&plane, &ray, &interval(1e-5, f64::INFINITY)).is_none());
}

#[test]
fn plane_keeps_its_normal_when_hit_from_below() {
    let plane = Plane::with_unit_normal(vec3([0.0, 0.0, 0.0]), vec3([0.0, 1.0, 0.0]));
    let ray = Ray::new(vec3([0.0, -2.0, 0.0]), vec3([0.0, 1.0, 0.0]));
    let hit = meet_plane(&plane, &ray, &interval(1e-5, f64::INFINITY)).expect("a hit");
    assert_eq!(n(hit.distance), 2.0);
    assert_eq!(arr(&hit.normal), [0.0, 1.0, 0.0]);
}

#[test]
fn ray_along_a_plane_has_no_hit_in_a_finite_interval() {
    let plane = Plane::with_unit_normal(vec3([0.0, 0.0, 0.0]), vec3([0.0, 1.0, 0.0]));
    let ray = Ray::new(vec3([0.0, 1.0, 0.0]), vec3([1.0, 0.0, 0.0]));
    assert!(meet_plane(&plane, &ray, &interval(1e-5, 1e30)).is_none());
    let below = Ray::new(vec3([0.0, -1.0, 0.0]), vec3([1.0, 0.0, 0.0]));
    assert!(meet_plane(&plane, &below, &interval(1e-5, 1e30)).is_none());
}

#[test]
fn ray_lying_in_a_plane_has_no_hit() {
    let plane = Plane::with_unit_normal(vec3([0.0, 0.0, 0.0]), vec3([0.0, 1.0, 0.0]));
    let ray = Ray::new(vec3([0.0, 0.0, 0.0]), vec3([1.0, 0.0, 0.0]));
    assert!(meet_plane(&plane, &ray, &interval(1e-5, 1e30)).is_none());
    assert!(meet_plane(&plane, &ray, &interval(1e-5, f64::INFINITY)).is_none());
    assert!(meet_plane(&plane, &ray, &interval(f64::NEG_INFINITY, f64::INFINITY)).is_none());
}

#[test]
fn no_hit_is_made_of_a_distance_that_is_no_number() {
    let point = vec3([0.0, 0.0, 0.0]);
    let normal = vec3([0.0, 1.0, 0.0]);
    let everything = interval(f64::NEG_INFINITY, f64::INFINITY);
    assert!(Intersection::within(&everything, f(f64::NAN), point, normal).is_none());
    assert!(Intersection::within(&everything, f(f64::INFINITY), point, normal).is_some());
    assert!(Intersection::within(&interval(0.0, 1e300), f(f64::INFINITY), point, normal).is_none());
    let plane = Plane::with_unit_normal(point, normal);
    assert!(plane.hit_at(&everything, f(f64::NAN), point).is_none());
}

#[test]
fn ray_along_a_plane_is_hit_at_infinity_where_the_interval_reaches_it() {
    let plane = Plane::with_unit_normal(vec3([0.0, 0.0, 0.0]), vec3([0.0, 1.0, 0.0]));
    let ray = Ray::new(vec3([0.0, -1.0, 0.0]), vec3([1.0, 0.0, 0.0]));
    let hit = meet_plane(&plane, &ray, &interval(1e-5, f64::INFINITY)).expect("a hit");
    assert_eq!(n(hit.distance), f64::INFINITY);
}

#[test]
fn hit_is_accepted_only_inside_the_interval() {
    let point = vec3([0.0, 0.0, 0.0]);
    let normal = vec3([0.0, 1.0, 0.0]);
    let bound = interval(1.0, 2.0);
    assert!(Intersection::within(&bound, f(1.0), point, normal).is_some());
    assert!(Intersection::within(&bound, f(2.0), point, normal).is_some());
    assert!(Intersection::within(&bound, f(0.999), point, normal).is_none());
    assert!(Intersection::within(&bound, f(2.001), point, normal).is_none());
    let hit = Intersection::within(&bound, f(1.5), point, normal).expect("a hit");
    assert_eq!(n(hit.distance), 1.5);
}

#[test]
fn barycentric_weights_decide_membership() {
    let inside = |u: f64, v: f64| Barycentric { u: f(u), v: f(v), sum: f(u + v) }.inside();
    assert!(inside(0.25, 0.25));
    assert!(inside(0.0, 0.0));
    assert!(inside(1.0, 0.0));
    assert!(inside(0.0, 1.0));
    assert!(inside(0.5, 0.5));
    assert!(!inside(-0.1, 0.5));
    assert!(!inside(1.1, 0.0));
    assert!(!inside(0.5, -0.1));
    assert!(!inside(0.6, 0.6));
    assert!(!inside(f64::INFINITY, 0.0));
    assert!(!inside(0.0, f64::NEG_INFINITY));
    assert!(!inside(f64::NAN, f64::NAN));
    assert!(!inside(f64::NAN, 0.25));
    assert!(!inside(0.25, f64::NAN));
    assert!(!Barycentric { u: f(0.25), v: f(0.25), sum: f(f64::NAN) }.inside());
    assert!(!inside(0.0, f64::INFINITY));
    assert!(inside(-0.0, -0.0));
}

#[test]
fn triangle_is_hit_inside_and_missed_outside() {
    let triangle = facing_triangle(4.0);
    let bound = interval(0.0, f64::INFINITY);
    let through = Ray::new(vec3([0.0, 0.0, 0.0]), vec3([0.0, 0.0, 1.0]));
    let hit = meet_triangle(&triangle, &through, &bound).expect("a hit");
    assert_eq!(n(hit.distance), 4.0);
    assert_eq!(arr(&hit.point), [0.0, 0.0, 4.0]);
    assert_eq!(arr(&hit.normal), [0.0, 0.0, -1.0]);
    let beside = Ray::new(vec3([5.0, 5.0, 0.0]), vec3([0.0, 0.0, 1.0]));
    assert!(meet_triangle(&triangle, &beside, &bound).is_none());
    let away = Ray::new(vec3([0.0, 0.0, 0.0]), vec3([0.0, 0.0, -1.0]));
    assert!(meet_triangle(&triangle, &away, &bound).is_none());
}

#[test]
fn triangle_weights_sum_to_one_and_locate_the_hit() {
    let triangle = Triangle::new(
        [vec3([0.0, 0.0, 2.0]), vec3([4.0, 0.0, 2.0]), vec3([0.0, 4.0, 2.0])],
        [vec3([0.0, 0.0, -1.0]), vec3([0.0, 0.0, -1.0]), vec3([0.0, 0.0, -1.0])],
    );
    let ray = Ray::new(vec3([1.0, 2.0, 0.0]), vec3([0.0, 0.0, 1.0]));
    let hit = meet_triangle(&triangle, &ray, &interval(0.0, f64::INFINITY)).expect("a hit");
    let (u, v) = (0.25, 0.5);
    let w = 1.0 - u - v;
    assert!((u + v + w - 1.0f64).abs() < 1e-12);
    let corners = triangle.vertices.map(|p| arr(&p));
    for k in 0..3 {
        let located = u * corners[1][k] + v * corners[2][k] + w * corners[0][k];
        assert!((located - arr(&hit.point)[k]).abs() < 1e-12);
    }
}

#[test]
fn triangle_wound_the_other_way_is_hit_at_the_same_place() {
    let corners = [vec3([-1.0, -1.0, 3.0]), vec3([3.0, -1.0, 3.0]), vec3([-1.0, 3.0, 3.0])];
    let normal = vec3([0.0, 0.0, -1.0]);
    let one = Triangle::flat(corners, normal);
    let other = Triangle::flat([corners[0], corners[2], corners[1]], normal);
    let ray = Ray::new(vec3([0.0, 0.0, 0.0]), vec3([0.0, 0.0, 1.0]));
    let bound = interval(0.0, f64::INFINITY);
    let a = meet_triangle(&one, &ray, &bound).expect("a hit");
    let b = meet_triangle(&other, &ray, &bound).expect("a hit");
    assert_eq!(n(a.distance), n(b.distance));
    assert_eq!(arr(&a.point), arr(&b.point));
}

#[test]
fn triangle_without_area_is_never_hit() {
    let corner = vec3([1.0, 1.0, 3.0]);
    let point = Triangle::flat([corner, corner, corner], vec3([0.0, 0.0, -1.0]));
    let line = Triangle::flat(
        [vec3([0.0, 0.0, 3.0]), vec3([1.0, 0.0, 3.0]), vec3([2.0, 0.0, 3.0])],
        vec3([0.0, 0.0, -1.0]),
    );
    let everything = interval(f64::NEG_INFINITY, f64::INFINITY);
    let rays = [
        Ray::new(vec3([0.0, 0.0, 0.0]), vec3([0.0, 0.0, 1.0])),
        Ray::new(vec3([1.0, 1.0, 0.0]), vec3([0.0, 0.0, 1.0])),
        Ray::new(vec3([1.0, 0.0, 0.0]), vec3([0.0, 0.0, 1.0])),
    ];
    for ray in &rays {
        assert!(meet_triangle(&point, ray, &everything).is_none());
        assert!(meet_triangle(&line, ray, &everything).is_none());
    }
}

#[test]
fn ray_along_the_plane_of_a_triangle_has_no_hit() {
    let triangle = facing_triangle(0.0);
    let everything = interval(f64::NEG_INFINITY, f64::INFINITY);
    let in_plane = Ray::new(vec3([-5.0, 0.0, 0.0]), vec3([1.0, 0.0, 0.0]));
    let beside = Ray::new(vec3([-5.0, 0.0, 1.0]), vec3([1.0, 0.0, 0.0]));
    assert!(meet_triangle(&triangle, &in_plane, &everything).is_none());
    assert!(meet_triangle(&triangle, &beside, &everything).is_none());
}

#[test]
fn triangle_with_weights_that_are_no_numbers_has_no_hit() {
    let point = vec3([0.0, 0.0, 0.0]);
    let normal = vec3([0.0, 0.0, -1.0]);
    let everything = interval(f64::NEG_INFINITY, f64::INFINITY);
    let nan = Barycentric { u: f(f64::NAN), v: f(f64::NAN), sum: f(f64::NAN) };
    assert!(Triangle::hit_at(nan, &everything, f(f64::NAN), point, normal).is_none());
    assert!(Triangle::hit_at(nan, &everything, f(1.0), point, normal).is_none());
    let good = Barycentric { u: f(0.25), v: f(0.25), sum: f(0.5) };
    assert!(Triangle::hit_at(good, &everything, f(f64::NAN), point, normal).is_none());
    assert!(Triangle::hit_at(good, &everything, f(1.0), point, normal).is_some());
}

#[test]
fn mesh_keeps_the_nearest_hit_past_a_triangle_without_area() {
    let corner = vec3([0.0, 0.0, 6.0]);
    let nothing = Triangle::flat([corner, corner, corner], vec3([0.0, 0.0, -1.0]));
    let mesh = Mesh::new(vec![facing_triangle(5.0), nothing, facing_triangle(8.0)]);
    let ray = Ray::new(vec3([0.0, 0.0, 0.0]), vec3([0.0, 0.0, 1.0]));
    let seen = std::cell::RefCell::new(Vec::new());
    let hit = mesh
        .intersect_with(&interval(0.0, f64::INFINITY), |t, w| {
            seen.borrow_mut().push(n(w.b[0].1));
            meet_triangle(t, &ray, w)
        })
        .expect("a hit");
    assert_eq!(n(hit.distance), 5.0);
    assert_eq!(seen.into_inner(), vec![f64::INFINITY, 5.0, 5.0]);
}

#[test]
fn mesh_with_a_probe_of_no_number_keeps_the_nearest_hit() {
    let mesh = Mesh::new(vec![facing_triangle(5.0), facing_triangle(6.0), facing_triangle(8.0)]);
    let point = vec3([0.0, 0.0, 0.0]);
    let normal = vec3([0.0, 0.0, -1.0]);
    let distances = [5.0, f64::NAN, 8.0];
    let at = std::cell::Cell::new(0);
    let hit = mesh
        .intersect_with(&interval(0.0, f64::INFINITY), |_, w| {
            let distance = distances[at.get()];
            at.set(at.get() + 1);
            Intersection::within(w, f(distance), point, normal)
        })
        .expect("a hit");
    assert_eq!(n(hit.distance), 5.0);
}

#[test]
fn flat_triangle_has_one_normal_at_every_vertex() {
    let t = facing_triangle(1.0);
    for k in 0..3 {
        assert_eq!(arr(&t.normals[k]), [0.0, 0.0, -1.0]);
    }
}

#[test]
fn mesh_returns_the_nearest_of_three_hits() {
    let mesh = Mesh::new(vec![facing_triangle(5.0), facing_triangle(2.0), facing_triangle(8.0)]);
    let ray = Ray::new(vec3([0.0, 0.0, 0.0]), vec3([0.0, 0.0, 1.0]));
    let hit = mesh
        .intersect_with(&interval(0.0, f64::INFINITY), |t, w| meet_triangle(t, &ray, w))
        .expect("a hit");
    assert_eq!(n(hit.distance), 2.0);
    assert_eq!(arr(&hit.point), [0.0, 0.0, 2.0]);
}

#[test]
fn mesh_returns_the_nearest_hit_in_any_order() {
    let ray = Ray::new(vec3([0.0, 0.0, 0.0]), vec3([0.0, 0.0, 1.0]));
    let orders = [[2.0, 5.0, 8.0], [8.0, 5.0, 2.0], [5.0, 8.0, 2.0], [2.0, 8.0, 5.0]];
    for order in orders {
        let mesh = Mesh::new(order.iter().map(|z| facing_triangle(*z)).collect());
        let hit = mesh
            .intersect_with(&interval(0.0, f64::INFINITY), |t, w| meet_triangle(t, &ray, w))
            .expect("a hit");
        assert_eq!(n(hit.distance), 2.0);
    }
}

#[test]
fn mesh_probes_each_triangle_in_the_narrowed_interval() {
    let mesh = Mesh::new(vec![facing_triangle(5.0), facing_triangle(2.0), facing_triangle(8.0)]);
    let ray = Ray::new(vec3([0.0, 0.0, 0.0]), vec3([0.0, 0.0, 1.0]));
    let seen = std::cell::RefCell::new(Vec::new());
    mesh.intersect_with(&interval(0.0, 100.0), |t, w| {
        seen.borrow_mut().push((n(w.b[0].0), n(w.b[0].1)));
        meet_triangle(t, &ray, w)
    });
    assert_eq!(seen.into_inner(), vec![(0.0, 100.0), (0.0, 5.0), (0.0, 2.0)]);
}

#[test]
fn mesh_without_a_hit_in_the_interval_returns_none() {
    let mesh = Mesh::new(vec![facing_triangle(5.0), facing_triangle(2.0), facing_triangle(8.0)]);
    let ray = Ray::new(vec3([0.0, 0.0, 0.0]), vec3([0.0, 0.0, 1.0]));
    assert!(mesh.intersect_with(&interval(0.0, 1.0), |t, w| meet_triangle(t, &ray, w)).is_none());
    let empty = Mesh::new(Vec::new());
    assert!(empty.intersect_with(&interval(0.0, 1.0), |t, w| meet_triangle(t, &ray, w)).is_none());
}

fn meeting_at(distance: f64) -> Meeting {
    Meeting {
        weights: Barycentric { u: f(0.25), v: f(0.25), sum: f(0.5) },
        distance: f(distance),
        point: vec3([0.0, 0.0, distance]),
        normal: vec3([0.0, 0.0, -1.0]),
    }
}

fn nearest_of(distances: &[f64], bound: &Interval) -> Option<(f64, usize)> {
    let mesh = Mesh::new(distances.iter().map(|_| facing_triangle(0.0)).collect());
    let asked = std::cell::Cell::new(0);
    let hit = mesh.nearest_hit(bound, |_| {
        let k = asked.get();
        asked.set(k + 1);
        let mut meeting = meeting_at(distances[k]);
        meeting.point = vec3([k as f64, 0.0, 0.0]);
        meeting
    });
    assert_eq!(asked.get(), distances.len());
    hit.map(|h| (n(h.distance), arr(&h.point)[0] as usize))
}

#[test]
fn nearest_hit_is_the_nearest_of_three() {
    let mesh = Mesh::new(vec![facing_triangle(5.0), facing_triangle(2.0), facing_triangle(8.0)]);
    let ray = Ray::new(vec3([0.0, 0.0, 0.0]), vec3([0.0, 0.0, 1.0]));
    let hit = mesh.nearest_hit(&interval(0.0, f64::INFINITY), |t| meet(t, &ray)).expect("a hit");
    assert_eq!(n(hit.distance), 2.0);
    assert_eq!(arr(&hit.point), [0.0, 0.0, 2.0]);
    assert_eq!(arr(&hit.normal), [0.0, 0.0, -1.0]);
}

#[test]
fn nearest_hit_is_the_least_in_the_interval_in_any_order() {
    let all = interval(0.0, f64::INFINITY);
    assert_eq!(nearest_of(&[5.0, 2.0, 8.0], &all), Some((2.0, 1)));
    assert_eq!(nearest_of(&[8.0, 5.0, 2.0], &all), Some((2.0, 2)));
    assert_eq!(nearest_of(&[2.0, 5.0, 8.0], &all), Some((2.0, 0)));
    assert_eq!(nearest_of(&[5.0, 2.0, 8.0], &interval(3.0, 10.0)), Some((5.0, 0)));
    assert_eq!(nearest_of(&[5.0, 2.0, 8.0], &interval(6.0, 10.0)), Some((8.0, 2)));
    assert_eq!(nearest_of(&[5.0, 2.0, 8.0], &interval(9.0, 10.0)), None);
    assert_eq!(nearest_of(&[], &all), None);
}

#[test]
fn nearest_hit_of_several_equally_near_is_the_last() {
    let all = interval(0.0, f64::INFINITY);
    assert_eq!(nearest_of(&[2.0, 5.0, 2.0, 8.0, 2.0, 9.0], &all), Some((2.0, 4)));
    assert_eq!(nearest_of(&[0.0, -0.0], &all), Some((0.0, 1)));
}

#[test]
fn nearest_hit_passes_over_what_is_no_number() {
    let all = interval(0.0, f64::INFINITY);
    assert_eq!(nearest_of(&[5.0, f64::NAN, 8.0], &all), Some((5.0, 0)));
    assert_eq!(nearest_of(&[f64::NAN, 5.0, 8.0], &all), Some((5.0, 1)));
    assert_eq!(nearest_of(&[f64::NAN, f64::NAN], &all), None);
    assert_eq!(nearest_of(&[f64::INFINITY, f64::NEG_INFINITY], &interval(0.0, 1e30)), None);
    let mut broken = interval(0.0, 10.0);
    broken[0].1 = f(f64::NAN);
    assert_eq!(nearest_of(&[5.0, 2.0], &broken), None);
}

#[test]
fn nearest_hit_leaves_out_meetings_outside_the_triangle() {
    let mesh = Mesh::new(vec![facing_triangle(2.0), facing_triangle(5.0)]);
    let ray = Ray::new(vec3([0.0, 0.0, 0.0]), vec3([0.0, 0.0, 1.0]));
    let hit = mesh.nearest_hit(&interval(0.0, 100.0), |t| {
        let mut meeting = meet(t, &ray);
        if n(meeting.distance) == 2.0 {
            meeting.weights = Barycentric { u: f(0.75), v: f(0.75), sum: f(1.5) };
        }
        meeting
    });
    assert_eq!(n(hit.expect("a hit").distance), 5.0);
}
