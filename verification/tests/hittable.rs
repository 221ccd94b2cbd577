use glam::DVec3;
use ray_tracing::hittable::{HitRecord, Hittable, Hittables, Sphere};
use ray_tracing::scalar::Scalar;
use ray_tracing::types::{Ray, Vec3};
use std::cell::RefCell;
use std::rc::Rc;

fn scalar(x: f64) -> Scalar {
    Scalar::from_bits(x.to_bits())
}

fn number(s: Scalar) -> f64 {
    f64::from_bits(s.to_bits())
}

fn vector(v: DVec3) -> Vec3 {
    Vec3::new(scalar(v.x), scalar(v.y), scalar(v.z))
}

fn dvec(v: Vec3) -> DVec3 {
    DVec3::new(number(v.x), number(v.y), number(v.z))
}

fn ray(origin: DVec3, direction: DVec3) -> Ray {
    Ray::new(vector(origin), vector(direction))
}

fn full_window() -> (Scalar, Scalar) {
    (Scalar::zero(), Scalar::infinity())
}

/// A sphere that does its arithmetic in double precision and leaves every
/// decision to the library.
struct Ball(Sphere);

fn ball(center: DVec3, radius: f64) -> Ball {
    Ball(Sphere::new(vector(center), scalar(radius)))
}

impl Hittable for Ball {
    fn hit(&self, r: &Ray, t_min: Scalar, t_max: Scalar) -> Option<HitRecord> {
        let center = dvec(self.0.center());
        let radius = number(self.0.radius());
        let origin = dvec(r.origin);
        let direction = dvec(r.direction);
        let oc = origin - center;
        let a = direction.dot(direction);
        let half_b = oc.dot(direction);
        let c = oc.dot(oc) - radius * radius;
        let discriminant = half_b * half_b - a * c;
        let near = (-half_b - discriminant.sqrt()) / a;
        let far = (-half_b + discriminant.sqrt()) / a;
        let t = self.0.hit_at(scalar(discriminant), scalar(near), scalar(far), t_min, t_max)?;
        let p = origin + number(t) * direction;
        let outward_normal = (p - center) / radius;
        let facing = direction.dot(outward_normal);
        Some(HitRecord::new_with_face_normal(vector(p), vector(outward_normal), t, scalar(facing)))
    }
}

/// An object with one crossing, at a fixed ray parameter, that notes every
/// window it is asked for.
struct Marker {
    t: f64,
    asked: Rc<RefCell<Vec<(f64, f64)>>>,
}

impl Hittable for Marker {
    fn hit(&self, _r: &Ray, t_min: Scalar, t_max: Scalar) -> Option<HitRecord> {
        self.asked.borrow_mut().push((number(t_min), number(t_max)));
        if number(t_min) < self.t && self.t < number(t_max) {
            let here = vector(DVec3::new(0.0, 0.0, -self.t));
            Some(HitRecord::new(here, vector(DVec3::Z), scalar(self.t), true))
        } else {
            None
        }
    }
}

fn markers(ts: &[f64]) -> (Hittables, Rc<RefCell<Vec<(f64, f64)>>>) {
    let asked = Rc::new(RefCell::new(Vec::new()));
    let mut scene = Hittables::new();
    for &t in ts {
        scene.push(Box::new(Marker { t, asked: asked.clone() }));
    }
    (scene, asked)
}

fn down_the_axis() -> Ray {
    ray(DVec3::ZERO, DVec3::new(0.0, 0.0, -1.0))
}

#[test]
fn hit_record_new_keeps_a_front_normal() {
    let p = vector(DVec3::new(1.0, 2.0, 3.0));
    let normal = vector(DVec3::new(0.0, 1.0, 0.0));
    let record = HitRecord::new(p, normal, scalar(2.5), true);
    assert_eq!(record.p(), p);
    assert_eq!(record.normal(), normal);
    assert_eq!(record.t(), scalar(2.5));
    assert!(record.front_face());
}

#[test]
fn hit_record_new_turns_a_back_normal() {
    let p = vector(DVec3::new(1.0, 2.0, 3.0));
    let normal = vector(DVec3::new(0.0, 1.0, -0.5));
    let record = HitRecord::new(p, normal, scalar(2.5), false);
    assert_eq!(record.p(), p);
    assert_eq!(dvec(record.normal()), DVec3::new(0.0, -1.0, 0.5));
    assert_eq!(record.normal(), normal.neg());
    assert_eq!(record.t(), scalar(2.5));
    assert!(!record.front_face());
}

#[test]
fn new_with_face_normal_follows_the_sign_of_the_dot_product() {
    let p = vector(DVec3::new(0.0, 0.0, -0.5));
    let outward = vector(DVec3::new(0.0, 0.0, 1.0));
    let front = HitRecord::new_with_face_normal(p, outward, scalar(0.5), scalar(-1.0));
    assert!(front.front_face());
    assert_eq!(front.normal(), outward);
    assert_eq!(front.t(), scalar(0.5));
    assert_eq!(front.p(), p);
    let back = HitRecord::new_with_face_normal(p, outward, scalar(0.5), scalar(1.0));
    assert!(!back.front_face());
    assert_eq!(back.normal(), outward.neg());
    let grazing = HitRecord::new_with_face_normal(p, outward, scalar(0.5), scalar(0.0));
    assert!(!grazing.front_face());
    assert_eq!(grazing.normal(), outward.neg());
    let minus_zero = HitRecord::new_with_face_normal(p, outward, scalar(0.5), scalar(-0.0));
    assert!(!minus_zero.front_face());
    let unknown = HitRecord::new_with_face_normal(p, outward, scalar(0.5), scalar(f64::NAN));
    assert!(!unknown.front_face());
    assert_eq!(unknown.normal(), outward.neg());
}

#[test]
fn set_face_normal_orients_anew() {
    let p = vector(DVec3::new(0.0, 0.0, -0.5));
    let outward = vector(DVec3::new(0.0, 0.0, 1.0));
    let mut record = HitRecord::new(p, outward, scalar(0.5), true);
    let other = vector(DVec3::new(1.0, 0.0, 0.0));
    record.set_face_normal(scalar(0.25), other);
    assert!(!record.front_face());
    assert_eq!(record.normal(), other.neg());
    assert_eq!(record.p(), p);
    assert_eq!(record.t(), scalar(0.5));
    record.set_face_normal(scalar(-0.25), other);
    assert!(record.front_face());
    assert_eq!(record.normal(), other);
}

#[test]
fn stored_normal_never_points_along_the_ray() {
    let outward = DVec3::new(0.3, -0.4, 0.5).normalize();
    for direction in [
        DVec3::new(1.0, 0.0, 0.0),
        DVec3::new(-1.0, 0.0, 0.0),
        DVec3::new(0.2, 0.9, -3.0),
        DVec3::new(-0.3, 0.4, -0.5),
        DVec3::new(0.3, -0.4, 0.5),
        DVec3::new(4.0, 3.0, 0.0),
    ] {
        let facing = direction.dot(outward);
        let record = HitRecord::new_with_face_normal(
            vector(DVec3::ZERO),
            vector(outward),
            scalar(1.0),
            scalar(facing),
        );
        assert_eq!(record.front_face(), facing < 0.0);
        assert!(direction.dot(dvec(record.normal())) <= 0.0);
    }
}

#[test]
fn sphere_new_keeps_center_and_radius() {
    let center = vector(DVec3::new(0.0, -100.5, -1.0));
    let sphere = Sphere::new(center, scalar(100.0));
    assert_eq!(sphere.center(), center);
    assert_eq!(sphere.radius(), scalar(100.0));
}

#[test]
fn sphere_hit_at_prefers_the_near_root() {
    let sphere = Sphere::new(vector(DVec3::ZERO), scalar(1.0));
    let (t_min, t_max) = full_window();
    assert_eq!(sphere.hit_at(scalar(4.0), scalar(1.0), scalar(3.0), t_min, t_max), Some(scalar(1.0)));
    assert_eq!(sphere.hit_at(scalar(0.0), scalar(2.0), scalar(2.0), t_min, t_max), Some(scalar(2.0)));
}

#[test]
fn sphere_hit_at_falls_back_to_the_far_root() {
    let sphere = Sphere::new(vector(DVec3::ZERO), scalar(1.0));
    let (t_min, t_max) = full_window();
    assert_eq!(sphere.hit_at(scalar(4.0), scalar(-1.0), scalar(3.0), t_min, t_max), Some(scalar(3.0)));
    assert_eq!(sphere.hit_at(scalar(4.0), scalar(0.0), scalar(3.0), t_min, t_max), Some(scalar(3.0)));
    assert_eq!(
        sphere.hit_at(scalar(4.0), scalar(1.0), scalar(3.0), scalar(1.0), scalar(10.0)),
        Some(scalar(3.0))
    );
}

#[test]
fn sphere_hit_at_window_is_open() {
    let sphere = Sphere::new(vector(DVec3::ZERO), scalar(1.0));
    assert_eq!(sphere.hit_at(scalar(4.0), scalar(1.0), scalar(3.0), scalar(1.0), scalar(3.0)), None);
    assert_eq!(sphere.hit_at(scalar(4.0), scalar(1.0), scalar(3.0), scalar(3.0), scalar(9.0)), None);
    assert_eq!(sphere.hit_at(scalar(4.0), scalar(1.0), scalar(3.0), scalar(0.0), scalar(1.0)), None);
    assert_eq!(
        sphere.hit_at(scalar(4.0), scalar(1.0), scalar(3.0), scalar(0.0), scalar(3.0)),
        Some(scalar(1.0))
    );
    assert_eq!(sphere.hit_at(scalar(4.0), scalar(-3.0), scalar(-1.0), scalar(0.0), Scalar::infinity()), None);
}

#[test]
fn sphere_hit_at_misses_below_zero_discriminant() {
    let sphere = Sphere::new(vector(DVec3::ZERO), scalar(1.0));
    let (t_min, t_max) = full_window();
    assert_eq!(sphere.hit_at(scalar(-0.5), scalar(1.0), scalar(3.0), t_min, t_max), None);
    assert_eq!(sphere.hit_at(scalar(-0.5), scalar(f64::NAN), scalar(f64::NAN), t_min, t_max), None);
    assert_eq!(sphere.hit_at(scalar(f64::NAN), scalar(f64::NAN), scalar(f64::NAN), t_min, t_max), None);
}

#[test]
fn sphere_without_a_radius_is_never_hit() {
    let (t_min, t_max) = full_window();
    for radius in [0.0, -0.0, -1.0, f64::NEG_INFINITY, f64::NAN] {
        let sphere = Sphere::new(vector(DVec3::ZERO), scalar(radius));
        assert_eq!(sphere.hit_at(scalar(4.0), scalar(1.0), scalar(3.0), t_min, t_max), None);
        let toward = ray(DVec3::new(0.0, 0.0, 5.0), DVec3::new(0.0, 0.0, -1.0));
        assert!(ball(DVec3::ZERO, radius).hit(&toward, t_min, t_max).is_none());
    }
}

#[test]
fn ray_toward_sphere_hits_its_surface() {
    let center = DVec3::new(0.3, -0.2, -4.0);
    let radius = 1.25;
    let origin = DVec3::new(0.1, 0.4, 1.0);
    let direction = (center - origin) * 0.37;
    let (t_min, t_max) = full_window();
    let hit = ball(center, radius).hit(&ray(origin, direction), t_min, t_max).expect("a hit");
    let t = number(hit.t());
    assert!(0.0 < t && t < f64::INFINITY);
    assert!(((dvec(hit.p()) - center).length() - radius).abs() < 1e-9);
    assert!((dvec(hit.p()) - (origin + t * direction)).length() < 1e-12);
    assert!(hit.front_face());
}

#[test]
fn rays_toward_spheres_hit_within_the_window() {
    let mut state: u64 = 0x2545_F491_4F6C_DD1D;
    let mut next = || {
        state ^= state << 13;
        state ^= state >> 7;
        state ^= state << 17;
        (state >> 11) as f64 / (1u64 << 53) as f64
    };
    for _ in 0..500 {
        let center = DVec3::new(next() * 20.0 - 10.0, next() * 20.0 - 10.0, next() * 20.0 - 10.0);
        let radius = 0.1 + next() * 3.0;
        let away = DVec3::new(next() - 0.5, next() - 0.5, next() - 0.5).normalize();
        let origin = center + away * (radius * (1.5 + next() * 10.0));
        let direction = (center - origin) * (0.1 + next() * 4.0);
        let t_max = 1e9;
        let hit = ball(center, radius)
            .hit(&ray(origin, direction), scalar(0.0), scalar(t_max))
            .expect("a hit");
        let t = number(hit.t());
        assert!(0.0 < t && t <= t_max);
        assert!(((dvec(hit.p()) - center).length() - radius).abs() < 1e-9 * (1.0 + radius));
        assert!(direction.dot(dvec(hit.normal())) <= 0.0);
        assert!(hit.front_face());
    }
}

#[test]
fn stored_normal_opposes_ray_from_outside_and_inside() {
    let center = DVec3::new(0.0, 0.0, -1.0);
    let direction = DVec3::new(0.1, 0.2, -1.0);
    let (t_min, t_max) = full_window();
    let outside = ball(center, 0.5).hit(&ray(DVec3::ZERO, direction), t_min, t_max).expect("a hit");
    assert!(outside.front_face());
    assert!(direction.dot(dvec(outside.normal())) <= 0.0);
    assert!((dvec(outside.normal()).length() - 1.0).abs() < 1e-12);
    let inside = ball(center, 0.5).hit(&ray(center, direction), t_min, t_max).expect("a hit");
    assert!(!inside.front_face());
    assert!(direction.dot(dvec(inside.normal())) <= 0.0);
    assert!((dvec(inside.normal()).length() - 1.0).abs() < 1e-12);
}

#[test]
fn ray_pointing_away_misses() {
    let (t_min, t_max) = full_window();
    let away = ray(DVec3::ZERO, DVec3::new(0.0, 0.0, 1.0));
    assert!(ball(DVec3::new(0.0, 0.0, -1.0), 0.5).hit(&away, t_min, t_max).is_none());
    let beside = ray(DVec3::ZERO, DVec3::new(1.0, 0.0, -1.0));
    assert!(ball(DVec3::new(0.0, 0.0, -1.0), 0.5).hit(&beside, t_min, t_max).is_none());
}

#[test]
fn ray_without_a_direction_hits_nothing() {
    let (t_min, t_max) = full_window();
    let still = ray(DVec3::new(0.0, 0.0, 5.0), DVec3::ZERO);
    assert!(ball(DVec3::ZERO, 1.0).hit(&still, t_min, t_max).is_none());
    let inside = ray(DVec3::new(0.0, 0.0, 0.5), DVec3::ZERO);
    assert!(ball(DVec3::ZERO, 1.0).hit(&inside, t_min, t_max).is_none());
}

#[test]
fn empty_scene_is_never_hit() {
    let (t_min, t_max) = full_window();
    assert!(Hittables::new().hit(&down_the_axis(), t_min, t_max).is_none());
}

#[test]
fn scene_returns_the_nearer_of_two_overlapping_spheres() {
    let near_center = DVec3::new(0.0, 0.0, -2.0);
    let far_center = DVec3::new(0.0, 0.0, -2.6);
    let (t_min, t_max) = full_window();
    let mut near_first = Hittables::new();
    near_first.push(Box::new(ball(near_center, 1.0)));
    near_first.push(Box::new(ball(far_center, 1.0)));
    let mut far_first = Hittables::new();
    far_first.push(Box::new(ball(far_center, 1.0)));
    far_first.push(Box::new(ball(near_center, 1.0)));
    for direction in [
        DVec3::new(0.0, 0.0, -1.0),
        DVec3::new(0.1, 0.0, -1.0),
        DVec3::new(-0.2, 0.3, -1.0),
        DVec3::new(0.0, 0.3, -1.0),
    ] {
        let r = ray(DVec3::ZERO, direction);
        let alone = ball(near_center, 1.0).hit(&r, t_min, t_max).expect("a hit");
        let behind = ball(far_center, 1.0).hit(&r, t_min, t_max).expect("a hit");
        assert!(number(alone.t()) < number(behind.t()));
        let one = near_first.hit(&r, t_min, t_max).expect("a hit");
        let other = far_first.hit(&r, t_min, t_max).expect("a hit");
        assert_eq!(one, alone);
        assert_eq!(other, alone);
    }
    let straight = near_first.hit(&down_the_axis(), t_min, t_max).expect("a hit");
    assert_eq!(number(straight.t()), 1.0);
    assert_eq!(dvec(straight.p()), DVec3::new(0.0, 0.0, -1.0));
    assert_eq!(dvec(straight.normal()), DVec3::new(0.0, 0.0, 1.0));
}

#[test]
fn scene_result_does_not_depend_on_insertion_order() {
    let centers = [
        (DVec3::new(0.0, 0.0, -3.0), 1.0),
        (DVec3::new(0.5, 0.2, -5.0), 2.0),
        (DVec3::new(-0.4, 0.1, -2.0), 0.3),
        (DVec3::new(0.0, -100.5, -1.0), 100.0),
    ];
    let orders: [[usize; 4]; 5] = [[0, 1, 2, 3], [3, 2, 1, 0], [1, 3, 0, 2], [2, 0, 3, 1], [3, 0, 1, 2]];
    let (t_min, t_max) = full_window();
    for direction in [
        DVec3::new(0.0, 0.0, -1.0),
        DVec3::new(-0.2, 0.05, -1.0),
        DVec3::new(0.3, 0.3, -1.0),
        DVec3::new(0.0, -0.2, -1.0),
        DVec3::new(0.0, 1.0, -0.1),
    ] {
        let r = ray(DVec3::ZERO, direction);
        let mut results = Vec::new();
        for order in orders {
            let mut scene = Hittables::new();
            for i in order {
                scene.push(Box::new(ball(centers[i].0, centers[i].1)));
            }
            results.push(scene.hit(&r, t_min, t_max));
        }
        for result in &results {
            assert_eq!(*result, results[0]);
        }
    }
}

#[test]
fn scene_tie_goes_to_the_member_put_in_first() {
    // Two spheres that the ray grazes at the same point, from either side.
    let left = DVec3::new(-1.0, 0.0, -2.0);
    let right = DVec3::new(1.0, 0.0, -2.0);
    let (t_min, t_max) = full_window();
    let mut left_first = Hittables::new();
    left_first.push(Box::new(ball(left, 1.0)));
    left_first.push(Box::new(ball(right, 1.0)));
    let mut right_first = Hittables::new();
    right_first.push(Box::new(ball(right, 1.0)));
    right_first.push(Box::new(ball(left, 1.0)));
    let one = left_first.hit(&down_the_axis(), t_min, t_max).expect("a hit");
    let other = right_first.hit(&down_the_axis(), t_min, t_max).expect("a hit");
    assert_eq!(number(one.t()), 2.0);
    assert_eq!(number(other.t()), 2.0);
    assert_eq!(one.p(), other.p());
    assert_eq!(dvec(one.normal()).x, -1.0);
    assert_eq!(dvec(other.normal()).x, 1.0);
}

#[test]
fn scene_asks_each_member_before_the_nearest_hit_so_far() {
    let (scene, asked) = markers(&[5.0, 7.0, 3.0, 4.0, 1.0]);
    let hit = scene.hit(&down_the_axis(), scalar(0.5), scalar(6.0)).expect("a hit");
    assert_eq!(number(hit.t()), 1.0);
    assert_eq!(*asked.borrow(), vec![(0.5, 6.0), (0.5, 5.0), (0.5, 5.0), (0.5, 3.0), (0.5, 3.0)]);
}

#[test]
fn scene_respects_the_window() {
    let (scene, asked) = markers(&[5.0, 7.0, 3.0]);
    assert!(scene.hit(&down_the_axis(), scalar(7.0), scalar(100.0)).is_none());
    assert!(scene.hit(&down_the_axis(), scalar(0.0), scalar(3.0)).is_none());
    assert_eq!(asked.borrow().len(), 6);
    let hit = scene.hit(&down_the_axis(), scalar(3.0), scalar(100.0)).expect("a hit");
    assert_eq!(number(hit.t()), 5.0);
    let hit = scene.hit(&down_the_axis(), scalar(5.0), scalar(100.0)).expect("a hit");
    assert_eq!(number(hit.t()), 7.0);
}

#[test]
fn scene_clear_takes_every_member_out() {
    let (mut scene, asked) = markers(&[2.0, 1.0]);
    let (t_min, t_max) = full_window();
    assert!(scene.hit(&down_the_axis(), t_min, t_max).is_some());
    scene.clear();
    assert!(scene.hit(&down_the_axis(), t_min, t_max).is_none());
    assert_eq!(asked.borrow().len(), 2);
    scene.push(Box::new(Marker { t: 9.0, asked: asked.clone() }));
    let hit = scene.hit(&down_the_axis(), t_min, t_max).expect("a hit");
    assert_eq!(number(hit.t()), 9.0);
    assert_eq!(asked.borrow().len(), 3);
}

#[test]
fn scene_can_hold_a_scene() {
    let (inner, _) = markers(&[4.0, 2.0]);
    let (mut outer, _) = markers(&[3.0]);
    outer.push(Box::new(inner));
    let (t_min, t_max) = full_window();
    let hit = outer.hit(&down_the_axis(), t_min, t_max).expect("a hit");
    assert_eq!(number(hit.t()), 2.0);
}
