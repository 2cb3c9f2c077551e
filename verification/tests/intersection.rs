use raytrace::SCALE;
use raytrace::hittable::{Hittable, T_INF};
use raytrace::hittable_list::HittableList;
use raytrace::material::{Lambertian, MaterialKind};
use raytrace::ray::Ray;
use raytrace::sphere::Sphere;
use raytrace::vector3::Vector3;

fn gray() -> MaterialKind {
    MaterialKind::Lambertian(Lambertian { albedo: Vector3::from_scalar(500_000) })
}

fn forward_ray() -> Ray {
    Ray::new(Vector3::from_scalar(0), Vector3::new(0, 0, -SCALE))
}

#[test]
fn sphere_dead_ahead_hits_at_four() {
    let s = Sphere::new(Vector3::new(0, 0, -5 * SCALE), SCALE, gray());
    let info = s.hit(&forward_ray(), 0, T_INF).expect("the ray points at the sphere");
    assert_eq!(info.t, 4 * SCALE);
    assert_eq!(info.normal, Vector3::new(0, 0, SCALE));
    assert!(info.front);
    assert_eq!(info.point, Vector3::new(0, 0, -4 * SCALE));
}

#[test]
fn sphere_far_off_axis_misses() {
    let s = Sphere::new(Vector3::new(5 * SCALE, 5 * SCALE, 5 * SCALE), SCALE / 10, gray());
    assert!(s.hit(&forward_ray(), 0, T_INF).is_none());
}

#[test]
fn hit_respects_the_open_interval() {
    let s = Sphere::new(Vector3::new(0, 0, -5 * SCALE), SCALE, gray());
    // The nearer root (t = 4) is outside (4, 7): the farther root (t = 6) wins.
    let info = s.hit(&forward_ray(), 4 * SCALE, 7 * SCALE).expect("the far side qualifies");
    assert_eq!(info.t, 6 * SCALE);
    assert!(!info.front);
    assert_eq!(info.normal, Vector3::new(0, 0, SCALE));
    // Neither root lies inside (4, 5).
    assert!(s.hit(&forward_ray(), 4 * SCALE, 5 * SCALE).is_none());
}

#[test]
fn inside_hit_flips_the_normal() {
    // From the center of a sphere the normal must point back at the origin.
    let s = Sphere::new(Vector3::new(0, 0, -SCALE), SCALE, gray());
    let r = Ray::new(Vector3::new(0, 0, -SCALE), Vector3::new(0, 0, -SCALE));
    let info = s.hit(&r, 0, T_INF).expect("leaving through the far wall");
    assert_eq!(info.t, SCALE);
    assert!(!info.front);
    assert_eq!(info.normal, Vector3::new(0, 0, SCALE));
}

#[test]
fn scene_returns_nearest_hit_in_both_orders() {
    let near = Sphere::new(Vector3::new(0, 0, -4 * SCALE), SCALE, gray());
    let far = Sphere::new(Vector3::new(0, 0, -5 * SCALE), SCALE, gray());

    let mut a = HittableList::new();
    a.add(far);
    a.add(near);
    let mut b = HittableList::new();
    b.add(near);
    b.add(far);

    let ha = a.hit(&forward_ray(), 0, T_INF).expect("overlapping spheres ahead");
    let hb = b.hit(&forward_ray(), 0, T_INF).expect("overlapping spheres ahead");
    assert_eq!(ha.t, 3 * SCALE);
    assert_eq!(ha, hb);
}

#[test]
fn empty_scene_misses() {
    let list = HittableList::new();
    assert!(list.hit(&forward_ray(), 0, T_INF).is_none());
}

#[test]
fn clear_empties_the_scene() {
    let mut list = HittableList::new();
    list.add(Sphere::new(Vector3::new(0, 0, -5 * SCALE), SCALE, gray()));
    assert!(list.hit(&forward_ray(), 0, T_INF).is_some());
    list.clear();
    assert!(list.hit(&forward_ray(), 0, T_INF).is_none());
}

#[test]
fn set_front_orients_against_the_ray() {
    let mut info = raytrace::hittable::HitInfo {
        point: Vector3::from_scalar(0),
        normal: Vector3::from_scalar(0),
        t: 0,
        front: false,
        material: gray(),
    };
    let outward = Vector3::new(0, 0, SCALE);
    info.set_front(&forward_ray(), outward);
    assert!(info.front);
    assert_eq!(info.normal, outward);
    let away = Ray::new(Vector3::from_scalar(0), Vector3::new(0, 0, SCALE));
    info.set_front(&away, outward);
    assert!(!info.front);
    assert_eq!(info.normal, outward.neg());
}
