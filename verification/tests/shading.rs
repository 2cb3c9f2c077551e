use raytrace::SCALE;
use raytrace::camera::Camera;
use raytrace::hittable::{HitInfo, Hittable, T_INF};
use raytrace::hittable_list::HittableList;
use raytrace::material::{Lambertian, Material, MaterialKind, Metal};
use raytrace::ray::Ray;
use raytrace::rng::rng_with_seed;
use raytrace::sphere::Sphere;
use raytrace::vector3::Vector3;

fn dead_on_hit(material: MaterialKind) -> (Ray, HitInfo) {
    let ray = Ray::new(Vector3::from_scalar(0), Vector3::new(0, 0, -SCALE));
    let sphere = Sphere::new(Vector3::new(0, 0, -3 * SCALE), SCALE, material);
    let info = sphere.hit(&ray, 0, T_INF).expect("the ray points at the sphere");
    (ray, info)
}

#[test]
fn lambertian_never_absorbs() {
    let albedo = Vector3::new(800_000, 700_000, 600_000);
    let mat = MaterialKind::Lambertian(Lambertian { albedo });
    let (ray, info) = dead_on_hit(mat);
    let mut rng = rng_with_seed(21);
    for _ in 0..50 {
        let rand_unit = Vector3::random_unit(&mut rng);
        let (attenuation, scattered) =
            mat.scatter(&ray, &info, rand_unit).expect("a diffuse surface always scatters");
        assert_eq!(attenuation, albedo);
        assert_eq!(scattered.origin, info.point);
    }
}

#[test]
fn lambertian_degenerate_sum_falls_back_to_the_normal() {
    let mat = MaterialKind::Lambertian(Lambertian { albedo: Vector3::from_scalar(500_000) });
    let (ray, info) = dead_on_hit(mat);
    // The random unit vector exactly cancels the normal.
    let rand_unit = info.normal.neg();
    let (_, scattered) = mat.scatter(&ray, &info, rand_unit).expect("still scatters");
    assert_eq!(scattered.direction, info.normal);
}

#[test]
fn metal_mirrors_a_dead_on_ray() {
    let albedo = Vector3::from_scalar(900_000);
    let mat = MaterialKind::Metal(Metal { albedo, fuzz: 0 });
    let (ray, info) = dead_on_hit(mat);
    let rand_unit = Vector3::new(0, 0, SCALE);
    let (attenuation, scattered) =
        mat.scatter(&ray, &info, rand_unit).expect("a frontal reflection leaves the surface");
    assert_eq!(attenuation, albedo);
    assert_eq!(scattered.direction, ray.direction.neg());
    assert_eq!(scattered.origin, info.point);
}

#[test]
fn metal_absorbs_a_grazing_ray() {
    let mat = MaterialKind::Metal(Metal { albedo: Vector3::from_scalar(900_000), fuzz: 0 });
    let ray = Ray::new(Vector3::from_scalar(0), Vector3::new(SCALE, 0, 0));
    let info = HitInfo {
        point: Vector3::from_scalar(0),
        normal: Vector3::new(0, SCALE, 0),
        t: SCALE,
        front: true,
        material: mat,
    };
    let rand_unit = Vector3::new(0, 0, SCALE);
    assert!(mat.scatter(&ray, &info, rand_unit).is_none());
}

#[test]
fn depth_zero_is_black_whatever_the_scene() {
    let mut world = HittableList::new();
    world.add(Sphere::new(
        Vector3::new(0, 0, -3 * SCALE),
        SCALE,
        MaterialKind::Lambertian(Lambertian { albedo: Vector3::from_scalar(500_000) }),
    ));
    let ray = Ray::new(Vector3::from_scalar(0), Vector3::new(0, 0, -SCALE));
    let mut rng = rng_with_seed(1);
    let c = Camera::ray_color(&ray, 0, &world, &mut rng);
    assert_eq!(c, Vector3::from_scalar(0));
}

#[test]
fn miss_returns_the_exact_background_gradient() {
    let world = HittableList::new();
    let mut rng = rng_with_seed(1);
    let up = Ray::new(Vector3::from_scalar(0), Vector3::new(0, SCALE, 0));
    assert_eq!(
        Camera::ray_color(&up, 4, &world, &mut rng),
        Vector3::new(500_000, 700_000, SCALE),
    );
    let down = Ray::new(Vector3::from_scalar(0), Vector3::new(0, -SCALE, 0));
    assert_eq!(Camera::ray_color(&down, 4, &world, &mut rng), Vector3::from_scalar(SCALE));
}

#[test]
fn background_halfway_blends_evenly() {
    // A horizontal ray: unit y = 0, so the blend parameter is one half.
    let level = Ray::new(Vector3::from_scalar(0), Vector3::new(SCALE, 0, 0));
    let c = Camera::background(&level);
    assert_eq!(c, Vector3::new(750_000, 850_000, SCALE));
}

#[test]
fn bounce_attenuates_by_the_albedo() {
    // One bounce against a diffuse floor: whatever the bounced ray returns,
    // every channel is cut at least in half by the half-gray albedo.
    let mut world = HittableList::new();
    world.add(Sphere::new(
        Vector3::new(0, 0, -3 * SCALE),
        SCALE,
        MaterialKind::Lambertian(Lambertian { albedo: Vector3::from_scalar(500_000) }),
    ));
    let ray = Ray::new(Vector3::from_scalar(0), Vector3::new(0, 0, -SCALE));
    let mut rng = rng_with_seed(33);
    for _ in 0..20 {
        let c = Camera::ray_color(&ray, 3, &world, &mut rng);
        assert!(0 <= c.x && c.x <= 500_000);
        assert!(0 <= c.y && c.y <= 500_000);
        assert!(0 <= c.z && c.z <= 500_000);
    }
}
