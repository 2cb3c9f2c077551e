use raytrace::SCALE;
use raytrace::camera::Camera;
use raytrace::hittable_list::HittableList;
use raytrace::image::{Image, Pixel};
use raytrace::material::{Lambertian, MaterialKind};
use raytrace::sphere::Sphere;
use raytrace::vector3::Vector3;

fn single_sphere_scene() -> HittableList {
    let mut world = HittableList::new();
    world.add(Sphere::new(
        Vector3::new(0, 0, -3 * SCALE),
        SCALE,
        MaterialKind::Lambertian(Lambertian { albedo: Vector3::new(120_000, 500_000, 0) }),
    ));
    world
}

#[test]
fn camera_derives_the_image_height() {
    let cam = Camera::new(1_777_777, 1920);
    assert_eq!(cam.width(), 1920);
    assert_eq!(cam.height(), 1080);
    let square = Camera::new(SCALE, 32);
    assert_eq!(square.height(), 32);
}

#[test]
fn render_fills_the_buffer_with_colors() {
    let world = single_sphere_scene();
    let mut cam = Camera::with_params(2 * SCALE, 8, 2, 4, 3);
    let img = cam.render(&world);
    assert_eq!(img.w, 8);
    assert_eq!(img.h, 4);
    assert_eq!(img.data.len(), 32);
    for p in &img.data {
        assert!(0 <= p.x && p.x <= SCALE);
        assert!(0 <= p.y && p.y <= SCALE);
        assert!(0 <= p.z && p.z <= SCALE);
    }
}

#[test]
fn same_seed_renders_byte_identical_images() {
    let world = single_sphere_scene();
    let mut first = Camera::with_params(2 * SCALE, 4, 1, 5, 7);
    let mut second = Camera::with_params(2 * SCALE, 4, 1, 5, 7);
    let a = first.render(&world);
    let b = second.render(&world);
    assert_eq!(a.data, b.data);
    assert_eq!(a.to_rgb8(), b.to_rgb8());
    assert_eq!(a.data.len(), 8);
}

#[test]
fn different_seeds_may_differ_but_stay_in_range() {
    let world = single_sphere_scene();
    let mut cam = Camera::with_params(2 * SCALE, 4, 2, 5, 12345);
    let img = cam.render(&world);
    for p in &img.data {
        assert!(0 <= p.x && p.x <= SCALE);
        assert!(0 <= p.y && p.y <= SCALE);
        assert!(0 <= p.z && p.z <= SCALE);
    }
}

#[test]
fn render_row_matches_the_width() {
    let world = single_sphere_scene();
    let mut cam = Camera::with_params(2 * SCALE, 6, 1, 3, 2);
    let row = cam.render_row(&world, 0);
    assert_eq!(row.len(), 6);
}

#[test]
fn new_image_is_black() {
    let img = Image::new(3, 2);
    assert_eq!(img.w, 3);
    assert_eq!(img.h, 2);
    assert_eq!(img.data.len(), 6);
    for p in &img.data {
        assert_eq!(*p, Vector3::from_scalar(0));
    }
}

#[test]
fn gamma_is_the_square_root() {
    assert_eq!(Image::linear_to_gamma(0), 0);
    assert_eq!(Image::linear_to_gamma(-5), 0);
    assert_eq!(Image::linear_to_gamma(SCALE), SCALE);
    assert_eq!(Image::linear_to_gamma(250_000), 500_000);
}

#[test]
fn channel_bytes_cover_the_display_range() {
    assert_eq!(Image::channel_byte(0), 0);
    assert_eq!(Image::channel_byte(SCALE), 255);
    assert_eq!(Image::channel_byte(250_000), 127);
}

#[test]
fn rgb8_encodes_three_bytes_per_pixel() {
    let mut img = Image::new(2, 1);
    img.data[0] = Vector3::new(SCALE, 0, 250_000);
    img.data[1] = Vector3::from_scalar(0);
    let bytes = img.to_rgb8();
    assert_eq!(bytes, vec![255, 0, 127, 0, 0, 0]);
}

#[test]
fn pixel_from_packed_rgba() {
    assert_eq!(Pixel::from(0xFF000000u32), Vector3::new(SCALE, 0, 0));
    assert_eq!(Pixel::from(0x80402000u32), Vector3::new(501_960, 250_980, 125_490));
    assert_eq!(Pixel::from(0u32), Vector3::from_scalar(0));
}
