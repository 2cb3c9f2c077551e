use raytrace::SCALE;
use raytrace::rng::rng_with_seed;
use raytrace::vector3::{UNIT_LIM, Vector3};

#[test]
fn new_and_from_scalar() {
    let v = Vector3::new(1, 2, 3);
    assert_eq!((v.x, v.y, v.z), (1, 2, 3));
    let s = Vector3::from_scalar(7);
    assert_eq!(s, Vector3::new(7, 7, 7));
}

#[test]
fn add_commutes_on_values() {
    let a = Vector3::new(1_000_000, 2_000_000, 3_000_000);
    let b = Vector3::new(4_000_000, 5_000_000, 6_000_000);
    assert_eq!(a.add(b), Vector3::new(5_000_000, 7_000_000, 9_000_000));
    assert_eq!(a.add(b), b.add(a));
}

#[test]
fn add_associates_on_values() {
    let a = Vector3::new(1_000_000, -2_000_000, 3_000_000);
    let b = Vector3::new(-4_000_000, 5_000_000, 6_000_000);
    let c = Vector3::new(7_000_000, 8_000_000, -9_000_000);
    assert_eq!(a.add(b).add(c), a.add(b.add(c)));
}

#[test]
fn sub_and_neg() {
    let a = Vector3::new(5_000_000, 1_000_000, 0);
    let b = Vector3::new(2_000_000, 4_000_000, -1_000_000);
    assert_eq!(a.sub(b), Vector3::new(3_000_000, -3_000_000, 1_000_000));
    assert_eq!(a.neg(), Vector3::new(-5_000_000, -1_000_000, 0));
}

#[test]
fn componentwise_mul_quarters() {
    let half = Vector3::from_scalar(500_000);
    assert_eq!(half.mul(half), Vector3::from_scalar(250_000));
}

#[test]
fn scale_and_div_scalar() {
    let a = Vector3::new(1_000_000, 2_000_000, 3_000_000);
    assert_eq!(a.scale(500_000), Vector3::new(500_000, 1_000_000, 1_500_000));
    assert_eq!(a.div_scalar(2_000_000), Vector3::new(500_000, 1_000_000, 1_500_000));
}

#[test]
fn dot_exact_value_and_symmetry() {
    let a = Vector3::new(1_000_000, 2_000_000, 3_000_000);
    let b = Vector3::new(4_000_000, 5_000_000, 6_000_000);
    assert_eq!(a.dot(b), 32_000_000);
    assert_eq!(a.dot(b), b.dot(a));
}

#[test]
fn cross_exact_value_and_antisymmetry() {
    let x = Vector3::new(SCALE, 0, 0);
    let y = Vector3::new(0, SCALE, 0);
    assert_eq!(x.cross(y), Vector3::new(0, 0, SCALE));
    let a = Vector3::new(1_000_000, -2_500_000, 3_000_000);
    let b = Vector3::new(-4_000_000, 5_000_000, 750_000);
    assert_eq!(a.cross(b), b.cross(a).neg());
}

#[test]
fn len_of_three_four_zero_is_five() {
    let a = Vector3::new(3_000_000, 4_000_000, 0);
    assert_eq!(a.sq_len(), 25_000_000);
    assert_eq!(a.len(), 5_000_000);
}

#[test]
fn unit_vector_has_unit_length() {
    let a = Vector3::new(3_000_000, 4_000_000, 0);
    let u = a.unit();
    assert_eq!(u, Vector3::new(600_000, 800_000, 0));
    assert_eq!(u.len(), SCALE);
    let b = Vector3::new(0, 0, 123_000);
    assert_eq!(b.unit().len(), SCALE);
}

#[test]
fn unit_length_stays_within_tolerance() {
    let samples = [
        Vector3::new(1_234_567, 2_345_678, 3_456_789),
        Vector3::new(-999_999, 1, 1_000_001),
        Vector3::new(7_070_707, -7_070_707, 0),
        Vector3::new(0, 0, 1_000_000_000_000),
    ];
    for a in samples {
        let len = a.unit().len();
        assert!(SCALE - 6 <= len && len <= SCALE + 2, "length {} out of tolerance", len);
    }
}

#[test]
fn near_zero_threshold() {
    assert!(Vector3::new(50, -99, 0).near_zero());
    assert!(!Vector3::new(100, 0, 0).near_zero());
}

#[test]
fn reflect_about_axis() {
    let d = Vector3::new(1_000_000, -1_000_000, 0);
    let n = Vector3::new(0, 1_000_000, 0);
    assert_eq!(d.reflect(&n), Vector3::new(1_000_000, 1_000_000, 0));
}

#[test]
fn random_components_stay_in_range() {
    let mut rng = rng_with_seed(11);
    for _ in 0..50 {
        let v = Vector3::random(&mut rng);
        assert!(0 <= v.x && v.x < SCALE);
        assert!(0 <= v.y && v.y < SCALE);
        assert!(0 <= v.z && v.z < SCALE);
        let w = Vector3::random_range(&mut rng, -250_000, 750_000);
        assert!(-250_000 <= w.x && w.x <= 750_000);
        assert!(-250_000 <= w.y && w.y <= 750_000);
        assert!(-250_000 <= w.z && w.z <= 750_000);
    }
}

#[test]
fn random_in_unit_sphere_stays_inside() {
    let mut rng = rng_with_seed(5);
    for _ in 0..50 {
        let p = Vector3::random_in_unit_sphere(&mut rng);
        assert!(p.sq_len() < SCALE);
    }
}

#[test]
fn random_unit_is_bounded_and_nearly_normalized() {
    let mut rng = rng_with_seed(3);
    for _ in 0..50 {
        let u = Vector3::random_unit(&mut rng);
        assert!(u.x.abs() <= UNIT_LIM && u.y.abs() <= UNIT_LIM && u.z.abs() <= UNIT_LIM);
        let err = (u.sq_len() - SCALE).abs();
        assert!(err <= 50_000, "squared length {} strays too far", u.sq_len());
    }
}

#[test]
fn hemisphere_samples_agree_with_normal() {
    let mut rng = rng_with_seed(9);
    let n = Vector3::new(0, SCALE, 0);
    for _ in 0..50 {
        let u = Vector3::random_on_hemisphere(&mut rng, &n);
        assert!(u.dot(n) >= 0);
    }
}

#[test]
fn ray_at_walks_the_direction() {
    let r = raytrace::ray::Ray::new(
        Vector3::new(1_000_000, 2_000_000, 3_000_000),
        Vector3::new(0, 0, -1_000_000),
    );
    assert_eq!(r.at(4_000_000), Vector3::new(1_000_000, 2_000_000, -1_000_000));
}
