use raytracer::fixed::SCALE;
use raytracer::vec3::Vec3;

const S: i64 = SCALE;

#[test]
fn it_adds() {
    let vec1 = Vec3::new(S, S, S);
    let vec2 = Vec3::new(S, S, S);
    let vec3 = vec1.add(vec2);
    assert_eq!(vec3, Vec3::new(2 * S, 2 * S, 2 * S));
}

#[test]
fn it_muls() {
    let vec = Vec3::new(S, S, S);
    let vec2 = vec.mul_scalar(2 * S);
    assert_eq!(vec2, Vec3::new(2 * S, 2 * S, 2 * S));
}

#[test]
fn it_add_assigns() {
    let mut vec3 = Vec3::new(S, S, S);
    vec3.add_assign(Vec3::new(S, S, S));
    assert_eq!(vec3, Vec3::new(2 * S, 2 * S, 2 * S));
}

#[test]
fn it_sub_assigns() {
    let mut vec3 = Vec3::new(S, S, S);
    vec3.sub_assign(Vec3::new(S, S, S));
    assert_eq!(vec3, Vec3::new(0, 0, 0));
}

#[test]
fn add_then_sub_gives_back_first_addend() {
    let a = Vec3::new(123_456, -9 * S, 31 * S + 7);
    let b = Vec3::new(-5 * S, 250_000, 999_999);
    assert_eq!(a.add(b).sub(b), a);
}

#[test]
fn dot_with_self_is_squared_length() {
    let v = Vec3::new(3 * S / 2, -2 * S, 750_000);
    assert_eq!(Vec3::dot(&v, &v), v.squared_length());
}

#[test]
fn unit_vector_has_unit_length_within_tolerance() {
    let v = Vec3::new(S, 2 * S, 2 * S);
    let u = Vec3::unit_vector(&v);
    assert_eq!(u, Vec3::new(333_333, 666_666, 666_666));
    let sq = u.squared_length();
    assert!((sq - S).abs() < 100, "squared length of unit vector was {sq}");

    let w = Vec3::new(-717, 42_000, 5 * S);
    let uw = Vec3::unit_vector(&w);
    let sqw = uw.squared_length();
    assert!((sqw - S).abs() < 100, "squared length of unit vector was {sqw}");
}

#[test]
fn make_unit_vector_normalizes_in_place() {
    let mut v = Vec3::new(S, 2 * S, 2 * S);
    v.make_unit_vector();
    assert_eq!(v, Vec3::new(333_333, 666_666, 666_666));
}

#[test]
fn length_of_pythagorean_triple() {
    let v = Vec3::new(3 * S, 4 * S, 0);
    assert_eq!(v.length(), 5 * S);
    assert_eq!(v.squared_length(), 25 * S);
}

#[test]
fn accessors_and_color_aliases_agree() {
    let v = Vec3::new(1, 2, 3);
    assert_eq!((v.x(), v.y(), v.z()), (1, 2, 3));
    assert_eq!((v.r(), v.g(), v.b()), (1, 2, 3));
    assert_eq!((v.index(0), v.index(1), v.index(2)), (1, 2, 3));
}

#[test]
fn componentwise_product_and_negation() {
    let a = Vec3::new(S, 2 * S, -3 * S);
    let b = Vec3::new(S / 2, S / 2, S);
    assert_eq!(a.mul(b), Vec3::new(S / 2, S, -3 * S));
    assert_eq!(a.neg(), Vec3::new(-S, -2 * S, 3 * S));
}

#[test]
fn scalar_division_truncates_toward_zero() {
    let a = Vec3::new(S, -S, 5);
    assert_eq!(a.div_scalar(3 * S), Vec3::new(333_333, -333_333, 1));
}

#[test]
fn div_assign_scales_by_reciprocal() {
    let mut a = Vec3::new(3 * S, -6 * S, 0);
    a.div_assign(3 * S);
    // the reciprocal of three is truncated to 0.333333
    assert_eq!(a, Vec3::new(999_999, -1_999_998, 0));
}

#[test]
fn default_is_zero_vector() {
    assert_eq!(Vec3::default(), Vec3::new(0, 0, 0));
}
