use raytracer::camera::Camera;
use raytracer::fixed::SCALE;
use raytracer::ray::Ray;
use raytracer::vec3::Vec3;

const S: i64 = SCALE;

#[test]
fn it_points() {
    let ray = Ray::new(Vec3::new(S, S, S), Vec3::new(S, S, S));
    let pointed_vec = ray.point_at_parameter(2 * S);
    let expected_vec = Vec3::new(3 * S, 3 * S, 3 * S);
    assert_eq!(pointed_vec, expected_vec);
}

#[test]
fn ray_exposes_origin_and_direction() {
    let ray = Ray::new(Vec3::new(1, 2, 3), Vec3::new(4, 5, 6));
    assert_eq!(*ray.origin(), Vec3::new(1, 2, 3));
    assert_eq!(*ray.direction(), Vec3::new(4, 5, 6));
}

#[test]
fn camera_has_default_viewport_geometry() {
    let cam = Camera::new();
    assert_eq!(cam.lower_left_corner, Vec3::new(-2 * S, -S, -S));
    assert_eq!(cam.horizontal, Vec3::new(4 * S, 0, 0));
    assert_eq!(cam.vertical, Vec3::new(0, 2 * S, 0));
    assert_eq!(cam.origin, Vec3::new(0, 0, 0));
}

#[test]
fn camera_center_ray_points_down_the_axis() {
    let cam = Camera::new();
    let r = cam.get_ray(S / 2, S / 2);
    assert_eq!(*r.origin(), Vec3::new(0, 0, 0));
    assert_eq!(*r.direction(), Vec3::new(0, 0, -S));
}

#[test]
fn camera_corner_ray_hits_the_lower_left() {
    let cam = Camera::new();
    let r = cam.get_ray(0, 0);
    assert_eq!(*r.direction(), Vec3::new(-2 * S, -S, -S));
}
