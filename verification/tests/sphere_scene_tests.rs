use raytracer::fixed::SCALE;
use raytracer::hitable::{Hitable, HitableList};
use raytracer::materials::lambertian::Lambertian;
use raytracer::materials::Material;
use raytracer::ray::Ray;
use raytracer::sphere::Sphere;
use raytracer::vec3::Vec3;

const S: i64 = SCALE;
const EPS: i64 = 100;
const FAR: i64 = i64::MAX;

fn gray() -> Material {
    Material::Lambertian(Lambertian::new(Vec3::new(S / 2, S / 2, S / 2)))
}

#[test]
fn ray_at_sphere_center_hits_with_positive_t() {
    let sphere = Sphere::new(&Vec3::new(0, 0, -2 * S), S, gray());
    let ray = Ray::new(Vec3::new(0, 0, 0), Vec3::new(0, 0, -S));
    let (is_hit, rec) = sphere.hit(&ray, EPS, FAR);
    assert!(is_hit);
    assert_eq!(rec.t, S);
    assert_eq!(rec.p, Vec3::new(0, 0, -S));
    // outward normal is anti-parallel to the ray direction
    assert_eq!(rec.normal, Vec3::new(0, 0, S));
    assert_eq!(Vec3::dot(&rec.normal, ray.direction()), -S);
}

#[test]
fn ray_passing_wide_of_the_sphere_misses() {
    let sphere = Sphere::new(&Vec3::new(0, 0, -2 * S), S, gray());
    let ray = Ray::new(Vec3::new(3 * S, 0, 0), Vec3::new(0, 0, -S));
    let (is_hit, _) = sphere.hit(&ray, EPS, FAR);
    assert!(!is_hit);
}

#[test]
fn ray_leaving_the_surface_outward_reports_no_self_hit() {
    let sphere = Sphere::new(&Vec3::new(0, 0, -2 * S), S, gray());
    // origin exactly on the surface, pointed away from the center
    let ray = Ray::new(Vec3::new(0, 0, -S), Vec3::new(0, 0, S));
    let (is_hit, _) = sphere.hit(&ray, EPS, FAR);
    assert!(!is_hit);
}

#[test]
fn scene_returns_the_nearer_of_two_overlapping_spheres() {
    let near_albedo = Vec3::new(S, 0, 0);
    let far_albedo = Vec3::new(0, S, 0);
    let near = Sphere::new(
        &Vec3::new(0, 0, -2 * S),
        S,
        Material::Lambertian(Lambertian::new(near_albedo)),
    );
    let far = Sphere::new(
        &Vec3::new(0, 0, -3 * S),
        S,
        Material::Lambertian(Lambertian::new(far_albedo)),
    );
    // the farther sphere comes first in the list
    let world = HitableList::new(vec![far, near]);
    let ray = Ray::new(Vec3::new(0, 0, 0), Vec3::new(0, 0, -S));
    let (is_hit, rec) = world.hit(&ray, EPS, FAR);
    assert!(is_hit);
    assert_eq!(rec.t, S);
    assert_eq!(rec.material, Material::Lambertian(Lambertian::new(near_albedo)));
}

#[test]
fn equal_distance_hits_resolve_to_the_first_sphere() {
    let first_albedo = Vec3::new(S, 0, 0);
    let second_albedo = Vec3::new(0, S, 0);
    let center = Vec3::new(0, 0, -2 * S);
    let first = Sphere::new(&center, S, Material::Lambertian(Lambertian::new(first_albedo)));
    let second = Sphere::new(&center, S, Material::Lambertian(Lambertian::new(second_albedo)));
    let world = HitableList::new(vec![first, second]);
    let ray = Ray::new(Vec3::new(0, 0, 0), Vec3::new(0, 0, -S));
    let (is_hit, rec) = world.hit(&ray, EPS, FAR);
    assert!(is_hit);
    assert_eq!(rec.t, S);
    assert_eq!(rec.material, Material::Lambertian(Lambertian::new(first_albedo)));
}

#[test]
fn empty_scene_reports_a_miss() {
    let world = HitableList::default();
    let ray = Ray::new(Vec3::new(0, 0, 0), Vec3::new(0, 0, -S));
    let (is_hit, _) = world.hit(&ray, EPS, FAR);
    assert!(!is_hit);
}

#[test]
fn scene_restricted_window_excludes_the_only_hit() {
    let sphere = Sphere::new(&Vec3::new(0, 0, -2 * S), S, gray());
    let world = HitableList::new(vec![sphere]);
    let ray = Ray::new(Vec3::new(0, 0, 0), Vec3::new(0, 0, -S));
    // both roots (t = 1 and t = 3) lie beyond the window's end
    let (is_hit, _) = world.hit(&ray, EPS, S / 2);
    assert!(!is_hit);
}

#[test]
fn hit_record_material_getter_returns_the_material() {
    let sphere = Sphere::new(&Vec3::new(0, 0, -2 * S), S, gray());
    let ray = Ray::new(Vec3::new(0, 0, 0), Vec3::new(0, 0, -S));
    let (_, rec) = sphere.hit(&ray, EPS, FAR);
    assert_eq!(rec.material(), gray());
}
