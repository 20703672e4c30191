use raytracer::fixed::SCALE;
use raytracer::hitable::HitRecord;
use raytracer::materials::dielectric::{refract, schlick, Dielectric};
use raytracer::materials::lambertian::{random_in_unit_sphere, Lambertian};
use raytracer::materials::metal::{random_point_in_unit_sphere, reflect, Metal};
use raytracer::materials::{Material, Scatterable};
use raytracer::ray::Ray;
use raytracer::vec3::Vec3;

const S: i64 = SCALE;

fn record_at(p: Vec3, normal: Vec3, material: Material) -> HitRecord {
    HitRecord { t: S, p, normal, material }
}

#[test]
fn lambertian_always_scatters_with_its_albedo() {
    let albedo = Vec3::new(800_000, 300_000, 300_000);
    let mat = Lambertian::new(albedo);
    let hit = record_at(
        Vec3::new(0, 0, -S),
        Vec3::new(0, 0, S),
        Material::Lambertian(mat),
    );
    let ray = Ray::new(Vec3::new(0, 0, 0), Vec3::new(0, 0, -S));
    for _ in 0..32 {
        let (did_scatter, scattered, attenuation) = mat.scatter(&ray, &hit);
        assert!(did_scatter);
        assert_eq!(attenuation, albedo);
        assert_eq!(*scattered.origin(), hit.p);
    }
}

#[test]
fn metal_with_zero_fuzz_reflects_exactly() {
    let albedo = Vec3::new(S, S, S);
    let mat = Metal::new(albedo, 0);
    let normal = Vec3::new(0, S, 0);
    let hit = record_at(Vec3::new(0, 0, 0), normal, Material::Metal(mat));
    let incoming = Ray::new(Vec3::new(0, S, 0), Vec3::new(0, -S, 0));
    let (did_scatter, scattered, attenuation) = mat.scatter(&incoming, &hit);
    assert!(did_scatter);
    assert_eq!(attenuation, albedo);
    assert_eq!(*scattered.direction(), Vec3::new(0, S, 0));
    // the dot product with the normal only flips its sign
    let unit_in = Vec3::unit_vector(incoming.direction());
    assert_eq!(
        Vec3::dot(scattered.direction(), &normal),
        -Vec3::dot(&unit_in, &normal),
    );
}

#[test]
fn metal_absorbs_a_ray_reflected_into_the_surface() {
    let mat = Metal::new(Vec3::new(S, S, S), 0);
    let normal = Vec3::new(0, S, 0);
    let hit = record_at(Vec3::new(0, 0, 0), normal, Material::Metal(mat));
    // incoming along the normal: the reflection points into the surface
    let incoming = Ray::new(Vec3::new(0, -S, 0), Vec3::new(0, S, 0));
    let (did_scatter, scattered, _) = mat.scatter(&incoming, &hit);
    assert!(!did_scatter);
    assert_eq!(*scattered.direction(), Vec3::new(0, -S, 0));
}

#[test]
fn metal_fuzz_is_clamped_into_the_unit_interval() {
    let m1 = Metal::new(Vec3::new(S, S, S), 3 * S);
    assert_eq!(m1.fuzz, S);
    let m2 = Metal::new(Vec3::new(S, S, S), 300_000);
    assert_eq!(m2.fuzz, 300_000);
    let m3 = Metal::new(Vec3::new(S, S, S), -S / 2);
    assert_eq!(m3.fuzz, 0);
}

#[test]
fn reflect_mirrors_across_the_normal() {
    let reflected = reflect(&Vec3::new(707_106, 0, -707_106), &Vec3::new(0, 0, S));
    assert_eq!(reflected, Vec3::new(707_106, 0, 707_106));
}

#[test]
fn dielectric_with_unit_index_refracts_straight_through() {
    let mat = Dielectric::new(S);
    let normal = Vec3::new(0, 0, S);
    let hit = record_at(Vec3::new(0, 0, -S), normal, Material::Dielectric(mat));
    let incoming = Ray::new(Vec3::new(0, 0, 0), Vec3::new(0, 0, -S));
    for _ in 0..32 {
        let (did_scatter, scattered, attenuation) = mat.scatter(&incoming, &hit);
        assert!(did_scatter);
        assert_eq!(attenuation, Vec3::new(S, S, S));
        // zero deviation: the refracted direction is the incoming unit direction
        assert_eq!(*scattered.direction(), Vec3::new(0, 0, -S));
    }
}

#[test]
fn refract_reports_total_internal_reflection() {
    // grazing exit through a dense medium: no real refraction
    let (is_refracted, _) = refract(&Vec3::new(S, -1000, 0), &Vec3::new(0, S, 0), 3 * S);
    assert!(!is_refracted);
}

#[test]
fn schlick_is_zero_head_on_with_unit_index() {
    assert_eq!(schlick(S, S), 0);
}

#[test]
fn schlick_at_glass_head_on_is_the_fresnel_constant() {
    // r0 = ((1 - 1.5) / (1 + 1.5))^2 = 0.04
    assert_eq!(schlick(S, 3 * S / 2), 40_000);
}

#[test]
fn random_points_land_inside_the_unit_sphere() {
    for _ in 0..200 {
        let p = random_in_unit_sphere();
        assert!(p.squared_length() < S);
        let q = random_point_in_unit_sphere();
        assert!(q.squared_length() < S);
    }
}

#[test]
fn material_default_is_black_lambertian() {
    let m = Material::default();
    assert_eq!(m, Material::Lambertian(Lambertian::new(Vec3::new(0, 0, 0))));
}
