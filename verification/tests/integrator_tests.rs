use raytracer::camera::Camera;
use raytracer::fixed::SCALE;
use raytracer::hitable::HitableList;
use raytracer::integrator::{channel, color, render, RADIANCE_BOUND};
use raytracer::materials::lambertian::Lambertian;
use raytracer::materials::Material;
use raytracer::ray::Ray;
use raytracer::sphere::Sphere;
use raytracer::vec3::Vec3;

const S: i64 = SCALE;

fn one_sphere_world() -> HitableList {
    HitableList::new(vec![Sphere::new(
        &Vec3::new(0, 0, -2 * S),
        S,
        Material::Lambertian(Lambertian::new(Vec3::new(800_000, 300_000, 300_000))),
    )])
}

#[test]
fn color_at_the_depth_limit_is_black() {
    let world = one_sphere_world();
    let ray = Ray::new(Vec3::new(0, 0, 0), Vec3::new(0, 0, -S));
    // the lambertian would always scatter, but the recursion cap wins
    assert_eq!(color(&ray, &world, 50), Vec3::new(0, 0, 0));
    assert_eq!(color(&ray, &world, 51), Vec3::new(0, 0, 0));
}

#[test]
fn color_of_a_miss_is_the_sky_gradient() {
    let world = HitableList::default();
    let ray = Ray::new(Vec3::new(0, 0, 0), Vec3::new(0, 0, -S));
    // horizontal direction: halfway between white and sky blue
    assert_eq!(color(&ray, &world, 0), Vec3::new(750_000, 850_000, S));
}

#[test]
fn radiance_of_a_lit_path_stays_bounded() {
    // the scene's albedos lie in [0, 1], so no estimate outgrows the bound
    let world = one_sphere_world();
    let ray = Ray::new(Vec3::new(0, 0, 0), Vec3::new(0, 0, -S));
    for _ in 0..16 {
        let c = color(&ray, &world, 0);
        for ch in [c.x(), c.y(), c.z()] {
            assert!((0..=RADIANCE_BOUND).contains(&ch));
        }
    }
}

#[test]
fn channel_quantizes_with_gamma_correction() {
    // sqrt(0.25) = 0.5, and 0.5 * 255.99 truncates to 127
    assert_eq!(channel(S / 4), 127);
    assert_eq!(channel(S), 255);
    assert_eq!(channel(0), 0);
    // negative radiance reads as black
    assert_eq!(channel(-5 * S), 0);
    // overbright radiance is capped
    assert_eq!(channel(4 * S), 255);
}

#[test]
fn empty_scene_render_is_the_sky_gradient_image() {
    let world = HitableList::default();
    let cam = Camera::new();
    let pixels = render(&world, &cam, 2, 2, 1, false);
    assert_eq!(
        pixels,
        vec![
            221, 236, 255, // top row, left: direction (-2, 0, -1)
            221, 236, 255, // top row, right: direction (0, 0, -1)
            236, 244, 255, // bottom row, left: direction (-2, -1, -1)
            246, 250, 255, // bottom row, right: direction (0, -1, -1)
        ],
    );
}

#[test]
fn render_emits_three_bytes_per_pixel() {
    let world = one_sphere_world();
    let cam = Camera::new();
    let pixels = render(&world, &cam, 3, 2, 2, true);
    assert_eq!(pixels.len(), 18);
}

#[test]
fn jittered_empty_render_still_shades_sky_on_every_pixel() {
    let world = HitableList::default();
    let cam = Camera::new();
    let pixels = render(&world, &cam, 4, 4, 3, true);
    assert_eq!(pixels.len(), 48);
    // every sky sample is at least as bright as the darkest gradient end
    for chunk in pixels.chunks(3) {
        assert!(chunk[0] >= 180);
        assert!(chunk[1] >= 200);
        assert_eq!(chunk[2], 255);
    }
}
