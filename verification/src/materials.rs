//! Materials: the closed set of surface kinds and their scattering rules.

pub mod dielectric;
pub mod lambertian;
pub mod metal;

use crate::fixed::SCALE;
use crate::hitable::HitRecord;
use crate::ray::Ray;
use crate::vec3::Vec3;
use dielectric::Dielectric;
use lambertian::Lambertian;
use metal::Metal;
use vstd::prelude::*;

verus! {

/// A point strictly inside the unit sphere.
pub open spec fn in_unit_sphere(p: Vec3) -> bool {
    Vec3::spec_squared_length(p) < SCALE
}

/// Mirror reflection about a surface normal:
/// `incoming - normal * 2 * dot(incoming, normal)`.
pub open spec fn spec_reflect(incoming: Vec3, normal: Vec3) -> Vec3 {
    Vec3::spec_sub(
        incoming,
        Vec3::spec_scale(
            Vec3::spec_scale(normal, 2 * SCALE as int),
            Vec3::spec_dot(incoming, normal),
        ),
    )
}

/// The common capability of every material: given an incoming ray and a
/// hit record, decide whether light continues, and if so along which ray
/// and with which attenuation.
pub trait Scatterable {
    /// What the material needs of its own parameters before it can
    /// scatter (a dielectric needs a positive refractive index).
    spec fn scatter_wf(&self) -> bool;

    /// Exactly what `scatter` may return; the random draws inside are
    /// existentially quantified.
    spec fn scatter_post(&self, ray_in: Ray, hit: HitRecord, res: (bool, Ray, Vec3)) -> bool;

    fn scatter(&self, ray_in: &Ray, hit_record: &HitRecord) -> (res: (bool, Ray, Vec3))
        requires
            self.scatter_wf(),
        ensures
            self.scatter_post(*ray_in, *hit_record, res),
    ;
}

#[derive(Clone, Copy, Debug, PartialEq, Eq, Structural)]
pub enum Material {
    Lambertian(Lambertian),
    Metal(Metal),
    Dielectric(Dielectric),
}

/// A color whose components all lie in [0, 1].
pub open spec fn in_unit_color(c: Vec3) -> bool {
    &&& 0 <= c.x <= SCALE
    &&& 0 <= c.y <= SCALE
    &&& 0 <= c.z <= SCALE
}

impl Material {
    /// The default material: a black diffuse surface.
    pub open spec fn spec_default() -> Material {
        Material::Lambertian(Lambertian { albedo: Vec3 { x: 0i64, y: 0i64, z: 0i64 } })
    }

    /// Every attenuation this material can hand out lies in [0, 1]
    /// componentwise (glass attenuates by exactly one).
    pub open spec fn albedo_in_unit(self) -> bool {
        match self {
            Material::Lambertian(inner) => in_unit_color(inner.albedo),
            Material::Metal(inner) => in_unit_color(inner.albedo),
            Material::Dielectric(inner) => true,
        }
    }
}

/// A material whose albedo lies in [0, 1] only ever attenuates: every
/// scatter outcome it admits carries an attenuation in [0, 1].
pub proof fn lemma_scatter_attenuation_in_unit(
    m: Material,
    r: Ray,
    hit: HitRecord,
    res: (bool, Ray, Vec3),
)
    requires
        m.scatter_post(r, hit, res),
        m.albedo_in_unit(),
    ensures
        in_unit_color(res.2),
{
    match m {
        Material::Lambertian(inner) => {
            reveal(crate::materials::lambertian::lambertian_post);
        },
        Material::Metal(inner) => {
            reveal(crate::materials::metal::metal_post);
        },
        Material::Dielectric(inner) => {
            reveal(crate::materials::dielectric::dielectric_post);
        },
    }
}

impl Default for Material {
    fn default() -> (m: Material)
        ensures
            m == Material::spec_default(),
    {
        Material::Lambertian(Lambertian::default())
    }
}

impl Scatterable for Material {
    open spec fn scatter_wf(&self) -> bool {
        match *self {
            Material::Lambertian(inner) => inner.scatter_wf(),
            Material::Metal(inner) => inner.scatter_wf(),
            Material::Dielectric(inner) => inner.scatter_wf(),
        }
    }

    open spec fn scatter_post(&self, ray_in: Ray, hit: HitRecord, res: (bool, Ray, Vec3)) -> bool {
        match *self {
            Material::Lambertian(inner) => inner.scatter_post(ray_in, hit, res),
            Material::Metal(inner) => inner.scatter_post(ray_in, hit, res),
            Material::Dielectric(inner) => inner.scatter_post(ray_in, hit, res),
        }
    }

    fn scatter(&self, ray_in: &Ray, hit_record: &HitRecord) -> (res: (bool, Ray, Vec3)) {
        match *self {
            Material::Lambertian(inner) => inner.scatter(ray_in, hit_record),
            Material::Metal(inner) => inner.scatter(ray_in, hit_record),
            Material::Dielectric(inner) => inner.scatter(ray_in, hit_record),
        }
    }
}

} // verus!
