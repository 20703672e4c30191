//! Dielectric (glass) surfaces: they absorb nothing and choose between
//! reflection and Snell refraction, weighting reflection by Schlick's
//! approximation.

use crate::fixed::{fx_add, fx_div, fx_mul, fx_neg, fx_sqrt, fx_sub, sat_add, sat_div, sat_mul,
    sat_neg, sat_sqrt, sat_sub, SCALE};
use crate::hitable::HitRecord;
use crate::materials::{spec_reflect, Scatterable};
use crate::random::random_unit;
use crate::ray::Ray;
use crate::vec3::Vec3;
use vstd::prelude::*;

verus! {

#[derive(Clone, Copy, Debug, PartialEq, Eq, Structural)]
pub struct Dielectric {
    pub refractive_index: i64,
}

impl Dielectric {
    pub fn new(refractive_index: i64) -> (m: Dielectric)
        ensures
            m == (Dielectric { refractive_index }),
    {
        Dielectric { refractive_index }
    }
}

/// Whether Snell refraction exists for this incoming vector, outward
/// normal and index ratio, and the refracted vector when it does.
pub open spec fn spec_refract(incoming: Vec3, normal: Vec3, ratio: int) -> (bool, Vec3) {
    let u = Vec3::spec_unit(incoming);
    let dt = Vec3::spec_dot(u, normal);
    let discriminant = fx_sub(
        SCALE as int,
        fx_mul(fx_mul(ratio, ratio), fx_sub(SCALE as int, fx_mul(dt, dt))),
    );
    if discriminant > 0 {
        (
            true,
            Vec3::spec_sub(
                Vec3::spec_scale(Vec3::spec_sub(u, Vec3::spec_scale(normal, dt)), ratio),
                Vec3::spec_scale(normal, fx_sqrt(discriminant)),
            ),
        )
    } else {
        (false, Vec3 { x: 0i64, y: 0i64, z: 0i64 })
    }
}

/// Schlick's reflectance approximation:
/// `r0 + (1 - r0) * (1 - cosine)^5` with `r0 = ((1 - n) / (1 + n))^2`.
pub open spec fn spec_schlick(cosine: int, refractive_index: int) -> int {
    let r0a = fx_div(fx_sub(SCALE as int, refractive_index), fx_add(SCALE as int, refractive_index));
    let r0 = fx_mul(r0a, r0a);
    let m = fx_sub(SCALE as int, cosine);
    let m5 = fx_mul(fx_mul(fx_mul(fx_mul(m, m), m), m), m);
    fx_add(r0, fx_mul(fx_sub(SCALE as int, r0), m5))
}

/// Return a vector for a vector reflected across a surface normal.
pub fn reflect(incoming: &Vec3, normal: &Vec3) -> (r: Vec3)
    ensures
        r == spec_reflect(*incoming, *normal),
{
    crate::materials::metal::reflect(incoming, normal)
}

/// Determine if an incoming vector will be refracted, and if so, the
/// refracted vector.
pub fn refract(incoming: &Vec3, normal: &Vec3, refractive_index_ratio: i64) -> (res: (bool, Vec3))
    requires
        Vec3::spec_length(*incoming) > 0,
    ensures
        res == spec_refract(*incoming, *normal, refractive_index_ratio as int),
{
    let unit = Vec3::unit_vector(incoming);
    let dt = Vec3::dot(&unit, normal);
    let rr = sat_mul(refractive_index_ratio, refractive_index_ratio);
    let discriminant = sat_sub(SCALE, sat_mul(rr, sat_sub(SCALE, sat_mul(dt, dt))));
    if discriminant > 0 {
        let refracted = unit.sub(normal.mul_scalar(dt)).mul_scalar(refractive_index_ratio).sub(
            normal.mul_scalar(sat_sqrt(discriminant)),
        );
        (true, refracted)
    } else {
        (false, Vec3::default())
    }
}

/// Schlick's approximation for the reflectivity of a surface at
/// different angles. The denominator `1 + n` must not be zero.
pub fn schlick(cosine: i64, refractive_index: i64) -> (r: i64)
    requires
        fx_add(SCALE as int, refractive_index as int) != 0,
    ensures
        r as int == spec_schlick(cosine as int, refractive_index as int),
{
    let r0a = sat_div(sat_sub(SCALE, refractive_index), sat_add(SCALE, refractive_index));
    let r0 = sat_mul(r0a, r0a);
    let m = sat_sub(SCALE, cosine);
    let m5 = sat_mul(sat_mul(sat_mul(sat_mul(m, m), m), m), m);
    sat_add(r0, sat_mul(sat_sub(SCALE, r0), m5))
}

/// Glass always scatters and absorbs nothing. The scattered ray
/// starts at the hit point and follows either the reflection of the
/// raw incoming direction or the Snell refraction of its unit
/// vector; when no refraction exists (total internal reflection) or
/// the Schlick weight is certain, the choice is determined. An
/// incoming direction whose computed length is zero cannot be
/// normalized and is absorbed.
#[verifier::opaque]
pub open spec fn dielectric_post(
    m: Dielectric,
    ray_in: Ray,
    hit: HitRecord,
    res: (bool, Ray, Vec3),
) -> bool {
    let white = Vec3 { x: 1_000_000i64, y: 1_000_000i64, z: 1_000_000i64 };
    if Vec3::spec_squared_length(ray_in.b) == 0 {
        res == (false, Ray { a: hit.p, b: ray_in.b }, white)
    } else {
        let reflected = spec_reflect(ray_in.b, hit.normal);
        let d = Vec3::spec_dot(ray_in.b, hit.normal);
        let len = Vec3::spec_length(ray_in.b);
        let outward = if d > 0 {
            Vec3::spec_neg(hit.normal)
        } else {
            hit.normal
        };
        let ratio = if d > 0 {
            m.refractive_index as int
        } else {
            fx_div(SCALE as int, m.refractive_index as int)
        };
        let cosine = if d > 0 {
            fx_div(fx_mul(m.refractive_index as int, d), len)
        } else {
            fx_div(fx_neg(d), len)
        };
        let refr = spec_refract(ray_in.b, outward, ratio);
        &&& res.0 == true
        &&& res.2 == white
        &&& res.1.a == hit.p
        &&& (if refr.0 {
            res.1.b == reflected || res.1.b == refr.1
        } else {
            res.1.b == reflected
        })
        &&& (refr.0 && spec_schlick(cosine, m.refractive_index as int) <= 0 ==> res.1.b
            == refr.1)
    }
}

impl Scatterable for Dielectric {
    /// Refraction divides by the index, so it must be positive.
    open spec fn scatter_wf(&self) -> bool {
        self.refractive_index > 0
    }

    open spec fn scatter_post(&self, ray_in: Ray, hit: HitRecord, res: (bool, Ray, Vec3)) -> bool {
        dielectric_post(*self, ray_in, hit, res)
    }

    fn scatter(&self, ray_in: &Ray, hit_record: &HitRecord) -> (res: (bool, Ray, Vec3)) {
        let attenuation = Vec3::new(SCALE, SCALE, SCALE);
        let dir = *ray_in.direction();
        let sq = dir.squared_length();
        proof {
            crate::vec3::lemma_length_sign(dir);
        }
        if sq == 0 {
            let out = (false, Ray::new(hit_record.p, dir), attenuation);
            proof {
                reveal(dielectric_post);
                assert(dielectric_post(*self, *ray_in, *hit_record, out));
            }
            return out;
        }
        let reflected = reflect(&dir, &hit_record.normal);
        let d = Vec3::dot(&dir, &hit_record.normal);
        let len = dir.length();
        let outward_normal: Vec3;
        let refractive_index_ratio: i64;
        let cosine: i64;
        if d > 0 {
            outward_normal = hit_record.normal.neg();
            refractive_index_ratio = self.refractive_index;
            cosine = sat_div(sat_mul(self.refractive_index, d), len);
        } else {
            outward_normal = hit_record.normal;
            refractive_index_ratio = sat_div(SCALE, self.refractive_index);
            cosine = sat_div(sat_neg(d), len);
        }
        let (is_refracted, refracted_vector) = refract(
            &dir,
            &outward_normal,
            refractive_index_ratio,
        );
        let reflect_probability: i64 = if is_refracted {
            schlick(cosine, self.refractive_index)
        } else {
            SCALE
        };
        let rnd = random_unit();
        let scattered: Ray = if rnd < reflect_probability {
            Ray::new(hit_record.p, reflected)
        } else {
            Ray::new(hit_record.p, refracted_vector)
        };
        let out = (true, scattered, attenuation);
        proof {
            reveal(dielectric_post);
            assert(dielectric_post(*self, *ray_in, *hit_record, out));
        }
        out
    }
}

} // verus!
