//! Specular surfaces: mirror reflection, perturbed by a fuzz radius.

use crate::fixed::SCALE;
use crate::hitable::HitRecord;
use crate::materials::{in_unit_sphere, spec_reflect, Scatterable};
use crate::random::random_unit;
use crate::ray::Ray;
use crate::vec3::Vec3;
use vstd::prelude::*;

verus! {

#[derive(Clone, Copy, Debug, PartialEq, Eq, Structural)]
pub struct Metal {
    pub albedo: Vec3,
    pub fuzz: i64,
}

impl Metal {
    /// The fuzz radius is clamped into [0, 1] at construction.
    pub fn new(albedo: Vec3, f: i64) -> (m: Metal)
        ensures
            m.albedo == albedo,
            m.fuzz == (if f < 0 {
                0
            } else if f < SCALE {
                f
            } else {
                SCALE
            }),
            0 <= m.fuzz <= SCALE,
    {
        let fuzz: i64 = if f < 0 {
            0
        } else if f < SCALE {
            f
        } else {
            SCALE
        };
        Metal { albedo, fuzz }
    }
}

/// Return a vector for a vector reflected across a surface normal.
pub fn reflect(incoming: &Vec3, normal: &Vec3) -> (r: Vec3)
    ensures
        r == spec_reflect(*incoming, *normal),
{
    let d = Vec3::dot(incoming, normal);
    incoming.sub(normal.mul_scalar(2 * SCALE).mul_scalar(d))
}

/// The scattered direction: the reflection offset by a fuzz-scaled
/// point of the unit sphere.
pub open spec fn metal_dir(reflected: Vec3, s: Vec3, fuzz: int) -> Vec3 {
    Vec3::spec_add(reflected, Vec3::spec_scale(s, fuzz))
}

/// Rays are scattered only when the fuzzed reflection leaves the
/// surface on the outward side, that is when the dot product of the
/// scattered direction and the surface normal is positive. An
/// incoming direction whose computed length is zero cannot be
/// normalized and is absorbed.
#[verifier::opaque]
pub open spec fn metal_post(m: Metal, ray_in: Ray, hit: HitRecord, res: (bool, Ray, Vec3)) -> bool {
    if Vec3::spec_squared_length(ray_in.b) == 0 {
        res == (false, Ray { a: hit.p, b: ray_in.b }, m.albedo)
    } else {
        let reflected = spec_reflect(Vec3::spec_unit(ray_in.b), hit.normal);
        &&& res.2 == m.albedo
        &&& res.1.a == hit.p
        &&& exists|s: Vec3|
            in_unit_sphere(s) && res.1.b == #[trigger] metal_dir(reflected, s, m.fuzz as int)
                && res.0 == (Vec3::spec_dot(res.1.b, hit.normal) > 0)
        &&& (m.fuzz == 0 ==> res.1.b == reflected)
    }
}

impl Scatterable for Metal {
    open spec fn scatter_wf(&self) -> bool {
        true
    }

    open spec fn scatter_post(&self, ray_in: Ray, hit: HitRecord, res: (bool, Ray, Vec3)) -> bool {
        metal_post(*self, ray_in, hit, res)
    }

    fn scatter(&self, ray_in: &Ray, hit_record: &HitRecord) -> (res: (bool, Ray, Vec3)) {
        let dir = *ray_in.direction();
        let sq = dir.squared_length();
        proof {
            crate::vec3::lemma_length_sign(dir);
        }
        if sq == 0 {
            let out = (false, Ray::new(hit_record.p, dir), self.albedo);
            proof {
                reveal(metal_post);
                assert(metal_post(*self, *ray_in, *hit_record, out));
            }
            return out;
        }
        let unit = Vec3::unit_vector(&dir);
        let reflected = reflect(&unit, &hit_record.normal);
        let s = random_point_in_unit_sphere();
        let scat_dir = reflected.add(s.mul_scalar(self.fuzz));
        let scattered = Ray::new(hit_record.p, scat_dir);
        let d = Vec3::dot(scattered.direction(), &hit_record.normal);
        let out = (d > 0, scattered, self.albedo);
        proof {
            reveal(metal_post);
            assert(scat_dir == metal_dir(reflected, s, self.fuzz as int));
            if self.fuzz == 0 {
                crate::vec3::lemma_scale_zero(s);
                crate::vec3::lemma_add_zero(reflected);
            }
            assert(metal_post(*self, *ray_in, *hit_record, out));
        }
        out
    }
}

/// A pseudo-random point strictly inside the unit sphere, found by
/// rejection sampling over the cube with corners (-1,-1,-1) and (1,1,1).
/// The draw lands inside the sphere better than half the time, so the
/// bounded number of attempts is no practical limit; if every attempt
/// were rejected the center would be returned.
pub fn random_point_in_unit_sphere() -> (p: Vec3)
    ensures
        in_unit_sphere(p),
{
    let mut i: u32 = 0;
    while i < 64
        invariant
            true,
        decreases 64 - i,
    {
        let px: i64 = 2 * random_unit() - SCALE;
        let py: i64 = 2 * random_unit() - SCALE;
        let pz: i64 = 2 * random_unit() - SCALE;
        let p = Vec3::new(px, py, pz);
        if p.squared_length() < SCALE {
            return p;
        }
        i = i + 1;
    }
    let center = Vec3::new(0, 0, 0);
    proof {
        crate::fixed::lemma_fx_mul_zero(0);
    }
    center
}

} // verus!
