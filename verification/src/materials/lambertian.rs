//! Diffuse surfaces: always scatter toward a random point near the
//! normal's tip, attenuated by the albedo.

use crate::fixed::SCALE;
use crate::hitable::HitRecord;
use crate::materials::{in_unit_sphere, Scatterable};
use crate::random::random_unit;
use crate::ray::Ray;
use crate::vec3::Vec3;
use vstd::prelude::*;

verus! {

#[derive(Clone, Copy, Debug, PartialEq, Eq, Structural)]
pub struct Lambertian {
    pub albedo: Vec3,
}

impl Lambertian {
    pub fn new(albedo: Vec3) -> (m: Lambertian)
        ensures
            m == (Lambertian { albedo }),
    {
        Lambertian { albedo }
    }
}

impl Default for Lambertian {
    /// A black diffuse surface.
    fn default() -> (m: Lambertian)
        ensures
            m == (Lambertian { albedo: Vec3 { x: 0i64, y: 0i64, z: 0i64 } }),
    {
        Lambertian { albedo: Vec3::new(0, 0, 0) }
    }
}

/// The scattered direction: `(p + normal + s) - p` for the sampled
/// offset `s`.
pub open spec fn lambertian_dir(hit: HitRecord, s: Vec3) -> Vec3 {
    Vec3::spec_sub(Vec3::spec_add(Vec3::spec_add(hit.p, hit.normal), s), hit.p)
}

/// A diffuse surface always scatters, from the hit point, attenuated
/// by its albedo, toward the normal's tip offset by some point of the
/// unit sphere.
#[verifier::opaque]
pub open spec fn lambertian_post(m: Lambertian, hit: HitRecord, res: (bool, Ray, Vec3)) -> bool {
    &&& res.0 == true
    &&& res.2 == m.albedo
    &&& res.1.a == hit.p
    &&& exists|s: Vec3| in_unit_sphere(s) && res.1.b == #[trigger] lambertian_dir(hit, s)
}

impl Scatterable for Lambertian {
    open spec fn scatter_wf(&self) -> bool {
        true
    }

    open spec fn scatter_post(&self, ray_in: Ray, hit: HitRecord, res: (bool, Ray, Vec3)) -> bool {
        lambertian_post(*self, hit, res)
    }

    fn scatter(&self, ray_in: &Ray, hit_record: &HitRecord) -> (res: (bool, Ray, Vec3)) {
        let s = random_in_unit_sphere();
        let target = hit_record.p.add(hit_record.normal).add(s);
        let scattered = Ray::new(hit_record.p, target.sub(hit_record.p));
        let out = (true, scattered, self.albedo);
        proof {
            reveal(lambertian_post);
            assert(scattered.b == lambertian_dir(*hit_record, s));
            assert(lambertian_post(*self, *hit_record, out));
        }
        out
    }
}

/// A pseudo-random point strictly inside the unit sphere, found by
/// rejection sampling over the cube with corners (-1,-1,-1) and (1,1,1).
/// The draw lands inside the sphere better than half the time, so the
/// bounded number of attempts is no practical limit; if every attempt
/// were rejected the center would be returned.
pub fn random_in_unit_sphere() -> (p: Vec3)
    ensures
        in_unit_sphere(p),
{
    let mut i: u32 = 0;
    while i < 64
        invariant
            true,
        decreases 64 - i,
    {
        let px: i64 = 2 * random_unit() - SCALE;
        let py: i64 = 2 * random_unit() - SCALE;
        let pz: i64 = 2 * random_unit() - SCALE;
        let p = Vec3::new(px, py, pz);
        if p.squared_length() < SCALE {
            return p;
        }
        i = i + 1;
    }
    let center = Vec3::new(0, 0, 0);
    proof {
        crate::fixed::lemma_fx_mul_zero(0);
    }
    center
}

} // verus!
