//! Spheres and the quadratic ray-sphere intersection.

use crate::fixed::{fx_add, fx_div, fx_mul, fx_neg, fx_sqrt, fx_sub, sat_add, sat_div, sat_mul,
    sat_neg, sat_sqrt, sat_sub};
use crate::hitable::{HitRecord, Hitable};
use crate::materials::{Material, Scatterable};
use crate::ray::Ray;
use crate::vec3::Vec3;
use vstd::prelude::*;

verus! {

#[derive(Clone, Copy, Debug, PartialEq, Eq, Structural)]
pub struct Sphere {
    pub center: Vec3,
    pub radius: i64,
    pub material: Material,
}

impl Sphere {
    /// Sound geometry and a material fit to scatter.
    pub open spec fn wf(self) -> bool {
        self.radius > 0 && self.material.scatter_wf()
    }

    /// Degenerate geometry (a zero or negative radius) is rejected at
    /// construction time by precondition.
    pub fn new(cen: &Vec3, r: i64, material: Material) -> (s: Sphere)
        requires
            r > 0,
        ensures
            s == (Sphere { center: *cen, radius: r, material }),
    {
        Sphere { center: *cen, radius: r, material }
    }

    /// The record for an accepted root `t`: the point on the ray and the
    /// outward normal `(p - center) / radius`.
    pub open spec fn spec_record(self, r: Ray, t: int) -> HitRecord {
        let p = r.spec_point_at(t);
        HitRecord {
            t: t as i64,
            p,
            normal: Vec3::spec_div_scalar(Vec3::spec_sub(p, self.center), self.radius as int),
            material: self.material,
        }
    }

    /// The intersection rule: solve `|O + tD - C|^2 = r^2`; if the
    /// discriminant is positive, accept the smaller root when it lies in
    /// the open window, otherwise the larger root when it does,
    /// otherwise miss. A direction whose self dot product is zero
    /// admits no root.
    pub open spec fn spec_hit(self, r: Ray, t_min: int, t_max: int) -> Option<HitRecord> {
        let oc = Vec3::spec_sub(r.a, self.center);
        let a = Vec3::spec_dot(r.b, r.b);
        let b = Vec3::spec_dot(oc, r.b);
        let c = fx_sub(Vec3::spec_dot(oc, oc), fx_mul(self.radius as int, self.radius as int));
        let discriminant = fx_sub(fx_mul(b, b), fx_mul(a, c));
        if discriminant > 0 && a != 0 {
            let sq = fx_sqrt(discriminant);
            let t1 = fx_div(fx_sub(fx_neg(b), sq), a);
            if t_min < t1 && t1 < t_max {
                Some(self.spec_record(r, t1))
            } else {
                let t2 = fx_div(fx_add(fx_neg(b), sq), a);
                if t_min < t2 && t2 < t_max {
                    Some(self.spec_record(r, t2))
                } else {
                    None
                }
            }
        } else {
            None
        }
    }
}

/// Shrinking the upper end of the parametric window never yields a
/// farther hit: a hit in the narrow window is at most as far as the hit
/// in the wide one, and if the narrow window misses while the wide one
/// hits, the wide hit lies beyond the narrow window's end.
pub proof fn lemma_sphere_hit_window(s: Sphere, r: Ray, t_min: int, c: int, t_max: int)
    requires
        c <= t_max,
    ensures
        match s.spec_hit(r, t_min, t_max) {
            Some(h) => match s.spec_hit(r, t_min, c) {
                Some(hc) => hc.t as int <= h.t as int,
                None => h.t as int >= c,
            },
            None => true,
        },
{
    let oc = Vec3::spec_sub(r.a, s.center);
    let a = Vec3::spec_dot(r.b, r.b);
    let b = Vec3::spec_dot(oc, r.b);
    let cc = fx_sub(Vec3::spec_dot(oc, oc), fx_mul(s.radius as int, s.radius as int));
    let discriminant = fx_sub(fx_mul(b, b), fx_mul(a, cc));
    if discriminant > 0 && a != 0 {
        crate::vec3::lemma_squared_length_nonneg(r.b);
        crate::fixed::lemma_fx_sqrt_pos(discriminant);
        let sq = fx_sqrt(discriminant);
        let n1 = fx_sub(fx_neg(b), sq);
        let n2 = fx_add(fx_neg(b), sq);
        crate::fixed::lemma_fx_div_monotone(n1, n2, a);
    }
}

impl Hitable for Sphere {
    open spec fn hit_wf(&self) -> bool {
        self.radius != 0
    }

    open spec fn hit_spec(&self, r: Ray, t_min: int, t_max: int) -> Option<HitRecord> {
        self.spec_hit(r, t_min, t_max)
    }

    fn hit(&self, r: &Ray, t_min: i64, t_max: i64) -> (res: (bool, HitRecord)) {
        let oc = r.origin().sub(self.center);
        let a = Vec3::dot(r.direction(), r.direction());
        let b = Vec3::dot(&oc, r.direction());
        let c = sat_sub(Vec3::dot(&oc, &oc), sat_mul(self.radius, self.radius));
        let discriminant = sat_sub(sat_mul(b, b), sat_mul(a, c));
        if discriminant > 0 && a != 0 {
            let sq = sat_sqrt(discriminant);
            let temp = sat_div(sat_sub(sat_neg(b), sq), a);
            if temp < t_max && temp > t_min {
                let p = r.point_at_parameter(temp);
                let hit_record = HitRecord {
                    t: temp,
                    p,
                    normal: p.sub(self.center).div_scalar(self.radius),
                    material: self.material,
                };
                return (true, hit_record);
            }
            let temp = sat_div(sat_add(sat_neg(b), sq), a);
            if temp < t_max && temp > t_min {
                let p = r.point_at_parameter(temp);
                let hit_record = HitRecord {
                    t: temp,
                    p,
                    normal: p.sub(self.center).div_scalar(self.radius),
                    material: self.material,
                };
                return (true, hit_record);
            }
        }
        (false, HitRecord::default())
    }
}

} // verus!
