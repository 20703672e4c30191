//! Rays: an origin and a direction, evaluated at a parameter.

use crate::vec3::Vec3;
use vstd::prelude::*;

verus! {

#[derive(Clone, Copy, Debug, PartialEq, Eq, Structural)]
pub struct Ray {
    pub a: Vec3,
    pub b: Vec3,
}

impl Ray {
    /// The point `origin + direction * t`.
    pub open spec fn spec_point_at(self, t: int) -> Vec3 {
        Vec3::spec_add(self.a, Vec3::spec_scale(self.b, t))
    }

    pub fn new(a: Vec3, b: Vec3) -> (r: Ray)
        ensures
            r == (Ray { a, b }),
    {
        Ray { a, b }
    }

    pub fn origin(&self) -> (r: &Vec3)
        ensures
            *r == self.a,
    {
        &self.a
    }

    pub fn direction(&self) -> (r: &Vec3)
        ensures
            *r == self.b,
    {
        &self.b
    }

    pub fn point_at_parameter(&self, t: i64) -> (r: Vec3)
        ensures
            r == self.spec_point_at(t as int),
    {
        self.a.add(self.b.mul_scalar(t))
    }
}

} // verus!
