//! The camera: maps normalized image-plane coordinates to rays through a
//! fixed viewport.

use crate::fixed::SCALE;
use crate::ray::Ray;
use crate::vec3::Vec3;
use vstd::prelude::*;

verus! {

#[derive(Clone, Copy, Debug, PartialEq, Eq, Structural)]
pub struct Camera {
    pub lower_left_corner: Vec3,
    pub horizontal: Vec3,
    pub vertical: Vec3,
    pub origin: Vec3,
}

impl Camera {
    /// The default viewport: lower-left corner (-2,-1,-1), horizontal span
    /// (4,0,0), vertical span (0,2,0), eye at the origin.
    pub open spec fn spec_default() -> Camera {
        Camera {
            lower_left_corner: Vec3 { x: -2_000_000i64, y: -1_000_000i64, z: -1_000_000i64 },
            horizontal: Vec3 { x: 4_000_000i64, y: 0i64, z: 0i64 },
            vertical: Vec3 { x: 0i64, y: 2_000_000i64, z: 0i64 },
            origin: Vec3 { x: 0i64, y: 0i64, z: 0i64 },
        }
    }

    /// The ray from the eye through the viewport point at `(u, v)`.
    pub open spec fn spec_get_ray(self, u: int, v: int) -> Ray {
        Ray {
            a: self.origin,
            b: Vec3::spec_sub(
                Vec3::spec_add(
                    Vec3::spec_add(self.lower_left_corner, Vec3::spec_scale(self.horizontal, u)),
                    Vec3::spec_scale(self.vertical, v),
                ),
                self.origin,
            ),
        }
    }

    pub fn new() -> (c: Camera)
        ensures
            c == Self::spec_default(),
    {
        Camera {
            lower_left_corner: Vec3::new(-2 * SCALE, -SCALE, -SCALE),
            horizontal: Vec3::new(4 * SCALE, 0, 0),
            vertical: Vec3::new(0, 2 * SCALE, 0),
            origin: Vec3::new(0, 0, 0),
        }
    }

    pub fn get_ray(&self, u: i64, v: i64) -> (r: Ray)
        ensures
            r == self.spec_get_ray(u as int, v as int),
    {
        Ray::new(
            self.origin,
            self.lower_left_corner.add(self.horizontal.mul_scalar(u)).add(
                self.vertical.mul_scalar(v),
            ).sub(self.origin),
        )
    }
}

} // verus!
