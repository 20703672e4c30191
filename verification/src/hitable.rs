//! Hit records and the aggregate scene: the nearest intersection over a
//! list of spheres.

use crate::materials::Material;
use crate::ray::Ray;
use crate::sphere::Sphere;
use crate::vec3::Vec3;
use vstd::prelude::*;

verus! {

/// One surface intersection: parametric distance, world-space point,
/// outward unit normal and the material of the surface that was hit.
#[derive(Clone, Copy, Debug, PartialEq, Eq, Structural)]
pub struct HitRecord {
    pub t: i64,
    pub p: Vec3,
    pub normal: Vec3,
    pub material: Material,
}

impl HitRecord {
    /// The placeholder record a miss carries: everything zero, with the
    /// default material.
    pub open spec fn spec_default() -> HitRecord {
        HitRecord {
            t: 0i64,
            p: Vec3 { x: 0i64, y: 0i64, z: 0i64 },
            normal: Vec3 { x: 0i64, y: 0i64, z: 0i64 },
            material: Material::spec_default(),
        }
    }

    pub fn material(&self) -> (m: Material)
        ensures
            m == self.material,
    {
        self.material
    }
}

impl Default for HitRecord {
    fn default() -> (r: HitRecord)
        ensures
            r == HitRecord::spec_default(),
    {
        HitRecord {
            t: 0,
            p: Vec3::new(0, 0, 0),
            normal: Vec3::new(0, 0, 0),
            material: Material::default(),
        }
    }
}

/// Anything a ray can strike within a parametric window. `hit` reports
/// whether something was struck and, if so, the record of the nearest
/// accepted intersection, exactly as `hit_spec` lays down.
pub trait Hitable {
    /// What the geometry needs of its own parameters before it can be
    /// intersected (a sphere divides by its radius).
    spec fn hit_wf(&self) -> bool;

    /// Exactly which intersection `hit` reports.
    spec fn hit_spec(&self, r: Ray, t_min: int, t_max: int) -> Option<HitRecord>;

    fn hit(&self, r: &Ray, t_min: i64, t_max: i64) -> (res: (bool, HitRecord))
        requires
            self.hit_wf(),
        ensures
            match self.hit_spec(*r, t_min as int, t_max as int) {
                Some(h) => res.0 && res.1 == h,
                None => !res.0 && res.1 == HitRecord::spec_default(),
            },
    ;
}

/// The scan over the remaining spheres from index `i`, with the nearest
/// accepted hit so far (`best`, whose distance is `closest`): each
/// accepted hit shrinks the upper end of the parametric window.
pub open spec fn scene_hit_from(
    objs: Seq<Sphere>,
    r: Ray,
    t_min: int,
    i: int,
    closest: int,
    best: Option<HitRecord>,
) -> Option<HitRecord>
    decreases objs.len() - i,
{
    if i < 0 || i >= objs.len() {
        best
    } else {
        match objs[i].spec_hit(r, t_min, closest) {
            Some(h) => scene_hit_from(objs, r, t_min, i + 1, h.t as int, Some(h)),
            None => scene_hit_from(objs, r, t_min, i + 1, closest, best),
        }
    }
}

/// The globally nearest hit over a whole list of spheres.
pub open spec fn scene_hit(objs: Seq<Sphere>, r: Ray, t_min: int, t_max: int) -> Option<
    HitRecord,
> {
    scene_hit_from(objs, r, t_min, 0, t_max, None)
}

/// The scan's result never reports a hit beyond the window it started
/// with, and it only reports a miss when it started with none in hand.
proof fn lemma_scene_from_bound(
    objs: Seq<Sphere>,
    r: Ray,
    t_min: int,
    i: int,
    closest: int,
    best: Option<HitRecord>,
)
    requires
        best is Some ==> best.unwrap().t as int <= closest,
    ensures
        match scene_hit_from(objs, r, t_min, i, closest, best) {
            Some(h) => h.t as int <= closest,
            None => best is None,
        },
    decreases objs.len() - i,
{
    if 0 <= i < objs.len() {
        match objs[i].spec_hit(r, t_min, closest) {
            Some(h) => {
                lemma_scene_from_bound(objs, r, t_min, i + 1, h.t as int, Some(h));
            },
            None => {
                lemma_scene_from_bound(objs, r, t_min, i + 1, closest, best);
            },
        }
    }
}

/// If some remaining sphere hits within the original window, the scan
/// reports a hit, and one no farther than that sphere's own.
#[verifier::rlimit(60)]
proof fn lemma_scene_from_nearest(
    objs: Seq<Sphere>,
    r: Ray,
    t_min: int,
    i: int,
    closest: int,
    best: Option<HitRecord>,
    t_max: int,
    j: int,
)
    requires
        0 <= i <= j < objs.len(),
        closest <= t_max,
        best is None ==> closest == t_max,
        best is Some ==> best.unwrap().t as int == closest,
        objs[j].spec_hit(r, t_min, t_max) is Some,
    ensures
        scene_hit_from(objs, r, t_min, i, closest, best) is Some,
        scene_hit_from(objs, r, t_min, i, closest, best).unwrap().t as int <= objs[j].spec_hit(
            r,
            t_min,
            t_max,
        ).unwrap().t as int,
    decreases objs.len() - i,
{
    let small = objs[i].spec_hit(r, t_min, closest);
    if i == j {
        let hj = objs[j].spec_hit(r, t_min, t_max).unwrap();
        crate::sphere::lemma_sphere_hit_window(objs[j], r, t_min, closest, t_max);
        match small {
            Some(hc) => {
                assert(hc.t as int <= hj.t as int);
                assert(scene_hit_from(objs, r, t_min, i, closest, best) == scene_hit_from(
                    objs,
                    r,
                    t_min,
                    i + 1,
                    hc.t as int,
                    Some(hc),
                ));
                lemma_scene_from_bound(objs, r, t_min, i + 1, hc.t as int, Some(hc));
            },
            None => {
                assert(hj.t as int >= closest);
                if best is None {
                    assert(small == objs[j].spec_hit(r, t_min, t_max));
                    assert(false);
                }
                assert(scene_hit_from(objs, r, t_min, i, closest, best) == scene_hit_from(
                    objs,
                    r,
                    t_min,
                    i + 1,
                    closest,
                    best,
                ));
                lemma_scene_from_bound(objs, r, t_min, i + 1, closest, best);
            },
        }
    } else {
        match small {
            Some(h) => {
                assert((h.t as int) < closest);
                assert(scene_hit_from(objs, r, t_min, i, closest, best) == scene_hit_from(
                    objs,
                    r,
                    t_min,
                    i + 1,
                    h.t as int,
                    Some(h),
                ));
                lemma_scene_from_nearest(objs, r, t_min, i + 1, h.t as int, Some(h), t_max, j);
            },
            None => {
                assert(scene_hit_from(objs, r, t_min, i, closest, best) == scene_hit_from(
                    objs,
                    r,
                    t_min,
                    i + 1,
                    closest,
                    best,
                ));
                lemma_scene_from_nearest(objs, r, t_min, i + 1, closest, best, t_max, j);
            },
        }
    }
}

/// Every hit the scan reports carries the material of one of the
/// scene's spheres.
pub proof fn lemma_scene_from_material(
    objs: Seq<Sphere>,
    r: Ray,
    t_min: int,
    i: int,
    closest: int,
    best: Option<HitRecord>,
)
    requires
        best is Some ==> exists|k: int|
            0 <= k < objs.len() && best.unwrap().material == (#[trigger] objs[k]).material,
    ensures
        scene_hit_from(objs, r, t_min, i, closest, best) is Some ==> exists|k: int|
            0 <= k < objs.len() && scene_hit_from(
                objs,
                r,
                t_min,
                i,
                closest,
                best,
            ).unwrap().material == (#[trigger] objs[k]).material,
    decreases objs.len() - i,
{
    if 0 <= i < objs.len() {
        match objs[i].spec_hit(r, t_min, closest) {
            Some(h) => {
                assert(h.material == objs[i].material);
                lemma_scene_from_material(objs, r, t_min, i + 1, h.t as int, Some(h));
            },
            None => {
                lemma_scene_from_material(objs, r, t_min, i + 1, closest, best);
            },
        }
    }
}

/// Nearest-hit selection: whenever any single sphere of the scene has an
/// accepted hit in the queried window, the scene reports a hit, and
/// never one farther than that sphere's own.
pub proof fn lemma_scene_hit_is_nearest(
    objs: Seq<Sphere>,
    r: Ray,
    t_min: int,
    t_max: int,
    j: int,
)
    requires
        0 <= j < objs.len(),
        objs[j].spec_hit(r, t_min, t_max) is Some,
    ensures
        scene_hit(objs, r, t_min, t_max) is Some,
        scene_hit(objs, r, t_min, t_max).unwrap().t as int <= objs[j].spec_hit(
            r,
            t_min,
            t_max,
        ).unwrap().t as int,
{
    lemma_scene_from_nearest(objs, r, t_min, 0, t_max, None, t_max, j);
}

/// An ordered collection of spheres, queried for the nearest hit across
/// all of them.
#[derive(Debug)]
pub struct HitableList {
    pub list: Vec<Sphere>,
}

impl HitableList {
    pub fn new(l: Vec<Sphere>) -> (hl: HitableList)
        ensures
            hl.list == l,
    {
        HitableList { list: l }
    }

    /// Every sphere can be intersected and every material can scatter.
    pub open spec fn wf(self) -> bool {
        forall|j: int| 0 <= j < self.list@.len() ==> (#[trigger] self.list@[j]).wf()
    }

    /// Every material's attenuation lies in [0, 1] componentwise.
    pub open spec fn albedos_in_unit(self) -> bool {
        forall|j: int|
            0 <= j < self.list@.len() ==> (#[trigger] self.list@[j]).material.albedo_in_unit()
    }
}

impl Default for HitableList {
    /// The empty scene.
    fn default() -> (hl: HitableList)
        ensures
            hl.list@ == Seq::<Sphere>::empty(),
    {
        HitableList { list: Vec::new() }
    }
}

impl Hitable for HitableList {
    open spec fn hit_wf(&self) -> bool {
        forall|j: int| 0 <= j < self.list@.len() ==> (#[trigger] self.list@[j]).hit_wf()
    }

    open spec fn hit_spec(&self, r: Ray, t_min: int, t_max: int) -> Option<HitRecord> {
        scene_hit(self.list@, r, t_min, t_max)
    }

    fn hit(&self, r: &Ray, t_min: i64, t_max: i64) -> (res: (bool, HitRecord)) {
        let mut hit_record = HitRecord::default();
        let mut hit_anything = false;
        let mut closest_so_far = t_max;
        let mut idx: usize = 0;
        while idx < self.list.len()
            invariant
                idx <= self.list@.len(),
                forall|j: int| 0 <= j < self.list@.len() ==> (#[trigger] self.list@[j]).hit_wf(),
                !hit_anything ==> hit_record == HitRecord::spec_default() && closest_so_far
                    == t_max,
                scene_hit_from(
                    self.list@,
                    *r,
                    t_min as int,
                    idx as int,
                    closest_so_far as int,
                    if hit_anything {
                        Some(hit_record)
                    } else {
                        None
                    },
                ) == scene_hit(self.list@, *r, t_min as int, t_max as int),
            decreases self.list@.len() - idx,
        {
            let (is_hit, temp_rec) = self.list[idx].hit(r, t_min, closest_so_far);
            if is_hit {
                hit_anything = true;
                closest_so_far = temp_rec.t;
                hit_record = temp_rec;
            }
            idx = idx + 1;
        }
        (hit_anything, hit_record)
    }
}

} // verus!
