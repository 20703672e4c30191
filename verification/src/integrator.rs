//! The radiance estimator: recursive Monte Carlo light transport, the
//! sky background, and the per-pixel sampling, gamma and quantization
//! pipeline.

use crate::camera::Camera;
use crate::fixed::{fx_add, fx_div, fx_mul, fx_sqrt, fx_sub, mag, quot, sat_add, sat_div,
    sat_div_int, sat_mul, sat_sqrt, sat_sub, SCALE};
use crate::hitable::{scene_hit, Hitable, HitableList};
use crate::materials::Scatterable;
use crate::random::random_unit;
use crate::ray::Ray;
use crate::sphere::Sphere;
use crate::vec3::{lemma_length_sign, Vec3};
use vstd::prelude::*;

verus! {

/// The lower end of every intersection window: rejects hits so close to
/// the ray origin that a bounce would strike its own surface again.
pub const T_MIN: i64 = 100;

/// How many bounces the estimator follows before it gives up and
/// reports black.
pub const DEPTH_LIMIT: isize = 50;

/// The sky gradient: interpolates from white up to sky blue by the
/// vertical component of the unit direction.
pub open spec fn spec_sky(dir: Vec3) -> Vec3 {
    let unit = Vec3::spec_unit(dir);
    let t = fx_mul(500_000int, fx_add(unit.y as int, SCALE as int));
    Vec3::spec_add(
        Vec3::spec_scale(Vec3 { x: 1_000_000i64, y: 1_000_000i64, z: 1_000_000i64 }, fx_sub(SCALE as int, t)),
        Vec3::spec_scale(Vec3 { x: 500_000i64, y: 700_000i64, z: 1_000_000i64 }, t),
    )
}

/// What a ray that strikes nothing contributes: the sky for a direction
/// long enough to normalize, black otherwise.
pub open spec fn spec_background(dir: Vec3) -> Vec3 {
    if Vec3::spec_squared_length(dir) >= 1 {
        spec_sky(dir)
    } else {
        Vec3 { x: 0i64, y: 0i64, z: 0i64 }
    }
}

/// A bound every radiance estimate respects when all albedos lie in
/// [0, 1]: attenuation then never brightens a path, so no estimate
/// outgrows the sky, and even for the near-degenerate directions that
/// truncation distorts the sky stays within this many raw units of
/// zero. For directions of unit scale the sky lies in [0, 1] exactly
/// (see `lemma_sky_unit_range`).
pub const RADIANCE_BOUND: i64 = 6_300_000_000_000;

proof fn lemma_sky_mag(dir: Vec3)
    requires
        Vec3::spec_squared_length(dir) >= 1,
    ensures
        mag(spec_sky(dir).x as int) <= RADIANCE_BOUND as int,
        mag(spec_sky(dir).y as int) <= RADIANCE_BOUND as int,
        mag(spec_sky(dir).z as int) <= RADIANCE_BOUND as int,
{
    let s = SCALE as int;
    let sq = Vec3::spec_squared_length(dir);
    crate::fixed::lemma_fx_mul_self_nonneg(dir.x as int);
    crate::fixed::lemma_fx_mul_self_nonneg(dir.y as int);
    crate::fixed::lemma_fx_mul_self_nonneg(dir.z as int);
    assert(fx_mul(dir.y as int, dir.y as int) <= sq);
    crate::fixed::lemma_unit_quot_mag(dir.y, sq as i64);
    let len = fx_sqrt(sq);
    let uy = fx_div(dir.y as int, len);
    let w = fx_add(uy, s);
    let t = fx_mul(500_000int, w);
    crate::fixed::lemma_fx_mul_comm(500_000int, w);
    crate::fixed::lemma_fx_mul_shrink(w, 500_000int);
    let st = fx_sub(s, t);
    crate::fixed::lemma_fx_mul_comm(s, st);
    crate::fixed::lemma_fx_mul_one(st);
    crate::fixed::lemma_fx_mul_comm(500_000int, t);
    crate::fixed::lemma_fx_mul_shrink(t, 500_000int);
    crate::fixed::lemma_fx_mul_comm(700_000int, t);
    crate::fixed::lemma_fx_mul_shrink(t, 700_000int);
    crate::fixed::lemma_fx_mul_comm(s, t);
    crate::fixed::lemma_fx_mul_one(t);
}

/// For any direction of at least unit computed length whose vertical
/// component is inside the saturation threshold, the sky gradient lies
/// in [0, 1] componentwise, exactly.
pub proof fn lemma_sky_unit_range(dir: Vec3)
    requires
        Vec3::spec_squared_length(dir) >= SCALE,
        -3_000_000_000_000 <= dir.y <= 3_000_000_000_000,
    ensures
        0 <= spec_sky(dir).x <= SCALE,
        0 <= spec_sky(dir).y <= SCALE,
        0 <= spec_sky(dir).z <= SCALE,
{
    let s = SCALE as int;
    let sq = Vec3::spec_squared_length(dir);
    crate::fixed::lemma_fx_mul_self_nonneg(dir.x as int);
    crate::fixed::lemma_fx_mul_self_nonneg(dir.y as int);
    crate::fixed::lemma_fx_mul_self_nonneg(dir.z as int);
    assert(fx_mul(dir.y as int, dir.y as int) <= sq);
    crate::fixed::lemma_unit_quot_tight(dir.y, sq as i64);
    let len = fx_sqrt(sq);
    let uy = fx_div(dir.y as int, len);
    let w = fx_add(uy, s);
    assert(-1 <= w <= 2 * s + 1);
    let t = fx_mul(500_000int, w);
    crate::fixed::lemma_quot_monotone(-500_000int, 500_000int * w, s);
    crate::fixed::lemma_quot_monotone(500_000int * w, 1_000_000_500_000int, s);
    assert(500_000int * w >= -500_000 && 500_000int * w <= 1_000_000_500_000int)
        by (nonlinear_arith)
        requires
            -1 <= w <= 2_000_001int,
    ;
    assert(quot(-500_000int, s) == 0);
    assert(quot(1_000_000_500_000int, s) == 1_000_000int);
    assert(0 <= t <= s);
    let st = fx_sub(s, t);
    crate::fixed::lemma_fx_mul_comm(s, st);
    crate::fixed::lemma_fx_mul_one(st);
    crate::fixed::lemma_fx_mul_nonneg(500_000int, t);
    crate::fixed::lemma_fx_mul_comm(500_000int, t);
    crate::fixed::lemma_fx_mul_shrink(t, 500_000int);
    crate::fixed::lemma_fx_mul_nonneg(700_000int, t);
    crate::fixed::lemma_fx_mul_comm(700_000int, t);
    crate::fixed::lemma_fx_mul_shrink(t, 700_000int);
    crate::fixed::lemma_fx_mul_comm(s, t);
    crate::fixed::lemma_fx_mul_one(t);
}

/// Exactly which radiance estimates a ray admits at a given depth: a
/// miss admits only the background; a hit at or past the depth limit
/// admits only black; otherwise the hit material admits some scatter
/// outcome, and the estimate is black when that outcome absorbs the
/// ray, or the componentwise product of the attenuation with an
/// estimate the scattered ray admits one level deeper.
pub open spec fn color_admits(objs: Seq<Sphere>, r: Ray, depth: int, col: Vec3) -> bool
    decreases
            (if depth < DEPTH_LIMIT as int {
                DEPTH_LIMIT as int - depth
            } else {
                0
            }),
{
    match scene_hit(objs, r, T_MIN as int, i64::MAX as int) {
        None => col == spec_background(r.b),
        Some(h) => {
            if depth >= DEPTH_LIMIT as int {
                col == (Vec3 { x: 0i64, y: 0i64, z: 0i64 })
            } else {
                ||| {
                    &&& col == (Vec3 { x: 0i64, y: 0i64, z: 0i64 })
                    &&& exists|res: (bool, Ray, Vec3)|
                        #[trigger] h.material.scatter_post(r, h, res) && !res.0
                }
                ||| exists|res: (bool, Ray, Vec3), sub: Vec3|
                    h.material.scatter_post(r, h, res) && res.0 && color_admits(
                        objs,
                        res.1,
                        depth + 1,
                        sub,
                    ) && col == #[trigger] Vec3::spec_mul(sub, res.2)
            }
        },
    }
}

proof fn lemma_admits_miss(objs: Seq<Sphere>, r: Ray, depth: int, col: Vec3)
    requires
        scene_hit(objs, r, T_MIN as int, i64::MAX as int) is None,
        col == spec_background(r.b),
    ensures
        color_admits(objs, r, depth, col),
{
}

proof fn lemma_admits_capped(objs: Seq<Sphere>, r: Ray, depth: int, col: Vec3)
    requires
        scene_hit(objs, r, T_MIN as int, i64::MAX as int) is Some,
        depth >= DEPTH_LIMIT as int,
        col == (Vec3 { x: 0i64, y: 0i64, z: 0i64 }),
    ensures
        color_admits(objs, r, depth, col),
{
}

#[verifier::rlimit(100)]
#[verifier::spinoff_prover]
proof fn lemma_admits_bounce(
    objs: Seq<Sphere>,
    r: Ray,
    depth: int,
    res: (bool, Ray, Vec3),
    rest: Vec3,
    col: Vec3,
)
    requires
        scene_hit(objs, r, T_MIN as int, i64::MAX as int) is Some,
        depth < DEPTH_LIMIT as int,
        scene_hit(objs, r, T_MIN as int, i64::MAX as int).unwrap().material.scatter_post(
            r,
            scene_hit(objs, r, T_MIN as int, i64::MAX as int).unwrap(),
            res,
        ),
        res.0 ==> color_admits(objs, res.1, depth + 1, rest) && col == Vec3::spec_mul(
            rest,
            res.2,
        ),
        !res.0 ==> col == (Vec3 { x: 0i64, y: 0i64, z: 0i64 }),
    ensures
        color_admits(objs, r, depth, col),
{
    let sh = scene_hit(objs, r, T_MIN as int, i64::MAX as int);
    let h = sh.unwrap();
    assert(sh == Some(h));
    assert(h.material.scatter_post(r, h, res));
    if res.0 {
        assert(exists|o: (bool, Ray, Vec3), sub: Vec3|
            h.material.scatter_post(r, h, o) && o.0 && color_admits(objs, o.1, depth + 1, sub)
                && col == #[trigger] Vec3::spec_mul(sub, o.2));
    } else {
        assert(exists|o: (bool, Ray, Vec3)| #[trigger] h.material.scatter_post(r, h, o) && !o.0);
    }
}

/// The recursive radiance estimate for one ray.
///
/// A ray that strikes nothing contributes the background. A ray that
/// strikes a surface at or beyond the depth limit contributes black,
/// whatever the material would have done; short of the limit the
/// estimate is the scattered ray's estimate dimmed by the material's
/// attenuation, or black when the material absorbs the ray --
/// `color_admits` states that recurrence in full, over the scatter
/// outcomes the hit material admits.
pub fn color(r: &Ray, world: &HitableList, depth: isize) -> (col: Vec3)
    requires
        world.wf(),
    ensures
        color_admits(world.list@, *r, depth as int, col),
        scene_hit(world.list@, *r, T_MIN as int, i64::MAX as int) is None ==> col
            == spec_background(r.b),
        scene_hit(world.list@, *r, T_MIN as int, i64::MAX as int) is Some && depth >= DEPTH_LIMIT
            ==> col == (Vec3 { x: 0i64, y: 0i64, z: 0i64 }),
        world.albedos_in_unit() ==> -RADIANCE_BOUND <= col.x <= RADIANCE_BOUND && -RADIANCE_BOUND
            <= col.y <= RADIANCE_BOUND && -RADIANCE_BOUND <= col.z <= RADIANCE_BOUND,
    decreases
            (if depth < DEPTH_LIMIT {
                DEPTH_LIMIT - depth
            } else {
                0
            }),
{
    proof {
        assert forall|j: int| 0 <= j < world.list@.len() implies (
        #[trigger] world.list@[j]).hit_wf() by {
            assert(world.list@[j].wf());
        }
    }
    let (is_hit, hit_record) = world.hit(r, T_MIN, i64::MAX);
    if is_hit {
        proof {
            crate::hitable::lemma_scene_from_material(
                world.list@,
                *r,
                T_MIN as int,
                0,
                i64::MAX as int,
                None,
            );
            let k = choose|k: int|
                0 <= k < world.list@.len() && hit_record.material == world.list@[k].material;
            assert(world.list@[k].wf());
        }
        let res = hit_record.material().scatter(r, &hit_record);
        if depth < DEPTH_LIMIT && res.0 {
            let rest = color(&res.1, world, depth + 1);
            let out = rest.mul(res.2);
            proof {
                lemma_admits_bounce(world.list@, *r, depth as int, res, rest, out);
                if world.albedos_in_unit() {
                    let k2 = choose|k2: int|
                        0 <= k2 < world.list@.len() && hit_record.material == world.list@[k2].material;
                    assert(world.list@[k2].material.albedo_in_unit());
                    crate::materials::lemma_scatter_attenuation_in_unit(
                        hit_record.material,
                        *r,
                        hit_record,
                        res,
                    );
                    crate::fixed::lemma_fx_mul_shrink(rest.x as int, res.2.x as int);
                    crate::fixed::lemma_fx_mul_shrink(rest.y as int, res.2.y as int);
                    crate::fixed::lemma_fx_mul_shrink(rest.z as int, res.2.z as int);
                }
            }
            out
        } else {
            let out = Vec3::new(0, 0, 0);
            proof {
                if depth >= DEPTH_LIMIT {
                    lemma_admits_capped(world.list@, *r, depth as int, out);
                } else {
                    lemma_admits_bounce(world.list@, *r, depth as int, res, out, out);
                }
            }
            out
        }
    } else {
        let dir = *r.direction();
        let sq = dir.squared_length();
        proof {
            lemma_length_sign(dir);
        }
        if sq == 0 {
            let out = Vec3::new(0, 0, 0);
            proof {
                lemma_admits_miss(world.list@, *r, depth as int, out);
            }
            return out;
        }
        let unit_direction = Vec3::unit_vector(&dir);
        let t = sat_mul(500_000, sat_add(unit_direction.y(), SCALE));
        let out = Vec3::new(SCALE, SCALE, SCALE).mul_scalar(sat_sub(SCALE, t)).add(
            Vec3::new(500_000, 700_000, SCALE).mul_scalar(t),
        );
        proof {
            assert(out == spec_background(r.b));
            lemma_admits_miss(world.list@, *r, depth as int, out);
            lemma_sky_mag(dir);
        }
        out
    }
}

/// One output channel: negative radiance reads as black, then the
/// gamma correction takes the square root, the result is scaled by
/// 255.99 and truncated, and the channel is capped at 255.
pub open spec fn spec_channel(c: int) -> int {
    let c0 = if c < 0 {
        0
    } else {
        c
    };
    let g = fx_sqrt(c0);
    let s = fx_mul(g, 255_990_000int);
    let q = quot(s, SCALE as int);
    if q > 255 {
        255
    } else {
        q
    }
}

pub fn channel(c: i64) -> (r: u8)
    ensures
        r as int == spec_channel(c as int),
{
    let c0: i64 = if c < 0 {
        0
    } else {
        c
    };
    let g = sat_sqrt(c0);
    let s = sat_mul(g, 255_990_000);
    proof {
        crate::fixed::lemma_fx_mul_nonneg(g as int, 255_990_000int);
        crate::fixed::lemma_quot_nonneg(s as int, SCALE as int);
    }
    let q = sat_div_int(s, SCALE);
    if q > 255 {
        255u8
    } else {
        q as u8
    }
}

/// The image-plane coordinate of pixel index `i` out of `n`, jittered
/// by `d`: the fixed-point value of `(i + d/SCALE) / n`.
pub open spec fn spec_uv(i: int, n: int, d: int) -> int {
    fx_div(i * (SCALE as int) + d, n * (SCALE as int))
}

/// The pixel a single unjittered sample of an empty scene produces:
/// the quantized background of the pixel's own camera ray. `i` counts
/// columns from the left, `j` image rows from the bottom.
pub open spec fn spec_sky_pixel(cam: Camera, nx: int, ny: int, i: int, j: int) -> (int, int, int) {
    let u = spec_uv(i, nx, 0);
    let v = spec_uv(j, ny, 0);
    let ray = cam.spec_get_ray(u, v);
    let c = spec_background(ray.b);
    (spec_channel(c.x as int), spec_channel(c.y as int), spec_channel(c.z as int))
}

/// The three channels of the pixel at `row` (counted from the top) and
/// `col` in a flat byte buffer of `nx`-pixel rows.
pub open spec fn pixel_at(s: Seq<u8>, nx: int, row: int, col: int) -> (int, int, int) {
    (
        s[3 * (row * nx + col)] as int,
        s[3 * (row * nx + col) + 1] as int,
        s[3 * (row * nx + col) + 2] as int,
    )
}

/// The pixel at `row`/`col` of the buffer shows the quantized channels
/// of some radiance estimate that the pixel's own unjittered camera
/// ray admits.
#[verifier::opaque]
pub open spec fn pixel_admitted(
    s: Seq<u8>,
    objs: Seq<Sphere>,
    cam: Camera,
    nx: int,
    ny: int,
    row: int,
    col: int,
) -> bool {
    exists|c: Vec3|
        #[trigger] color_admits(
            objs,
            cam.spec_get_ray(spec_uv(col, nx, 0), spec_uv(ny - 1 - row, ny, 0)),
            0,
            c,
        ) && pixel_at(s, nx, row, col) == (
            spec_channel(c.x as int),
            spec_channel(c.y as int),
            spec_channel(c.z as int),
        )
}

#[verifier::rlimit(100)]
#[verifier::spinoff_prover]
proof fn lemma_pixels_extend_admitted(
    before: Seq<u8>,
    after: Seq<u8>,
    objs: Seq<Sphere>,
    cam: Camera,
    nx: int,
    ny: int,
    jj: int,
    i: int,
    picked: Vec3,
    b0: u8,
    b1: u8,
    b2: u8,
)
    requires
        0 <= i < nx,
        0 <= jj,
        before.len() == 3 * (jj * nx) + 3 * i,
        after == before.push(b0).push(b1).push(b2),
        forall|row: int, col: int|
            0 <= row < jj && 0 <= col < nx ==> pixel_admitted(before, objs, cam, nx, ny, row, col),
        forall|col: int| 0 <= col < i ==> pixel_admitted(before, objs, cam, nx, ny, jj, col),
        color_admits(objs, cam.spec_get_ray(spec_uv(i, nx, 0), spec_uv(ny - 1 - jj, ny, 0)), 0, picked),
        b0 as int == spec_channel(picked.x as int),
        b1 as int == spec_channel(picked.y as int),
        b2 as int == spec_channel(picked.z as int),
    ensures
        forall|row: int, col: int|
            0 <= row < jj && 0 <= col < nx ==> pixel_admitted(after, objs, cam, nx, ny, row, col),
        forall|col: int| 0 <= col < i + 1 ==> pixel_admitted(after, objs, cam, nx, ny, jj, col),
{
    reveal(pixel_admitted);
    assert forall|row: int, col: int|
        0 <= row < jj && 0 <= col < nx implies pixel_admitted(
        after,
        objs,
        cam,
        nx,
        ny,
        row,
        col,
    ) by {
        lemma_grid_index(row, col, nx, jj);
        assert(pixel_admitted(before, objs, cam, nx, ny, row, col));
        assert(pixel_at(after, nx, row, col) == pixel_at(before, nx, row, col));
    }
    assert forall|col: int| 0 <= col < i + 1 implies pixel_admitted(
        after,
        objs,
        cam,
        nx,
        ny,
        jj,
        col,
    ) by {
        if col < i {
            assert(pixel_admitted(before, objs, cam, nx, ny, jj, col));
            assert(3 * (jj * nx + col) + 2 < 3 * (jj * nx) + 3 * i);
            assert(pixel_at(after, nx, jj, col) == pixel_at(before, nx, jj, col));
        } else {
            assert(3 * (jj * nx + col) == before.len());
            assert(pixel_at(after, nx, jj, col) == (
                spec_channel(picked.x as int),
                spec_channel(picked.y as int),
                spec_channel(picked.z as int),
            ));
        }
    }
}

#[verifier::rlimit(100)]
#[verifier::spinoff_prover]
proof fn lemma_pixels_extend_golden(
    before: Seq<u8>,
    after: Seq<u8>,
    cam: Camera,
    nx: int,
    ny: int,
    jj: int,
    i: int,
    b0: u8,
    b1: u8,
    b2: u8,
)
    requires
        0 <= i < nx,
        0 <= jj,
        before.len() == 3 * (jj * nx) + 3 * i,
        after == before.push(b0).push(b1).push(b2),
        forall|row: int, col: int|
            0 <= row < jj && 0 <= col < nx ==> pixel_at(before, nx, row, col) == spec_sky_pixel(
                cam,
                nx,
                ny,
                col,
                ny - 1 - row,
            ),
        forall|col: int|
            0 <= col < i ==> pixel_at(before, nx, jj, col) == spec_sky_pixel(
                cam,
                nx,
                ny,
                col,
                ny - 1 - jj,
            ),
        (b0 as int, b1 as int, b2 as int) == spec_sky_pixel(cam, nx, ny, i, ny - 1 - jj),
    ensures
        forall|row: int, col: int|
            0 <= row < jj && 0 <= col < nx ==> pixel_at(after, nx, row, col) == spec_sky_pixel(
                cam,
                nx,
                ny,
                col,
                ny - 1 - row,
            ),
        forall|col: int|
            0 <= col < i + 1 ==> pixel_at(after, nx, jj, col) == spec_sky_pixel(
                cam,
                nx,
                ny,
                col,
                ny - 1 - jj,
            ),
{
    assert forall|row: int, col: int|
        0 <= row < jj && 0 <= col < nx implies pixel_at(after, nx, row, col) == spec_sky_pixel(
        cam,
        nx,
        ny,
        col,
        ny - 1 - row,
    ) by {
        lemma_grid_index(row, col, nx, jj);
        assert(pixel_at(after, nx, row, col) == pixel_at(before, nx, row, col));
    }
    assert forall|col: int| 0 <= col < i + 1 implies pixel_at(after, nx, jj, col)
        == spec_sky_pixel(cam, nx, ny, col, ny - 1 - jj) by {
        if col < i {
            assert(3 * (jj * nx + col) + 2 < 3 * (jj * nx) + 3 * i);
            assert(pixel_at(after, nx, jj, col) == pixel_at(before, nx, jj, col));
        } else {
            assert(3 * (jj * nx + col) == before.len());
        }
    }
}

proof fn lemma_grid_index(row: int, col: int, nx: int, rows: int)
    requires
        0 <= col < nx,
        0 <= row < rows,
    ensures
        0 <= 3 * (row * nx + col),
        3 * (row * nx + col) + 2 < 3 * (rows * nx),
{
    assert(0 <= 3 * (row * nx + col) && 3 * (row * nx + col) + 2 < 3 * (rows * nx))
        by (nonlinear_arith)
        requires
            0 <= col < nx,
            0 <= row < rows,
    ;
}

/// Renders the whole image: `ns` samples per pixel, averaged, gamma
/// corrected and quantized, rows emitted top to bottom and left to
/// right, three bytes per pixel. With jitter off, every sample of a
/// pixel uses the same unjittered camera ray; a one-sample unjittered
/// render of an empty scene is exactly the sky-gradient image.
#[verifier::loop_isolation(false)]
#[verifier::rlimit(100)]
pub fn render(
    world: &HitableList,
    cam: &Camera,
    nx: usize,
    ny: usize,
    ns: usize,
    jitter: bool,
) -> (pixels: Vec<u8>)
    requires
        world.wf(),
        // the caps keep every scaled pixel coordinate and the scaled sample
        // count within the fixed-point range (a value times SCALE must fit)
        1 <= nx <= 9_000_000_000_000,
        1 <= ny <= 9_000_000_000_000,
        1 <= ns <= 9_000_000_000_000,
    ensures
        pixels@.len() == 3 * nx * ny,
        world.list@.len() == 0 && !jitter && ns == 1 ==> forall|row: int, col: int|
            0 <= row < ny && 0 <= col < nx ==> pixel_at(pixels@, nx as int, row, col)
                == spec_sky_pixel(*cam, nx as int, ny as int, col, ny - 1 - row),
        !jitter && ns == 1 ==> forall|row: int, col: int|
            0 <= row < ny && 0 <= col < nx ==> pixel_admitted(
                pixels@,
                world.list@,
                *cam,
                nx as int,
                ny as int,
                row,
                col,
            ),
{
    let ghost golden = world.list@.len() == 0 && !jitter && ns == 1;
    let ghost det = !jitter && ns == 1;
    let mut pixels: Vec<u8> = Vec::new();
    let mut jj: usize = 0;
    while jj < ny
        invariant
            jj <= ny,
            pixels@.len() == 3 * (jj * nx),
            golden ==> forall|row: int, col: int|
                0 <= row < jj && 0 <= col < nx ==> pixel_at(pixels@, nx as int, row, col)
                    == spec_sky_pixel(*cam, nx as int, ny as int, col, ny - 1 - row),
            det ==> forall|row: int, col: int|
                0 <= row < jj && 0 <= col < nx ==> pixel_admitted(
                    pixels@,
                    world.list@,
                    *cam,
                    nx as int,
                    ny as int,
                    row,
                    col,
                ),
        decreases ny - jj,
    {
        let j = ny - 1 - jj;
        let mut i: usize = 0;
        while i < nx
            invariant
                i <= nx,
                pixels@.len() == 3 * (jj * nx) + 3 * i,
                golden ==> forall|row: int, col: int|
                    0 <= row < jj && 0 <= col < nx ==> pixel_at(pixels@, nx as int, row, col)
                        == spec_sky_pixel(*cam, nx as int, ny as int, col, ny - 1 - row),
                golden ==> forall|col: int|
                    0 <= col < i ==> pixel_at(pixels@, nx as int, jj as int, col)
                        == spec_sky_pixel(*cam, nx as int, ny as int, col, j as int),
                det ==> forall|row: int, col: int|
                    0 <= row < jj && 0 <= col < nx ==> pixel_admitted(
                        pixels@,
                        world.list@,
                        *cam,
                        nx as int,
                        ny as int,
                        row,
                        col,
                    ),
                det ==> forall|col: int|
                    0 <= col < i ==> pixel_admitted(
                        pixels@,
                        world.list@,
                        *cam,
                        nx as int,
                        ny as int,
                        jj as int,
                        col,
                    ),
            decreases nx - i,
        {
            let ghost gray = cam.spec_get_ray(
                spec_uv(i as int, nx as int, 0),
                spec_uv(j as int, ny as int, 0),
            );
            let ghost cstar = spec_background(gray.b);
            let ghost mut picked = Vec3 { x: 0i64, y: 0i64, z: 0i64 };
            let mut col_acc = Vec3::new(0, 0, 0);
            let mut s: usize = 0;
            while s < ns
                invariant
                    s <= ns,
                    golden ==> col_acc == (if s == 0 {
                        Vec3 { x: 0i64, y: 0i64, z: 0i64 }
                    } else {
                        cstar
                    }),
                    det && s == 1 ==> col_acc == picked && color_admits(
                        world.list@,
                        gray,
                        0,
                        picked,
                    ),
                    det && s == 0 ==> col_acc == (Vec3 { x: 0i64, y: 0i64, z: 0i64 }),
                decreases ns - s,
            {
                let du: i64 = if jitter {
                    random_unit()
                } else {
                    0
                };
                let dv: i64 = if jitter {
                    random_unit()
                } else {
                    0
                };
                let u = sat_div((i as i64) * SCALE + du, (nx as i64) * SCALE);
                let v = sat_div((j as i64) * SCALE + dv, (ny as i64) * SCALE);
                let ray = cam.get_ray(u, v);
                let sample = color(&ray, world, 0);
                proof {
                    if det {
                        assert(ray == gray);
                        picked = sample;
                    }
                    if golden {
                        assert(scene_hit(world.list@, ray, T_MIN as int, i64::MAX as int)
                            is None);
                        assert(sample == cstar);
                    }
                }
                col_acc.add_assign(sample);
                s = s + 1;
            }
            let ns_fx = (ns as i64) * SCALE;
            col_acc.div_assign(ns_fx);
            proof {
                if det {
                    crate::fixed::lemma_quot_cancel(SCALE as int);
                    crate::fixed::lemma_fx_mul_one(picked.x as int);
                    crate::fixed::lemma_fx_mul_one(picked.y as int);
                    crate::fixed::lemma_fx_mul_one(picked.z as int);
                    assert(col_acc == picked);
                }
                if golden {
                    crate::fixed::lemma_quot_cancel(SCALE as int);
                    crate::fixed::lemma_fx_mul_one(cstar.x as int);
                    crate::fixed::lemma_fx_mul_one(cstar.y as int);
                    crate::fixed::lemma_fx_mul_one(cstar.z as int);
                    assert(col_acc == cstar);
                }
            }
            let ghost before = pixels@;
            let b0 = channel(col_acc.x());
            let b1 = channel(col_acc.y());
            let b2 = channel(col_acc.z());
            pixels.push(b0);
            pixels.push(b1);
            pixels.push(b2);
            proof {
                if golden {
                    assert((b0 as int, b1 as int, b2 as int) == spec_sky_pixel(
                        *cam,
                        nx as int,
                        ny as int,
                        i as int,
                        ny - 1 - jj,
                    ));
                    lemma_pixels_extend_golden(
                        before,
                        pixels@,
                        *cam,
                        nx as int,
                        ny as int,
                        jj as int,
                        i as int,
                        b0,
                        b1,
                        b2,
                    );
                }
                if det {
                    lemma_pixels_extend_admitted(
                        before,
                        pixels@,
                        world.list@,
                        *cam,
                        nx as int,
                        ny as int,
                        jj as int,
                        i as int,
                        picked,
                        b0,
                        b1,
                        b2,
                    );
                }
            }
            i = i + 1;
        }
        proof {
            assert(3 * ((jj + 1) * nx) == 3 * (jj * nx) + 3 * nx) by (nonlinear_arith);
        }
        jj = jj + 1;
    }
    proof {
        vstd::arithmetic::mul::lemma_mul_is_commutative(ny as int, nx as int);
        vstd::arithmetic::mul::lemma_mul_is_associative(3, nx as int, ny as int);
    }
    pixels
}

} // verus!
