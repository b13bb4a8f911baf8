//! Color resolution: channel blending primitives, the background gradient,
//! surface-normal shading, and the ray-to-color pipeline over a scene of
//! spheres.

use vstd::prelude::*;
use crate::fixed::{clamp255, isqrt, lemma_mul_abs_bound, lemma_sqrt_perfect, lemma_tdiv_multiples_vanish,
    lemma_tdiv_small, mul_wide, sqrt_floor, tdiv, tdiv_i128, COORD_MAX, SCALE, T_MAX};
use crate::hittable::{HitRecord, Hittable};
use crate::object::Sphere;
use crate::ray::Ray;
use crate::vec3::{dot, in_range, lemma_dot_bound, lemma_dot_self_nonneg, sub_spec, Vec3};

verus! {

/// An RGBA color, 8 bits per channel.
#[derive(Clone, Copy, PartialEq, Eq, Structural, Debug)]
pub struct Color {
    pub r: u8,
    pub g: u8,
    pub b: u8,
    pub a: u8,
}

/// One channel scaled by a fixed-point intensity (SCALE is 1.0): multiplied,
/// truncated toward zero, and clamped into the channel range.
pub open spec fn scale_channel(ch: int, intensity: int) -> int {
    clamp255(tdiv(ch * intensity, SCALE as int))
}

/// Two channels added, clamped into the channel range.
pub open spec fn add_channel(c1: int, c2: int) -> int {
    clamp255(c1 + c2)
}

/// One channel scaled by a fixed-point intensity, exactly as
/// `scale_channel` says.
fn scale_channel_exec(ch: u8, intensity: i64) -> (r: u8)
    ensures
        r as int == scale_channel(ch as int, intensity as int),
{
    let w: i128 = mul_wide(ch as i64, intensity);
    proof {
        lemma_mul_abs_bound(ch as int, intensity as int, 255, 0x8000_0000_0000_0000);
    }
    let q: i128 = tdiv_i128(w, SCALE as i128);
    proof {
        lemma_tdiv_small(w as int, SCALE as int);
    }
    if q < 0 {
        0
    } else if q > 255 {
        255
    } else {
        q as u8
    }
}

/// Scales each color channel by a fixed-point intensity, truncating and
/// clamping per channel; alpha is held at full opacity, never blended.
pub fn color_intensity(color: &Color, intensity: i64) -> (res: Color)
    ensures
        res.r as int == scale_channel(color.r as int, intensity as int),
        res.g as int == scale_channel(color.g as int, intensity as int),
        res.b as int == scale_channel(color.b as int, intensity as int),
        res.a == 255,
{
    Color {
        r: scale_channel_exec(color.r, intensity),
        g: scale_channel_exec(color.g, intensity),
        b: scale_channel_exec(color.b, intensity),
        a: 255,
    }
}

/// Adds two colors channel by channel, clamped so the sum cannot leave the
/// channel range; alpha is held at full opacity, never blended.
pub fn add_color(c1: &Color, c2: &Color) -> (res: Color)
    ensures
        res.r as int == add_channel(c1.r as int, c2.r as int),
        res.g as int == add_channel(c1.g as int, c2.g as int),
        res.b as int == add_channel(c1.b as int, c2.b as int),
        res.a == 255,
{
    let sr: i64 = c1.r as i64 + c2.r as i64;
    let sg: i64 = c1.g as i64 + c2.g as i64;
    let sb: i64 = c1.b as i64 + c2.b as i64;
    Color {
        r: if sr > 255 { 255 } else { sr as u8 },
        g: if sg > 255 { 255 } else { sg as u8 },
        b: if sb > 255 { 255 } else { sb as u8 },
        a: 255,
    }
}

/// The gradient's endpoint color at the top of the sky (blend position 1.0).
pub open spec fn sky_color() -> Color {
    Color { r: 127, g: 178, b: 255, a: 255 }
}

/// The gradient's endpoint color at the horizon (blend position 0.0).
pub open spec fn horizon_color() -> Color {
    Color { r: 255, g: 255, b: 255, a: 255 }
}

/// The vertical blend position of a direction, fixed-point in [0, SCALE]:
/// 0.5 * (unit_direction.y + 1), which maps y in [-1, 1] onto [0, 1].
pub open spec fn bg_t(dir: Vec3) -> int {
    tdiv(tdiv(dir.y * (SCALE as int), sqrt_floor(dot(dir, dir))) + (SCALE as int), 2)
}

/// One channel of the background: (1 - t) * horizon + t * sky, each part
/// truncated and clamped as `scale_channel` does, then added with clamping.
pub open spec fn blend_channel(h: int, s: int, t: int) -> int {
    add_channel(scale_channel(h, (SCALE as int) - t), scale_channel(s, t))
}

/// The background gradient color for a ray direction.
pub open spec fn background_spec(dir: Vec3) -> Color {
    Color {
        r: blend_channel(255, 127, bg_t(dir)) as u8,
        g: blend_channel(255, 178, bg_t(dir)) as u8,
        b: blend_channel(255, 255, bg_t(dir)) as u8,
        a: 255,
    }
}

/// Computes the background gradient: normalizes the direction, maps its
/// vertical component onto [0, SCALE], and blends horizon into sky.
pub fn background(dir: &Vec3) -> (c: Color)
    requires
        in_range(*dir, COORD_MAX as int),
        !dir.is_zero(),
    ensures
        c == background_spec(*dir),
{
    let n2: i128 = dir.dot_wide(dir);
    proof {
        lemma_dot_self_nonneg(*dir);
        lemma_dot_bound(*dir, *dir, 0x100_0000, 0x100_0000);
    }
    let len: u128 = isqrt(n2 as u128);
    proof {
        assert(len as int <= 0x200_0000) by (nonlinear_arith)
            requires
                0 <= len as int,
                (len as int) * (len as int) <= 0x3_0000_0000_0000,
        ;
        assert(1 <= len as int) by (nonlinear_arith)
            requires
                0 <= len as int,
                (n2 as int) < ((len as int) + 1) * ((len as int) + 1),
                1 <= n2 as int,
        ;
    }
    let wy: i128 = mul_wide(dir.y, SCALE);
    proof {
        lemma_mul_abs_bound(dir.y as int, SCALE as int, 0x100_0000, 0x1_0000);
    }
    let uy: i128 = tdiv_i128(wy, len as i128);
    proof {
        lemma_tdiv_small(wy as int, len as int);
        lemma_tdiv_small(uy as int + SCALE as int, 2);
    }
    let tq: i128 = tdiv_i128(uy + SCALE as i128, 2);
    let ti: i64 = tq as i64;
    let horizon: Color = Color { r: 255, g: 255, b: 255, a: 255 };
    let sky: Color = Color { r: 127, g: 178, b: 255, a: 255 };
    let part1: Color = color_intensity(&horizon, SCALE - ti);
    let part2: Color = color_intensity(&sky, ti);
    add_color(&part1, &part2)
}

/// One channel of surface-normal shading: the component is mapped from
/// [-SCALE, SCALE] onto [0, 255] and inverted. Two conventions (direct and
/// inverted) are equally valid; this library keeps the inverted one
/// throughout.
pub open spec fn shade_channel(n: int) -> int {
    255 - clamp255(tdiv((n + SCALE) * 255, 2 * (SCALE as int)))
}

/// The shaded color of a hit, computed from the record's oriented normal.
pub open spec fn shade_normal_spec(n: Vec3) -> Color {
    Color {
        r: shade_channel(n.x as int) as u8,
        g: shade_channel(n.y as int) as u8,
        b: shade_channel(n.z as int) as u8,
        a: 255,
    }
}

/// One channel of surface-normal shading, exactly as `shade_channel` says.
fn shade_channel_exec(n: i64) -> (r: u8)
    ensures
        r as int == shade_channel(n as int),
{
    let s: i128 = n as i128 + SCALE as i128;
    proof {
        lemma_mul_abs_bound(s as int, 255, 0x1_0000_0000_0000_0000, 255);
        lemma_tdiv_small((s * 255) as int, 2 * (SCALE as int));
    }
    let q: i128 = tdiv_i128(s * 255, 2 * (SCALE as i128));
    let cl: i128 = if q < 0 {
        0
    } else if q > 255 {
        255
    } else {
        q
    };
    (255 - cl) as u8
}

/// Maps each component of an oriented normal onto a color channel.
pub fn shade_normal(n: &Vec3) -> (c: Color)
    ensures
        c == shade_normal_spec(*n),
{
    Color {
        r: shade_channel_exec(n.x),
        g: shade_channel_exec(n.y),
        b: shade_channel_exec(n.z),
        a: 255,
    }
}

/// The nearest accepted hit among `world[i..]`, carried forward from `best`:
/// a later sphere can only override the best hit so far by hitting at a
/// nearer parameter, because the interval's upper end shrinks to the best
/// parameter found.
pub open spec fn world_hit_from(
    world: Seq<Sphere>,
    i: int,
    r: Ray,
    t_min: int,
    t_max: int,
    best: Option<HitRecord>,
) -> Option<HitRecord>
    decreases world.len() - i,
{
    if i < 0 || i >= world.len() {
        best
    } else {
        let cur_max = match best {
            Some(h) => h.t as int,
            None => t_max,
        };
        match world[i].hit_t(r, t_min, cur_max) {
            Some(t) => world_hit_from(
                world,
                i + 1,
                r,
                t_min,
                t_max,
                Some(world[i].hit_record_spec(r, t)),
            ),
            None => world_hit_from(world, i + 1, r, t_min, t_max, best),
        }
    }
}

/// The nearest hit of a ray against the whole scene within `[t_min, t_max]`.
pub open spec fn world_hit(world: Seq<Sphere>, r: Ray, t_min: int, t_max: int) -> Option<
    HitRecord,
> {
    world_hit_from(world, 0, r, t_min, t_max, None)
}

/// Scans the ordered scene for the nearest accepted hit, shrinking the upper
/// interval end to the best parameter found so far; on a hit, fills `rec`
/// with the nearest one and returns true, on a miss leaves `rec` untouched.
pub fn hit_world(world: &Vec<Sphere>, r: &Ray, t_min: i64, t_max: i64, rec: &mut HitRecord) -> (b:
    bool)
    requires
        forall|i: int| 0 <= i < world@.len() ==> (#[trigger] world@[i]).wf(),
        r.wf(),
        -T_MAX <= t_min <= T_MAX,
        -T_MAX <= t_max <= T_MAX,
    ensures
        b == match world_hit(world@, *r, t_min as int, t_max as int) {
            Some(_) => true,
            None => false,
        },
        match world_hit(world@, *r, t_min as int, t_max as int) {
            Some(h) => *final(rec) == h,
            None => *final(rec) == *old(rec),
        },
{
    let mut found: bool = false;
    let mut closest: i64 = t_max;
    let mut idx: usize = 0;
    while idx < world.len()
        invariant
            idx <= world@.len(),
            forall|i: int| 0 <= i < world@.len() ==> (#[trigger] world@[i]).wf(),
            r.wf(),
            -T_MAX <= t_min <= T_MAX,
            -T_MAX <= t_max <= T_MAX,
            -T_MAX <= closest <= T_MAX,
            !found ==> closest == t_max && *rec == *old(rec),
            found ==> rec.t == closest,
            world_hit(world@, *r, t_min as int, t_max as int) == world_hit_from(
                world@,
                idx as int,
                *r,
                t_min as int,
                t_max as int,
                if found {
                    Some(*rec)
                } else {
                    None
                },
            ),
        decreases world@.len() - idx,
    {
        let s: Sphere = world[idx];
        if s.hit(r, t_min, closest, rec) {
            found = true;
            closest = rec.t;
        }
        idx = idx + 1;
    }
    found
}

/// Resolves a ray to a pixel color: the nearest scene hit over the interval
/// [0, T_MAX] shaded by its surface normal, or the background gradient when
/// the ray misses every primitive.
pub fn ray_color(r: &Ray, world: &Vec<Sphere>) -> (c: Color)
    requires
        forall|i: int| 0 <= i < world@.len() ==> (#[trigger] world@[i]).wf(),
        r.wf(),
    ensures
        match world_hit(world@, *r, 0, T_MAX as int) {
            Some(h) => c == shade_normal_spec(h.normal),
            None => c == background_spec(r.dir),
        },
{
    let mut rec: HitRecord = HitRecord::default();
    if hit_world(world, r, 0, T_MAX, &mut rec) {
        shade_normal(&rec.normal)
    } else {
        background(&r.dir)
    }
}

/// The discriminant of the simplified, full-b form of the sphere quadratic
/// (scale SCALE^4).
pub open spec fn full_disc(center: Vec3, radius: i64, r: Ray) -> int {
    let oc = sub_spec(r.orig, center);
    let a = dot(r.dir, r.dir);
    let b = 2 * dot(oc, r.dir);
    let c = dot(oc, oc) - radius * radius;
    b * b - 4 * (a * c)
}

/// The simplified, full-b form of the sphere test: the nearer root of the
/// quadratic whenever the discriminant admits one (whether or not the root
/// is positive), and the fixed-point -1.0 on a miss.
pub open spec fn hit_sphere_spec(center: Vec3, radius: i64, r: Ray) -> int {
    let oc = sub_spec(r.orig, center);
    let a = dot(r.dir, r.dir);
    let b = 2 * dot(oc, r.dir);
    if full_disc(center, radius, r) < 0 {
        -(SCALE as int)
    } else {
        tdiv((-b - sqrt_floor(full_disc(center, radius, r))) * (SCALE as int), 2 * a)
    }
}

/// Law: the full-b discriminant is four times the half-b discriminant that
/// `Sphere`'s hit test uses, so the two forms miss on exactly the same rays.
pub proof fn lemma_discriminant_forms_agree(center: Vec3, radius: i64, r: Ray)
    ensures
        full_disc(center, radius, r) == 4 * (Sphere { center, radius }).disc(r),
        full_disc(center, radius, r) < 0 <==> (Sphere { center, radius }).disc(r) < 0,
{
    let s = Sphere { center, radius };
    let hb = s.q_half_b(r);
    let a = s.qa(r);
    let c = s.qc(r);
    assert((2 * hb) * (2 * hb) - 4 * (a * c) == 4 * (hb * hb - a * c)) by (nonlinear_arith);
}

/// Tests a ray against one sphere in the full-b discriminant form, with no
/// interval: returns the nearer root, or the fixed-point -1.0 on a miss.
/// Up to one unit of truncation, it accepts the same roots as the half-b
/// form that `Sphere`'s hit test uses.
pub fn hit_sphere(center: &Vec3, radius: i64, r: &Ray) -> (t: i128)
    requires
        in_range(*center, COORD_MAX as int),
        0 < radius <= COORD_MAX,
        r.wf(),
    ensures
        t == hit_sphere_spec(*center, radius, *r),
{
    let oc: Vec3 = r.orig.minus(center);
    let a2: i128 = r.dir.dot_wide(&r.dir);
    let hb: i128 = oc.dot_wide(&r.dir);
    let rr: i128 = mul_wide(radius, radius);
    let oc2: i128 = oc.dot_wide(&oc);
    proof {
        lemma_dot_self_nonneg(r.dir);
        lemma_dot_bound(r.dir, r.dir, 0x100_0000, 0x100_0000);
        lemma_dot_bound(oc, r.dir, 0x200_0000, 0x100_0000);
        lemma_dot_bound(oc, oc, 0x200_0000, 0x200_0000);
        lemma_mul_abs_bound(radius as int, radius as int, 0x100_0000, 0x100_0000);
    }
    let b2: i128 = 2 * hb;
    let c2: i128 = oc2 - rr;
    proof {
        lemma_mul_abs_bound(b2 as int, b2 as int, 0x10_0000_0000_0000, 0x10_0000_0000_0000);
        lemma_mul_abs_bound(a2 as int, c2 as int, 0x4_0000_0000_0000, 0x20_0000_0000_0000);
    }
    let d: i128 = b2 * b2 - 4 * (a2 * c2);
    if d < 0 {
        return -(SCALE as i128);
    }
    let sd: u128 = isqrt(d as u128);
    proof {
        assert(sd as int <= 0x20_0000_0000_0000) by (nonlinear_arith)
            requires
                0 <= sd as int,
                (sd as int) * (sd as int) < 0x400000000000000000000000000,
        ;
    }
    let num: i128 = -b2 - (sd as i128);
    proof {
        lemma_mul_abs_bound(num as int, SCALE as int, 0x40_0000_0000_0000, 0x1_0000);
    }
    tdiv_i128(num * (SCALE as i128), 2 * a2)
}

/// Law: a ray pointing straight up resolves the background to the sky
/// endpoint, one pointing straight down to the horizon endpoint; between the
/// two, `background_spec` blends the endpoints linearly at `bg_t`.
pub proof fn lemma_background_endpoints(dy: i64)
    requires
        0 < dy <= COORD_MAX,
    ensures
        background_spec((Vec3 { x: 0, y: dy, z: 0 })) == sky_color(),
        background_spec((Vec3 { x: 0, y: (-(dy as int)) as i64, z: 0 })) == horizon_color(),
{
    let up = Vec3 { x: 0, y: dy, z: 0 };
    let down = Vec3 { x: 0, y: (-(dy as int)) as i64, z: 0 };
    assert(dot(up, up) == dy * dy);
    assert(dot(down, down) == dy * dy) by (nonlinear_arith)
        requires
            down.y as int == -(dy as int),
            down.x == 0,
            down.z == 0,
    ;
    lemma_sqrt_perfect(dy as int);
    lemma_tdiv_multiples_vanish(SCALE as int, dy as int);
    assert(bg_t(up) == SCALE as int);
    assert(tdiv(down.y * (SCALE as int), dy as int) == -(SCALE as int));
    assert(bg_t(down) == 0);
}

} // verus!
