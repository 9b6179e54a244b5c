//! The global-illumination raycaster.
//!
//! For every output pixel, a fan of rays is cast at angles evenly spaced
//! around the circle (rotated per frame by a jitter angle so the noise
//! pattern decorrelates over time). Each ray sphere-traces through the
//! distance field: the field value bounds how far the ray may safely jump,
//! clamped below by `MIN_STEP` so the march never stalls. A ray ends when
//! its step budget runs out, when it travels past the emission range, or
//! when it lands on an emitter texel, whose color it gathers scaled by the
//! emission multiplier and an inverse-distance falloff. The per-pixel
//! average over all rays is blended with the previous frame's history
//! sample under a fixed temporal weight.

use crate::color::ColorBuffer;
use crate::color::Rgba;
use crate::color::CHANNEL_MAX;
use crate::distance::DistanceField;
use crate::extract::spec_is_emitter;
use crate::fp::spec_clamp;
use crate::fp::spec_cos_fp;
use crate::fp::spec_sin_fp;
use crate::settings::VordieLightSettings;
use vstd::arithmetic::div_mod::lemma_fundamental_div_mod_converse;
use vstd::prelude::*;

verus! {

/// The smallest march step, in milli-texels: one texel, so a ray always
/// makes progress even where the distance field reads zero.
pub const MIN_STEP: u32 = 1000;

/// Weight of the previous frame's history sample in the temporal blend, in
/// milli-units.
pub const HISTORY_BLEND: u32 = 900;

/// Weight of the freshly gathered radiance in the temporal blend, in
/// milli-units; the two weights sum to one whole unit.
pub const NEW_BLEND: u32 = 100;

/// The mask texel a fixed-point coordinate falls in, clamped to the surface.
pub open spec fn texel_of_fp(p: int, dim: int) -> int {
    spec_clamp(p / 1000, 0, dim - 1)
}

/// A step scaled by one direction component, in sign-magnitude form.
pub open spec fn dir_scale(dir: int, step: int) -> int {
    if dir >= 0 {
        dir * step / 1000
    } else {
        -((-dir) * step / 1000)
    }
}

/// The inverse-distance falloff at traveled distance `t`, in milli-units:
/// one whole unit at distance zero, decaying as `dropoff * t` grows.
pub open spec fn falloff_fp(t: int, dropoff: int) -> int {
    1000000int / (1000 + dropoff * t / 1000)
}

/// One gathered emitter channel: the emitter color scaled by the emission
/// multiplier and the falloff, saturated at the channel range.
pub open spec fn emitter_channel(ch: int, multi: int, fall: int) -> int {
    let v = ch * multi / 1000 * fall / 1000;
    if v > CHANNEL_MAX {
        CHANNEL_MAX as int
    } else {
        v
    }
}

/// The radiance one ray gathers, marched from fixed-point position
/// `(px, py)` with direction `(dirx, diry)`, having already traveled `t`
/// with `steps` steps left.
pub open spec fn spec_march(
    mask: ColorBuffer,
    df: DistanceField,
    s: VordieLightSettings,
    dirx: int,
    diry: int,
    px: int,
    py: int,
    t: int,
    steps: int,
) -> (int, int, int)
    decreases steps,
{
    if steps <= 0 {
        (0, 0, 0)
    } else if t >= s.u_emission_range {
        (0, 0, 0)
    } else {
        let tx = texel_of_fp(px, mask.width as int);
        let ty = texel_of_fp(py, mask.height as int);
        let c = mask.spec_at(tx, ty);
        if spec_is_emitter(c) {
            let fall = falloff_fp(t, s.u_emission_dropoff as int);
            (
                emitter_channel(c.r as int, s.u_emission_multi as int, fall),
                emitter_channel(c.g as int, s.u_emission_multi as int, fall),
                emitter_channel(c.b as int, s.u_emission_multi as int, fall),
            )
        } else {
            let d = df.spec_at(tx, ty) as int;
            let step = if d < MIN_STEP {
                MIN_STEP as int
            } else {
                d
            };
            spec_march(
                mask,
                df,
                s,
                dirx,
                diry,
                px + dir_scale(dirx, step),
                py + dir_scale(diry, step),
                t + step,
                steps - 1,
            )
        }
    }
}

/// The angle of ray `k` of `n`, rotated by the per-frame jitter.
pub open spec fn ray_angle(k: int, n: int, jitter: int) -> int {
    (k * 65536 / n + jitter) % 65536
}

/// The mask column or row under a full-resolution coordinate: half the
/// coordinate, clamped to the mask edge.
pub open spec fn mask_coord(x: int, mdim: int) -> int {
    if x / 2 <= mdim - 1 {
        x / 2
    } else {
        mdim - 1
    }
}

/// The summed radiance of the first `k` rays of pixel `(x, y)`.
pub open spec fn spec_ray_sum(
    mask: ColorBuffer,
    df: DistanceField,
    s: VordieLightSettings,
    jitter: int,
    x: int,
    y: int,
    k: int,
) -> (int, int, int)
    decreases k,
{
    if k <= 0 {
        (0, 0, 0)
    } else {
        let prev = spec_ray_sum(mask, df, s, jitter, x, y, k - 1);
        let ang = ray_angle(k - 1, s.u_rays_per_pixel as int, jitter);
        let px = mask_coord(x, mask.width as int) * 1000 + 500;
        let py = mask_coord(y, mask.height as int) * 1000 + 500;
        let r = spec_march(
            mask,
            df,
            s,
            spec_cos_fp(ang),
            spec_sin_fp(ang),
            px,
            py,
            0,
            s.u_max_raymarch_steps as int,
        );
        (prev.0 + r.0, prev.1 + r.1, prev.2 + r.2)
    }
}

/// The raycast output at pixel `(x, y)`: the per-ray average blended with
/// the history sample under the fixed temporal weights.
pub open spec fn spec_raycast_texel(
    mask: ColorBuffer,
    df: DistanceField,
    hist: Rgba,
    s: VordieLightSettings,
    jitter: int,
    x: int,
    y: int,
) -> (int, int, int) {
    let n = s.u_rays_per_pixel as int;
    let sums = spec_ray_sum(mask, df, s, jitter, x, y, n);
    (
        (sums.0 / n * NEW_BLEND + hist.r * HISTORY_BLEND) / 1000,
        (sums.1 / n * NEW_BLEND + hist.g * HISTORY_BLEND) / 1000,
        (sums.2 / n * NEW_BLEND + hist.b * HISTORY_BLEND) / 1000,
    )
}

/// With a zero emission range every ray is out of range before its first
/// step, so marching gathers nothing.
pub proof fn lemma_march_range_zero(
    mask: ColorBuffer,
    df: DistanceField,
    s: VordieLightSettings,
    dirx: int,
    diry: int,
    px: int,
    py: int,
    steps: int,
)
    requires
        s.u_emission_range == 0,
    ensures
        spec_march(mask, df, s, dirx, diry, px, py, 0, steps) == (0int, 0int, 0int),
{
}

/// With a zero emission range the per-ray sums vanish for any ray count.
proof fn lemma_ray_sum_range_zero(
    mask: ColorBuffer,
    df: DistanceField,
    s: VordieLightSettings,
    jitter: int,
    x: int,
    y: int,
    k: int,
)
    requires
        s.u_emission_range == 0,
    ensures
        spec_ray_sum(mask, df, s, jitter, x, y, k) == (0int, 0int, 0int),
    decreases k,
{
    if k > 0 {
        lemma_ray_sum_range_zero(mask, df, s, jitter, x, y, k - 1);
    }
}

/// With a zero emission range, ray marching contributes no radiance at all:
/// the raycast output is exactly the history sample under its blend weight.
pub proof fn lemma_raycast_range_zero(
    mask: ColorBuffer,
    df: DistanceField,
    hist: Rgba,
    s: VordieLightSettings,
    jitter: int,
    x: int,
    y: int,
)
    requires
        s.u_emission_range == 0,
        s.u_rays_per_pixel >= 1,
    ensures
        spec_raycast_texel(mask, df, hist, s, jitter, x, y) == (
            hist.r * HISTORY_BLEND / 1000,
            hist.g * HISTORY_BLEND / 1000,
            hist.b * HISTORY_BLEND / 1000,
        ),
{
    let n = s.u_rays_per_pixel as int;
    lemma_ray_sum_range_zero(mask, df, s, jitter, x, y, n);
    vstd::arithmetic::div_mod::lemma_div_of0(n);
    assert(0int * NEW_BLEND == 0) by (nonlinear_arith);
}

/// The mask texel under a fixed-point coordinate.
fn texel_from_fp(p: i64, dim: u32) -> (tx: u32)
    requires
        1 <= dim <= crate::color::MAX_DIM,
    ensures
        tx == texel_of_fp(p as int, dim as int),
        tx < dim,
{
    if p <= 0 {
        0
    } else {
        let q: u64 = (p as u64) / 1000;
        if q >= dim as u64 {
            dim - 1
        } else {
            q as u32
        }
    }
}

/// Move a fixed-point coordinate by one step along a direction component.
fn advance(p: i64, dir: i32, step: u32) -> (r: i64)
    requires
        -1000 <= dir <= 1000,
        -40_000_000_000 <= p <= 40_000_000_000,
    ensures
        r == p + dir_scale(dir as int, step as int),
        p - step <= r <= p + step,
{
    if dir >= 0 {
        let d64: u64 = dir as u64;
        let s64: u64 = step as u64;
        assert(d64 * s64 <= 1000 * s64) by (nonlinear_arith)
            requires
                d64 <= 1000u64 && s64 >= 0,
        ;
        let prod: u64 = d64 * s64;
        let delta: u64 = prod / 1000;
        proof {
            vstd::arithmetic::div_mod::lemma_div_is_ordered(prod as int, 1000 * (s64 as int), 1000);
            vstd::arithmetic::div_mod::lemma_div_by_multiple(s64 as int, 1000);
        }
        p + (delta as i64)
    } else {
        let d64: u64 = (-dir) as u64;
        let s64: u64 = step as u64;
        assert(d64 * s64 <= 1000 * s64) by (nonlinear_arith)
            requires
                d64 <= 1000u64 && s64 >= 0,
        ;
        let prod: u64 = d64 * s64;
        let delta: u64 = prod / 1000;
        proof {
            vstd::arithmetic::div_mod::lemma_div_is_ordered(prod as int, 1000 * (s64 as int), 1000);
            vstd::arithmetic::div_mod::lemma_div_by_multiple(s64 as int, 1000);
        }
        p - (delta as i64)
    }
}

/// The falloff factor at traveled distance `t`.
fn falloff_exec(t: u32, dropoff: i32) -> (f: u32)
    requires
        t < 1_000_000,
        0 <= dropoff <= 1_000_000,
    ensures
        f == falloff_fp(t as int, dropoff as int),
        f <= 1000,
{
    let d64: u64 = dropoff as u64;
    let t64: u64 = t as u64;
    assert(d64 * t64 <= 1_000_000u64 * 1_000_000) by (nonlinear_arith)
        requires
            d64 <= 1_000_000u64 && t64 <= 1_000_000u64,
    ;
    let prod: u64 = d64 * t64;
    let den: u64 = 1000 + prod / 1000;
    let f: u64 = 1_000_000 / den;
    proof {
        vstd::arithmetic::div_mod::lemma_div_is_ordered_by_denominator(1_000_000, 1000, den as int);
    }
    f as u32
}

/// One gathered emitter channel.
fn emitter_channel_exec(ch: u32, multi: i32, fall: u32) -> (v: u32)
    requires
        ch <= CHANNEL_MAX,
        0 <= multi <= 1_000_000,
        fall <= 1000,
    ensures
        v as int == emitter_channel(ch as int, multi as int, fall as int),
        v <= CHANNEL_MAX,
{
    let ch64: u64 = ch as u64;
    let m64: u64 = multi as u64;
    assert(ch64 * m64 <= 1_000_000_000u64 * 1_000_000) by (nonlinear_arith)
        requires
            ch64 <= 1_000_000_000u64 && m64 <= 1_000_000u64,
    ;
    let a: u64 = ch64 * m64;
    let b: u64 = a / 1000;
    let fall64: u64 = fall as u64;
    assert(b * fall64 <= 1_000_000_000_000u64 * 1000) by (nonlinear_arith)
        requires
            b <= 1_000_000_000_000u64 && fall64 <= 1000u64,
    ;
    let c: u64 = b * fall64;
    let d: u64 = c / 1000;
    if d > CHANNEL_MAX as u64 {
        CHANNEL_MAX
    } else {
        d as u32
    }
}

/// March one ray to completion, mirroring `spec_march`.
fn march_ray(
    mask: &ColorBuffer,
    df: &DistanceField,
    s: &VordieLightSettings,
    dirx: i32,
    diry: i32,
    px: i64,
    py: i64,
    t: u64,
    steps: i32,
) -> (rad: (u32, u32, u32))
    requires
        mask.wf(),
        df.wf(),
        df.width == mask.width,
        df.height == mask.height,
        mask.width >= 1,
        mask.height >= 1,
        s.sane(),
        -1000 <= dirx <= 1000,
        -1000 <= diry <= 1000,
        t <= 6_000_000_000,
        -20_000_000_000 - 2 * t <= px <= 20_000_000_000 + 2 * t,
        -20_000_000_000 - 2 * t <= py <= 20_000_000_000 + 2 * t,
    ensures
        (rad.0 as int, rad.1 as int, rad.2 as int) == spec_march(
            *mask,
            *df,
            *s,
            dirx as int,
            diry as int,
            px as int,
            py as int,
            t as int,
            steps as int,
        ),
        rad.0 <= CHANNEL_MAX,
        rad.1 <= CHANNEL_MAX,
        rad.2 <= CHANNEL_MAX,
    decreases steps,
{
    if steps <= 0 {
        return (0, 0, 0);
    }
    if t >= s.u_emission_range as u64 {
        return (0, 0, 0);
    }
    let tx = texel_from_fp(px, mask.width);
    let ty = texel_from_fp(py, mask.height);
    let c = mask.get(tx, ty);
    if crate::extract::is_emitter(c) {
        let fall = falloff_exec(t as u32, s.u_emission_dropoff);
        (
            emitter_channel_exec(c.r, s.u_emission_multi, fall),
            emitter_channel_exec(c.g, s.u_emission_multi, fall),
            emitter_channel_exec(c.b, s.u_emission_multi, fall),
        )
    } else {
        let d = df.get(tx, ty);
        let step: u32 = if d < MIN_STEP {
            MIN_STEP
        } else {
            d
        };
        let px2 = advance(px, dirx, step);
        let py2 = advance(py, diry, step);
        march_ray(mask, df, s, dirx, diry, px2, py2, t + step as u64, steps - 1)
    }
}

/// The direction of ray `k` of `n` under the frame's jitter angle.
fn ray_dir(k: u32, n: u32, jitter: u32) -> (d: (i32, i32))
    requires
        k < n,
        n <= 4096,
        jitter < 65536,
    ensures
        d.0 == spec_cos_fp(ray_angle(k as int, n as int, jitter as int)),
        d.1 == spec_sin_fp(ray_angle(k as int, n as int, jitter as int)),
        -1000 <= d.0 <= 1000,
        -1000 <= d.1 <= 1000,
{
    let a: u32 = (k * 65536 / n + jitter) % 65536;
    proof {
        crate::fp::lemma_sin_fp_bounds(((a as int + 16384) % 65536) as int);
    }
    (crate::fp::cos_fp(a), crate::fp::sin_fp(a))
}

/// Sums of saturated channels stay within the step budget times the cap.
proof fn lemma_ray_sum_bound(
    mask: ColorBuffer,
    df: DistanceField,
    s: VordieLightSettings,
    jitter: int,
    x: int,
    y: int,
    k: int,
)
    requires
        s.sane(),
        k >= 0,
    ensures
        ({
            let sums = spec_ray_sum(mask, df, s, jitter, x, y, k);
            0 <= sums.0 <= k * CHANNEL_MAX && 0 <= sums.1 <= k * CHANNEL_MAX && 0 <= sums.2 <= k
                * CHANNEL_MAX
        }),
    decreases k,
{
    if k > 0 {
        lemma_ray_sum_bound(mask, df, s, jitter, x, y, k - 1);
        let ang = ray_angle(k - 1, s.u_rays_per_pixel as int, jitter);
        let px = mask_coord(x, mask.width as int) * 1000 + 500;
        let py = mask_coord(y, mask.height as int) * 1000 + 500;
        lemma_march_bound(
            mask,
            df,
            s,
            spec_cos_fp(ang),
            spec_sin_fp(ang),
            px,
            py,
            0,
            s.u_max_raymarch_steps as int,
        );
        assert(k * CHANNEL_MAX == (k - 1) * CHANNEL_MAX + CHANNEL_MAX) by (nonlinear_arith);
    }
}

/// Each marched channel is saturated at the channel cap.
proof fn lemma_march_bound(
    mask: ColorBuffer,
    df: DistanceField,
    s: VordieLightSettings,
    dirx: int,
    diry: int,
    px: int,
    py: int,
    t: int,
    steps: int,
)
    requires
        s.sane(),
        t >= 0,
    ensures
        ({
            let r = spec_march(mask, df, s, dirx, diry, px, py, t, steps);
            0 <= r.0 <= CHANNEL_MAX && 0 <= r.1 <= CHANNEL_MAX && 0 <= r.2 <= CHANNEL_MAX
        }),
    decreases steps,
{
    if steps > 0 && t < s.u_emission_range {
        let tx = texel_of_fp(px, mask.width as int);
        let ty = texel_of_fp(py, mask.height as int);
        let c = mask.spec_at(tx, ty);
        if spec_is_emitter(c) {
            let dropoff = s.u_emission_dropoff as int;
            let prod = dropoff * t;
            assert(prod >= 0) by (nonlinear_arith)
                requires
                    dropoff >= 0 && t >= 0 && prod == dropoff * t,
            ;
            vstd::arithmetic::div_mod::lemma_div_pos_is_pos(prod, 1000);
            let fall = falloff_fp(t, dropoff);
            vstd::arithmetic::div_mod::lemma_div_pos_is_pos(1000000, 1000 + prod / 1000);
            lemma_emitter_channel_bound(c.r as int, s.u_emission_multi as int, fall);
            lemma_emitter_channel_bound(c.g as int, s.u_emission_multi as int, fall);
            lemma_emitter_channel_bound(c.b as int, s.u_emission_multi as int, fall);
        } else {
            let d = df.spec_at(tx, ty) as int;
            let step = if d < MIN_STEP {
                MIN_STEP as int
            } else {
                d
            };
            lemma_march_bound(
                mask,
                df,
                s,
                dirx,
                diry,
                px + dir_scale(dirx, step),
                py + dir_scale(diry, step),
                t + step,
                steps - 1,
            );
        }
    }
}

/// A gathered channel lands in the valid channel range.
proof fn lemma_emitter_channel_bound(ch: int, multi: int, fall: int)
    requires
        ch >= 0,
        multi >= 0,
        fall >= 0,
    ensures
        0 <= emitter_channel(ch, multi, fall) <= CHANNEL_MAX,
{
    let a = ch * multi;
    assert(a >= 0) by (nonlinear_arith)
        requires
            ch >= 0 && multi >= 0 && a == ch * multi,
    ;
    vstd::arithmetic::div_mod::lemma_div_pos_is_pos(a, 1000);
    let b = a / 1000;
    let c = b * fall;
    assert(c >= 0) by (nonlinear_arith)
        requires
            b >= 0 && fall >= 0 && c == b * fall,
    ;
    vstd::arithmetic::div_mod::lemma_div_pos_is_pos(c, 1000);
}

/// The averaged per-ray sum stays within the channel cap.
proof fn lemma_avg_bound(sum: int, n: int, cap: int)
    requires
        0 <= sum <= n * cap,
        n >= 1,
        cap >= 0,
    ensures
        0 <= sum / n <= cap,
{
    vstd::arithmetic::div_mod::lemma_div_pos_is_pos(sum, n);
    vstd::arithmetic::div_mod::lemma_div_is_ordered(sum, n * cap, n);
    vstd::arithmetic::div_mod::lemma_div_by_multiple(cap, n);
    assert(n * cap == cap * n) by (nonlinear_arith);
}

/// Compute the raycast output for one pixel.
fn raycast_pixel(
    mask: &ColorBuffer,
    df: &DistanceField,
    hist: Rgba,
    s: &VordieLightSettings,
    jitter: u32,
    x: u32,
    y: u32,
) -> (out: Rgba)
    requires
        mask.wf(),
        df.wf(),
        df.width == mask.width,
        df.height == mask.height,
        mask.width >= 1,
        mask.height >= 1,
        s.sane(),
        jitter < 65536,
        hist.wf(),
    ensures
        out == ({
            let v = spec_raycast_texel(*mask, *df, hist, *s, jitter as int, x as int, y as int);
            Rgba { r: v.0 as u32, g: v.1 as u32, b: v.2 as u32, a: 1000u32 }
        }),
        out.wf(),
{
    let n: u32 = s.u_rays_per_pixel as u32;
    let mxq: u32 = x / 2;
    let sxm: u32 = if mxq <= mask.width - 1 {
        mxq
    } else {
        mask.width - 1
    };
    let myq: u32 = y / 2;
    let sym: u32 = if myq <= mask.height - 1 {
        myq
    } else {
        mask.height - 1
    };
    let px0: i64 = (sxm as i64) * 1000 + 500;
    let py0: i64 = (sym as i64) * 1000 + 500;
    let mut sr: u64 = 0;
    let mut sg: u64 = 0;
    let mut sb: u64 = 0;
    let mut k: u32 = 0;
    while k < n
        invariant
            k <= n,
            1 <= n <= 4096,
            n == s.u_rays_per_pixel,
            mask.wf(),
            df.wf(),
            df.width == mask.width,
            df.height == mask.height,
            mask.width >= 1,
            mask.height >= 1,
            s.sane(),
            jitter < 65536,
            px0 == mask_coord(x as int, mask.width as int) * 1000 + 500,
            py0 == mask_coord(y as int, mask.height as int) * 1000 + 500,
            0 <= px0 <= 20_000_000,
            0 <= py0 <= 20_000_000,
            (sr as int, sg as int, sb as int) == spec_ray_sum(
                *mask,
                *df,
                *s,
                jitter as int,
                x as int,
                y as int,
                k as int,
            ),
            sr <= k as u64 * 1_000_000_000,
            sg <= k as u64 * 1_000_000_000,
            sb <= k as u64 * 1_000_000_000,
        decreases n - k,
    {
        let (dx, dy) = ray_dir(k, n, jitter);
        let r = march_ray(mask, df, s, dx, dy, px0, py0, 0, s.u_max_raymarch_steps);
        proof {
            assert((k + 1) as u64 * 1_000_000_000 == k as u64 * 1_000_000_000 + 1_000_000_000)
                by (nonlinear_arith);
        }
        sr = sr + r.0 as u64;
        sg = sg + r.1 as u64;
        sb = sb + r.2 as u64;
        k = k + 1;
    }
    proof {
        lemma_ray_sum_bound(*mask, *df, *s, jitter as int, x as int, y as int, n as int);
        let sums = spec_ray_sum(*mask, *df, *s, jitter as int, x as int, y as int, n as int);
        lemma_avg_bound(sums.0, n as int, CHANNEL_MAX as int);
        lemma_avg_bound(sums.1, n as int, CHANNEL_MAX as int);
        lemma_avg_bound(sums.2, n as int, CHANNEL_MAX as int);
    }
    let ar: u64 = sr / n as u64;
    let ag: u64 = sg / n as u64;
    let ab: u64 = sb / n as u64;
    let orr: u64 = (ar * NEW_BLEND as u64 + hist.r as u64 * HISTORY_BLEND as u64) / 1000;
    let org: u64 = (ag * NEW_BLEND as u64 + hist.g as u64 * HISTORY_BLEND as u64) / 1000;
    let orb: u64 = (ab * NEW_BLEND as u64 + hist.b as u64 * HISTORY_BLEND as u64) / 1000;
    Rgba { r: orr as u32, g: org as u32, b: orb as u32, a: 1000 }
}

/// Run the raycast pass: one output texel per history texel, at full
/// resolution.
pub fn gi_raycast(
    mask: &ColorBuffer,
    df: &DistanceField,
    hist: &ColorBuffer,
    s: &VordieLightSettings,
    jitter: u32,
) -> (out: ColorBuffer)
    requires
        mask.wf(),
        df.wf(),
        hist.wf(),
        df.width == mask.width,
        df.height == mask.height,
        mask.width >= 1,
        mask.height >= 1,
        hist.width >= 1,
        hist.height >= 1,
        s.sane(),
        jitter < 65536,
    ensures
        out.wf(),
        is_raycast_of(*mask, *df, *hist, *s, jitter as int, out),
{
    let w: u32 = hist.width;
    let h: u32 = hist.height;
    assert(w * h <= 0x1000_0000) by (nonlinear_arith)
        requires
            w <= 16384u32 && h <= 16384u32,
    ;
    let total: usize = (w as usize) * (h as usize);
    let mut data: Vec<Rgba> = Vec::new();
    let mut kk: usize = 0;
    while kk < total
        invariant
            kk <= total,
            total == w * h,
            w == hist.width,
            h == hist.height,
            mask.wf(),
            df.wf(),
            hist.wf(),
            df.width == mask.width,
            df.height == mask.height,
            mask.width >= 1,
            mask.height >= 1,
            w >= 1,
            h >= 1,
            s.sane(),
            jitter < 65536,
            data.len() == kk,
            forall|j: int| 0 <= j < kk ==> (#[trigger] data[j]).wf(),
            forall|j: int|
                0 <= j < kk ==> #[trigger] data[j] == ({
                    let xj = j % (w as int);
                    let yj = j / (w as int);
                    let v = spec_raycast_texel(
                        *mask,
                        *df,
                        hist.spec_at(xj, yj),
                        *s,
                        jitter as int,
                        xj,
                        yj,
                    );
                    Rgba { r: v.0 as u32, g: v.1 as u32, b: v.2 as u32, a: 1000u32 }
                }),
        decreases total - kk,
    {
        let x: usize = kk % (w as usize);
        let y: usize = kk / (w as usize);
        assert(y < h) by (nonlinear_arith)
            requires
                kk < w * h,
                w >= 1,
                y == kk / (w as usize) && kk >= 0,
        ;
        let hc = hist.get(x as u32, y as u32);
        let c = raycast_pixel(mask, df, hc, s, jitter, x as u32, y as u32);
        data.push(c);
        kk = kk + 1;
    }
    let out = ColorBuffer { width: w, height: h, data };
    proof {
        assert forall|x: int, y: int|
            0 <= x < out.width && 0 <= y < out.height implies #[trigger] out.spec_at(x, y) == (
        {
            let v = spec_raycast_texel(*mask, *df, hist.spec_at(x, y), *s, jitter as int, x, y);
            Rgba { r: v.0 as u32, g: v.1 as u32, b: v.2 as u32, a: 1000u32 }
        }) by {
            crate::color::lemma_row_major_index(x, y, w as int, h as int);
            lemma_fundamental_div_mod_converse(y * (w as int) + x, w as int, y, x);
        }
    }
    out
}

/// `out` is exactly the raycast pass's output over `mask`, `df` and the
/// history read surface `hist`.
pub open spec fn is_raycast_of(
    mask: ColorBuffer,
    df: DistanceField,
    hist: ColorBuffer,
    s: VordieLightSettings,
    jitter: int,
    out: ColorBuffer,
) -> bool {
    &&& out.width == hist.width
    &&& out.height == hist.height
    &&& forall|x: int, y: int|
        0 <= x < out.width && 0 <= y < out.height ==> #[trigger] out.spec_at(x, y) == (
        {
            let v = spec_raycast_texel(mask, df, hist.spec_at(x, y), s, jitter, x, y);
            Rgba { r: v.0 as u32, g: v.1 as u32, b: v.2 as u32, a: 1000u32 }
        })
}

} // verus!
