//! The denoiser and history writer.
//!
//! The last pass of a frame applies a small spatial box filter to the raw
//! raycast result: each output texel is the channel-wise average of the
//! up-to-nine in-bounds texels around it. The same filtered surface is both
//! the frame's display color and the new history entry; the history role
//! swap itself happens at the start of the next frame, not here.

use crate::color::ColorBuffer;
use crate::color::Rgba;
use crate::color::CHANNEL_MAX;
use vstd::arithmetic::div_mod::lemma_fundamental_div_mod_converse;
use vstd::prelude::*;

verus! {

/// One filter tap: the channels of the texel at `(sx, sy)` and a count of
/// one, or all zeros when the tap falls outside the surface.
pub open spec fn tap(src: ColorBuffer, sx: int, sy: int) -> (int, int, int, int, int) {
    if 0 <= sx < src.width && 0 <= sy < src.height {
        let c = src.spec_at(sx, sy);
        (c.r as int, c.g as int, c.b as int, c.a as int, 1int)
    } else {
        (0int, 0int, 0int, 0int, 0int)
    }
}

/// Add two taps channel-wise.
pub open spec fn tap_add(a: (int, int, int, int, int), b: (int, int, int, int, int)) -> (
    int,
    int,
    int,
    int,
    int,
) {
    (a.0 + b.0, a.1 + b.1, a.2 + b.2, a.3 + b.3, a.4 + b.4)
}

/// The nine taps of the box kernel around `(x, y)`, summed.
pub open spec fn box_sum(src: ColorBuffer, x: int, y: int) -> (int, int, int, int, int) {
    let s0 = tap(src, x - 1, y - 1);
    let s1 = tap_add(s0, tap(src, x, y - 1));
    let s2 = tap_add(s1, tap(src, x + 1, y - 1));
    let s3 = tap_add(s2, tap(src, x - 1, y));
    let s4 = tap_add(s3, tap(src, x, y));
    let s5 = tap_add(s4, tap(src, x + 1, y));
    let s6 = tap_add(s5, tap(src, x - 1, y + 1));
    let s7 = tap_add(s6, tap(src, x, y + 1));
    tap_add(s7, tap(src, x + 1, y + 1))
}

/// The filtered texel at `(x, y)`: the box sum divided by the number of
/// in-bounds taps.
pub open spec fn denoise_texel(src: ColorBuffer, x: int, y: int) -> (int, int, int, int) {
    let s = box_sum(src, x, y);
    (s.0 / s.4, s.1 / s.4, s.2 / s.4, s.3 / s.4)
}

/// `out` is exactly the denoiser's output for `src`.
pub open spec fn is_denoise_of(src: ColorBuffer, out: ColorBuffer) -> bool {
    &&& out.width == src.width
    &&& out.height == src.height
    &&& forall|x: int, y: int|
        0 <= x < src.width && 0 <= y < src.height ==> #[trigger] out.spec_at(x, y) == ({
            let v = denoise_texel(src, x, y);
            Rgba { r: v.0 as u32, g: v.1 as u32, b: v.2 as u32, a: v.3 as u32 }
        })
}

/// Fold one filter tap into running sums, mirroring `tap`/`tap_add`.
fn add_tap(src: &ColorBuffer, acc: (u64, u64, u64, u64, u32), sx: i64, sy: i64) -> (r: (
    u64,
    u64,
    u64,
    u64,
    u32,
))
    requires
        src.wf(),
        acc.0 <= acc.4 * CHANNEL_MAX,
        acc.1 <= acc.4 * CHANNEL_MAX,
        acc.2 <= acc.4 * CHANNEL_MAX,
        acc.3 <= acc.4 * CHANNEL_MAX,
        acc.4 <= 8,
    ensures
        (r.0 as int, r.1 as int, r.2 as int, r.3 as int, r.4 as int) == tap_add(
            (acc.0 as int, acc.1 as int, acc.2 as int, acc.3 as int, acc.4 as int),
            tap(*src, sx as int, sy as int),
        ),
        r.0 <= r.4 * CHANNEL_MAX,
        r.1 <= r.4 * CHANNEL_MAX,
        r.2 <= r.4 * CHANNEL_MAX,
        r.3 <= r.4 * CHANNEL_MAX,
        r.4 <= acc.4 + 1,
        r.4 >= acc.4,
{
    if sx >= 0 && sx < src.width as i64 && sy >= 0 && sy < src.height as i64 {
        let c = src.get(sx as u32, sy as u32);
        proof {
            assert((acc.4 + 1) * CHANNEL_MAX == acc.4 * CHANNEL_MAX + CHANNEL_MAX)
                by (nonlinear_arith);
        }
        (
            acc.0 + c.r as u64,
            acc.1 + c.g as u64,
            acc.2 + c.b as u64,
            acc.3 + c.a as u64,
            acc.4 + 1,
        )
    } else {
        acc
    }
}

/// Apply the box filter to the raycast result, producing the display color
/// and new history entry.
pub fn gi_denoise(src: &ColorBuffer) -> (out: ColorBuffer)
    requires
        src.wf(),
        src.width >= 1,
        src.height >= 1,
    ensures
        out.wf(),
        is_denoise_of(*src, out),
{
    let w: u32 = src.width;
    let h: u32 = src.height;
    assert(w * h <= 0x1000_0000) by (nonlinear_arith)
        requires
            w <= 16384u32 && h <= 16384u32,
    ;
    let total: usize = (w as usize) * (h as usize);
    let mut data: Vec<Rgba> = Vec::new();
    let mut k: usize = 0;
    while k < total
        invariant
            k <= total,
            total == w * h,
            w == src.width,
            h == src.height,
            src.wf(),
            w >= 1,
            h >= 1,
            data.len() == k,
            forall|j: int| 0 <= j < k ==> (#[trigger] data[j]).wf(),
            forall|j: int|
                0 <= j < k ==> #[trigger] data[j] == ({
                    let v = denoise_texel(*src, j % (w as int), j / (w as int));
                    Rgba { r: v.0 as u32, g: v.1 as u32, b: v.2 as u32, a: v.3 as u32 }
                }),
        decreases total - k,
    {
        let x: usize = k % (w as usize);
        let y: usize = k / (w as usize);
        assert(y < h) by (nonlinear_arith)
            requires
                k < w * h,
                w >= 1,
                y == k / (w as usize) && k >= 0,
        ;
        let xi: i64 = x as i64;
        let yi: i64 = y as i64;
        let a0: (u64, u64, u64, u64, u32) = (0, 0, 0, 0, 0);
        let a1 = add_tap(src, a0, xi - 1, yi - 1);
        let a2 = add_tap(src, a1, xi, yi - 1);
        let a3 = add_tap(src, a2, xi + 1, yi - 1);
        let a4 = add_tap(src, a3, xi - 1, yi);
        let a5 = add_tap(src, a4, xi, yi);
        let a6 = add_tap(src, a5, xi + 1, yi);
        let a7 = add_tap(src, a6, xi - 1, yi + 1);
        let a8 = add_tap(src, a7, xi, yi + 1);
        let a9 = add_tap(src, a8, xi + 1, yi + 1);
        proof {
            assert(a5.4 >= a4.4 + 1);
            lemma_avg_in_range(a9.0 as int, a9.4 as int);
            lemma_avg_in_range(a9.1 as int, a9.4 as int);
            lemma_avg_in_range(a9.2 as int, a9.4 as int);
            lemma_avg_in_range(a9.3 as int, a9.4 as int);
        }
        let c = Rgba {
            r: (a9.0 / a9.4 as u64) as u32,
            g: (a9.1 / a9.4 as u64) as u32,
            b: (a9.2 / a9.4 as u64) as u32,
            a: (a9.3 / a9.4 as u64) as u32,
        };
        data.push(c);
        k = k + 1;
    }
    let out = ColorBuffer { width: w, height: h, data };
    proof {
        assert forall|x: int, y: int|
            0 <= x < src.width && 0 <= y < src.height implies #[trigger] out.spec_at(x, y) == ({
            let v = denoise_texel(*src, x, y);
            Rgba { r: v.0 as u32, g: v.1 as u32, b: v.2 as u32, a: v.3 as u32 }
        }) by {
            crate::color::lemma_row_major_index(x, y, w as int, h as int);
            lemma_fundamental_div_mod_converse(y * (w as int) + x, w as int, y, x);
        }
    }
    out
}

/// The average of at least one in-range channel sum is itself in range.
proof fn lemma_avg_in_range(sum: int, count: int)
    requires
        count >= 1,
        0 <= sum <= count * CHANNEL_MAX,
    ensures
        0 <= sum / count <= CHANNEL_MAX,
{
    vstd::arithmetic::div_mod::lemma_div_pos_is_pos(sum, count);
    vstd::arithmetic::div_mod::lemma_div_is_ordered(sum, count * CHANNEL_MAX, count);
    vstd::arithmetic::div_mod::lemma_div_by_multiple(CHANNEL_MAX as int, count);
    assert(count * CHANNEL_MAX == CHANNEL_MAX * count) by (nonlinear_arith);
}

} // verus!
