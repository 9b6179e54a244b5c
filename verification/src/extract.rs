//! The emitter/occluder extractor.
//!
//! The first pass of every frame reduces the scene image to a half-resolution
//! mask by nearest (non-filtering) sampling. The mask keeps the full color
//! and alpha of the sampled texel; classifying a texel as occluder or
//! emitter is deferred to the later passes through the threshold predicates
//! below, so the extraction itself is a pure, deterministic resample.

use crate::color::ColorBuffer;
use crate::color::Rgba;
use vstd::arithmetic::div_mod::lemma_fundamental_div_mod_converse;
use vstd::prelude::*;

verus! {

/// A texel blocks light when it has any opacity at all.
pub open spec fn spec_is_occluder(c: Rgba) -> bool {
    c.a > 0
}

/// A texel emits light when it has any brightness at all.
pub open spec fn spec_is_emitter(c: Rgba) -> bool {
    c.r + c.g + c.b > 0
}

/// Whether `c` counts as an occluder (the seeding threshold).
pub fn is_occluder(c: Rgba) -> (r: bool)
    ensures
        r == spec_is_occluder(c),
{
    c.a > 0
}

/// Whether `c` counts as an emitter (the gathering threshold).
pub fn is_emitter(c: Rgba) -> (r: bool)
    ensures
        r == spec_is_emitter(c),
{
    c.r > 0 || c.g > 0 || c.b > 0
}

/// The mask dimension for a scene dimension: half, but never reduced to
/// zero for a non-zero-sized scene.
pub open spec fn half_dim(d: nat) -> nat {
    if d <= 1 {
        d
    } else {
        d / 2
    }
}

/// The scene texel that mask texel `(mx, my)` samples: nearest sampling at
/// twice the coordinate, clamped to the scene edge.
pub open spec fn extract_texel(scene: ColorBuffer, mx: int, my: int) -> Rgba {
    let sx = if 2 * mx <= scene.width - 1 {
        2 * mx
    } else {
        scene.width - 1
    };
    let sy = if 2 * my <= scene.height - 1 {
        2 * my
    } else {
        scene.height - 1
    };
    scene.spec_at(sx, sy)
}

/// `mask` is exactly the extractor's output for `scene`.
pub open spec fn is_extract_of(scene: ColorBuffer, mask: ColorBuffer) -> bool {
    &&& mask.width == half_dim(scene.width as nat)
    &&& mask.height == half_dim(scene.height as nat)
    &&& mask.data.len() == mask.width * mask.height
    &&& forall|k: int|
        0 <= k < mask.data.len() ==> #[trigger] mask.data[k] == extract_texel(
            scene,
            k % (mask.width as int),
            k / (mask.width as int),
        )
}

/// Produce the emitter/occluder mask for `scene`.
pub fn extract_emitters_occluders(scene: &ColorBuffer) -> (mask: ColorBuffer)
    requires
        scene.wf(),
        scene.width >= 1,
        scene.height >= 1,
    ensures
        mask.wf(),
        is_extract_of(*scene, mask),
        forall|x: int, y: int|
            0 <= x < mask.width && 0 <= y < mask.height ==> #[trigger] mask.spec_at(x, y)
                == extract_texel(*scene, x, y),
{
    let mw: u32 = if scene.width <= 1 {
        scene.width
    } else {
        scene.width / 2
    };
    let mh: u32 = if scene.height <= 1 {
        scene.height
    } else {
        scene.height / 2
    };
    assert(mw * mh <= 0x1000_0000) by (nonlinear_arith)
        requires
            mw <= 16384u32 && mh <= 16384u32,
    ;
    let total: usize = (mw as usize) * (mh as usize);
    let mut data: Vec<Rgba> = Vec::new();
    let mut k: usize = 0;
    while k < total
        invariant
            k <= total,
            total == mw * mh,
            mw == half_dim(scene.width as nat),
            mh == half_dim(scene.height as nat),
            1 <= mw <= scene.width,
            1 <= mh <= scene.height,
            scene.wf(),
            scene.width >= 1,
            scene.height >= 1,
            data.len() == k,
            forall|j: int| 0 <= j < k ==> (#[trigger] data[j]).wf(),
            forall|j: int|
                0 <= j < k ==> #[trigger] data[j] == extract_texel(
                    *scene,
                    j % (mw as int),
                    j / (mw as int),
                ),
        decreases total - k,
    {
        let x: usize = k % (mw as usize);
        let y: usize = k / (mw as usize);
        assert(y < mh) by (nonlinear_arith)
            requires
                k < mw * mh,
                mw >= 1,
                y == k / (mw as usize) && k >= 0,
        ;
        let sx: u32 = if 2 * (x as u32) <= scene.width - 1 {
            2 * (x as u32)
        } else {
            scene.width - 1
        };
        let sy: u32 = if 2 * (y as u32) <= scene.height - 1 {
            2 * (y as u32)
        } else {
            scene.height - 1
        };
        let c = scene.get(sx, sy);
        data.push(c);
        k = k + 1;
    }
    let mask = ColorBuffer { width: mw, height: mh, data };
    proof {
        assert forall|x: int, y: int|
            0 <= x < mask.width && 0 <= y < mask.height implies #[trigger] mask.spec_at(x, y)
            == extract_texel(*scene, x, y) by {
            crate::color::lemma_row_major_index(x, y, mw as int, mh as int);
            lemma_fundamental_div_mod_converse(y * (mw as int) + x, mw as int, y, x);
        }
    }
    mask
}

/// Extraction is deterministic: two masks extracted from the same unchanged
/// scene hold identical texels everywhere.
pub proof fn lemma_extract_idempotent(scene: ColorBuffer, m1: ColorBuffer, m2: ColorBuffer)
    requires
        is_extract_of(scene, m1),
        is_extract_of(scene, m2),
    ensures
        m1.width == m2.width,
        m1.height == m2.height,
        m1.data@ =~= m2.data@,
{
}

} // verus!
