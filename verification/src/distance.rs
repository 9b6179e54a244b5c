//! The distance field builder.
//!
//! One pass converts the final seed buffer into a scalar field: each texel
//! holds the fixed-point Euclidean distance from its own position to the
//! seed coordinate it stores, scaled by the distance modifier and saturated
//! at `DIST_MAX`. A texel the flood never reached (possible only in an
//! occluder-free scene) gets `DIST_MAX` rather than a sentinel, so no
//! downstream consumer ever branches on "no seed".

use crate::color::MAX_DIM;
use crate::fp::FP_ONE;
use crate::jfa::dist2;
use crate::seed::SeedBuffer;
use vstd::arithmetic::div_mod::lemma_fundamental_div_mod_converse;
use vstd::prelude::*;

verus! {

/// The distance written where no seed exists, and the saturation bound for
/// computed distances: the largest representable field value.
pub const DIST_MAX: u32 = 0xFFFF_FFFF;

/// The floor of the real square root of `n`.
pub open spec fn sqrt_floor(n: nat) -> nat
    decreases n,
{
    if n == 0 {
        0
    } else {
        let s = sqrt_floor((n - 1) as nat);
        if (s + 1) * (s + 1) <= n {
            s + 1
        } else {
            s
        }
    }
}

/// `sqrt_floor` is what its name says.
pub proof fn lemma_sqrt_floor_bounds(n: nat)
    ensures
        sqrt_floor(n) * sqrt_floor(n) <= n,
        (sqrt_floor(n) + 1) * (sqrt_floor(n) + 1) > n,
    decreases n,
{
    if n == 0 {
        let r = sqrt_floor(n);
        assert(r == 0);
        assert(r * r <= n && (r + 1) * (r + 1) > n) by (nonlinear_arith)
            requires
                r == 0 && n == 0,
        ;
    } else {
        lemma_sqrt_floor_bounds((n - 1) as nat);
        let s = sqrt_floor((n - 1) as nat);
        assert(s * s <= n - 1);
        assert((s + 1) * (s + 1) > n - 1);
        if (s + 1) * (s + 1) <= n {
            assert(sqrt_floor(n) == s + 1);
            assert(n == (s + 1) * (s + 1));
            assert((s + 1 + 1) * (s + 1 + 1) > n) by (nonlinear_arith)
                requires
                    n == (s + 1) * (s + 1) && s >= 0,
            ;
        } else {
            assert(sqrt_floor(n) == s);
        }
        assert(sqrt_floor(n) * sqrt_floor(n) <= n);
        assert((sqrt_floor(n) + 1) * (sqrt_floor(n) + 1) > n);
    }
}

/// Any two values squeezed between the same square bounds are equal.
pub proof fn lemma_sqrt_floor_unique(n: nat, r: nat)
    requires
        r * r <= n,
        (r + 1) * (r + 1) > n,
    ensures
        r == sqrt_floor(n),
{
    lemma_sqrt_floor_bounds(n);
    let s = sqrt_floor(n);
    assert(r == s) by (nonlinear_arith)
        requires
            r * r <= n,
            (r + 1) * (r + 1) > n,
            s * s <= n,
            (s + 1) * (s + 1) > n,
            r >= 0,
            s >= 0,
    ;
}

/// A scalar distance surface in row-major order.
pub struct DistanceField {
    pub width: u32,
    pub height: u32,
    pub data: Vec<u32>,
}

impl DistanceField {
    pub open spec fn wf(self) -> bool {
        &&& self.width <= MAX_DIM
        &&& self.height <= MAX_DIM
        &&& self.data.len() == self.width * self.height
    }

    /// The field value at column `x` of row `y`.
    pub open spec fn spec_at(self, x: int, y: int) -> u32 {
        self.data[y * self.width + x]
    }

    /// Read the field value at `(x, y)`.
    pub fn get(&self, x: u32, y: u32) -> (d: u32)
        requires
            self.wf(),
            x < self.width,
            y < self.height,
        ensures
            d == self.spec_at(x as int, y as int),
    {
        proof {
            crate::color::lemma_row_major_index(
                x as int,
                y as int,
                self.width as int,
                self.height as int,
            );
        }
        let idx: usize = (y as usize) * (self.width as usize) + (x as usize);
        self.data[idx]
    }
}

/// What the builder writes at `(x, y)`: the seed's fixed-point Euclidean
/// distance scaled by `dist_mod` milli-units and saturated, or `DIST_MAX`
/// where no seed arrived.
pub open spec fn distance_texel(seed: SeedBuffer, dist_mod: int, x: int, y: int) -> int {
    match seed.spec_at(x, y) {
        Some(c) => {
            let dfp = sqrt_floor((dist2(x, y, c) * FP_ONE * FP_ONE) as nat);
            let v = dist_mod * dfp / (FP_ONE as int);
            if v > DIST_MAX {
                DIST_MAX as int
            } else {
                v
            }
        },
        None => DIST_MAX as int,
    }
}

/// `df` is exactly the distance field built from `seed` under `dist_mod`.
pub open spec fn is_distance_field_of(seed: SeedBuffer, dist_mod: int, df: DistanceField) -> bool {
    &&& df.width == seed.width
    &&& df.height == seed.height
    &&& forall|x: int, y: int|
        0 <= x < seed.width && 0 <= y < seed.height ==> #[trigger] df.spec_at(x, y)
            == distance_texel(seed, dist_mod, x, y)
}

/// Build the distance field for `seed`, scaling by the sanitized settings'
/// distance modifier.
pub fn build_distance_field(seed: &SeedBuffer, dist_mod: i32) -> (df: DistanceField)
    requires
        seed.wf(),
        seed.width >= 1,
        seed.height >= 1,
        1 <= dist_mod <= crate::settings::MAX_SETTING_FP,
    ensures
        df.wf(),
        is_distance_field_of(*seed, dist_mod as int, df),
{
    let w: u32 = seed.width;
    let h: u32 = seed.height;
    assert(w * h <= 0x1000_0000) by (nonlinear_arith)
        requires
            w <= 16384u32 && h <= 16384u32,
    ;
    let total: usize = (w as usize) * (h as usize);
    let mut data: Vec<u32> = Vec::new();
    let mut k: usize = 0;
    while k < total
        invariant
            k <= total,
            total == w * h,
            w == seed.width,
            h == seed.height,
            seed.wf(),
            w >= 1,
            h >= 1,
            1 <= dist_mod <= 1_000_000,
            data.len() == k,
            forall|j: int|
                0 <= j < k ==> #[trigger] data[j] == distance_texel(
                    *seed,
                    dist_mod as int,
                    j % (w as int),
                    j / (w as int),
                ),
        decreases total - k,
    {
        let x: usize = k % (w as usize);
        let y: usize = k / (w as usize);
        assert(y < h) by (nonlinear_arith)
            requires
                k < w * h,
                w >= 1,
                y == k / (w as usize) && k >= 0,
        ;
        let v: u32 = match seed.get(x as u32, y as u32) {
            Some(c) => {
                let d2: i64 = crate::jfa::dist2_exec(x as u32, y as u32, c);
                let scaled: u64 = (d2 as u64) * (FP_ONE as u64) * (FP_ONE as u64);
                let dfp: u64 = crate::fp::isqrt_u64(scaled);
                proof {
                    lemma_sqrt_floor_unique(scaled as nat, dfp as nat);
                    assert(scaled <= 536_870_912u64 * 1000 * 1000);
                    assert(dfp <= 30_000_000) by (nonlinear_arith)
                        requires
                            dfp * dfp <= 536_870_912u64 * 1000 * 1000 && dfp >= 0,
                    ;
                    assert((dist_mod as u64) * dfp <= 1_000_000u64 * 30_000_000) by (
                    nonlinear_arith)
                        requires
                            0 <= dist_mod <= 1_000_000 && 0 <= dfp <= 30_000_000u64,
                    ;
                }
                let scaled_mod: u64 = (dist_mod as u64) * dfp / (FP_ONE as u64);
                if scaled_mod > DIST_MAX as u64 {
                    DIST_MAX
                } else {
                    scaled_mod as u32
                }
            },
            None => DIST_MAX,
        };
        data.push(v);
        k = k + 1;
    }
    let df = DistanceField { width: w, height: h, data };
    proof {
        assert forall|x: int, y: int|
            0 <= x < w && 0 <= y < h implies #[trigger] df.spec_at(x, y) == distance_texel(
            *seed,
            dist_mod as int,
            x,
            y,
        ) by {
            crate::color::lemma_row_major_index(x, y, w as int, h as int);
            lemma_fundamental_div_mod_converse(y * (w as int) + x, w as int, y, x);
        }
    }
    df
}

/// Over a seed buffer stamped everywhere with the single coordinate `c0`,
/// the field value at any texel is the distance modifier times the
/// fixed-point Euclidean distance to `c0` (saturated at `DIST_MAX`): the
/// integer form of `dist_mod * sqrt((x - x0)^2 + (y - y0)^2)`.
pub proof fn lemma_distance_single_seed(
    seed: SeedBuffer,
    dist_mod: int,
    df: DistanceField,
    c0: crate::seed::Coord,
)
    requires
        is_distance_field_of(seed, dist_mod, df),
        forall|x: int, y: int|
            0 <= x < seed.width && 0 <= y < seed.height ==> #[trigger] seed.spec_at(x, y) == Some(
                c0,
            ),
    ensures
        forall|x: int, y: int|
            0 <= x < df.width && 0 <= y < df.height ==> #[trigger] df.spec_at(x, y)
                == spec_min_u32(
                dist_mod * sqrt_floor((dist2(x, y, c0) * FP_ONE * FP_ONE) as nat) / (
                FP_ONE as int),
                DIST_MAX as int,
            ),
{
    assert forall|x: int, y: int|
        0 <= x < df.width && 0 <= y < df.height implies #[trigger] df.spec_at(x, y)
        == spec_min_u32(
        dist_mod * sqrt_floor((dist2(x, y, c0) * FP_ONE * FP_ONE) as nat) / (FP_ONE as int),
        DIST_MAX as int,
    ) by {
        assert(seed.spec_at(x, y) == Some(c0));
        assert(df.spec_at(x, y) == distance_texel(seed, dist_mod, x, y));
    }
}

/// The smaller of a value and a cap.
pub open spec fn spec_min_u32(v: int, cap: int) -> int {
    if v > cap {
        cap
    } else {
        v
    }
}

} // verus!
