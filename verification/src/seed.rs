//! The jump-flood seed buffer and the seeding pass.
//!
//! Each texel of a seed buffer either carries the coordinate of a known
//! occluder texel or the sentinel "no seed yet". The seeding pass marks a
//! texel as a seed exactly when the mask classifies it as an occluder, and a
//! fresh seed always carries the texel's own coordinate.

use crate::color::ColorBuffer;
use crate::color::MAX_DIM;
use crate::extract::spec_is_occluder;
use vstd::arithmetic::div_mod::lemma_fundamental_div_mod_converse;
use vstd::prelude::*;

verus! {

/// A texel coordinate inside a surface.
#[derive(Clone, Copy, PartialEq, Eq, Structural, Debug)]
pub struct Coord {
    pub x: u32,
    pub y: u32,
}

/// A seed-propagation surface: each texel holds the coordinate of the
/// nearest occluder found so far, or `None` while no seed has reached it.
pub struct SeedBuffer {
    pub width: u32,
    pub height: u32,
    pub data: Vec<Option<Coord>>,
}

impl SeedBuffer {
    /// Dimensions in range, storage of the right size, every stored seed
    /// coordinate inside the surface.
    pub open spec fn wf(self) -> bool {
        &&& self.width <= MAX_DIM
        &&& self.height <= MAX_DIM
        &&& self.data.len() == self.width * self.height
        &&& forall|i: int|
            0 <= i < self.data.len() ==> ((#[trigger] self.data[i]) matches Some(c) ==> c.x
                < self.width && c.y < self.height)
    }

    /// The seed entry at column `x` of row `y`.
    pub open spec fn spec_at(self, x: int, y: int) -> Option<Coord> {
        self.data[y * self.width + x]
    }

    /// At least one texel carries a seed.
    pub open spec fn has_any_seed(self) -> bool {
        exists|i: int| 0 <= i < self.data.len() && (#[trigger] self.data[i]) is Some
    }

    /// Read the seed entry at `(x, y)`.
    pub fn get(&self, x: u32, y: u32) -> (s: Option<Coord>)
        requires
            self.wf(),
            x < self.width,
            y < self.height,
        ensures
            s == self.spec_at(x as int, y as int),
            s matches Some(c) ==> c.x < self.width && c.y < self.height,
    {
        proof {
            crate::color::lemma_row_major_index(
                x as int,
                y as int,
                self.width as int,
                self.height as int,
            );
        }
        let idx: usize = (y as usize) * (self.width as usize) + (x as usize);
        self.data[idx]
    }
}

/// What the seeding pass writes at `(x, y)`: the texel's own coordinate when
/// the mask calls it an occluder, the sentinel otherwise.
pub open spec fn seed_texel(mask: ColorBuffer, x: int, y: int) -> Option<Coord> {
    if spec_is_occluder(mask.spec_at(x, y)) {
        Some(Coord { x: x as u32, y: y as u32 })
    } else {
        None
    }
}

/// `seeds` is exactly the seeding pass's output for `mask`.
pub open spec fn is_seed_of(mask: ColorBuffer, seeds: SeedBuffer) -> bool {
    &&& seeds.width == mask.width
    &&& seeds.height == mask.height
    &&& forall|x: int, y: int|
        0 <= x < mask.width && 0 <= y < mask.height ==> #[trigger] seeds.spec_at(x, y)
            == seed_texel(mask, x, y)
}

/// Convert the occluder mask into the initial seed buffer.
pub fn seed_from_mask(mask: &ColorBuffer) -> (seeds: SeedBuffer)
    requires
        mask.wf(),
        mask.width >= 1,
        mask.height >= 1,
    ensures
        seeds.wf(),
        is_seed_of(*mask, seeds),
{
    let mw: u32 = mask.width;
    let mh: u32 = mask.height;
    assert(mw * mh <= 0x1000_0000) by (nonlinear_arith)
        requires
            mw <= 16384u32 && mh <= 16384u32,
    ;
    let total: usize = (mw as usize) * (mh as usize);
    let mut data: Vec<Option<Coord>> = Vec::new();
    let mut k: usize = 0;
    while k < total
        invariant
            k <= total,
            total == mw * mh,
            mw == mask.width,
            mh == mask.height,
            mask.wf(),
            mw >= 1,
            mh >= 1,
            data.len() == k,
            forall|j: int|
                0 <= j < k ==> #[trigger] data[j] == seed_texel(
                    *mask,
                    j % (mw as int),
                    j / (mw as int),
                ),
        decreases total - k,
    {
        let x: usize = k % (mw as usize);
        let y: usize = k / (mw as usize);
        assert(y < mh) by (nonlinear_arith)
            requires
                k < mw * mh,
                mw >= 1,
                y == k / (mw as usize) && k >= 0,
        ;
        let c = mask.get(x as u32, y as u32);
        let entry: Option<Coord> = if crate::extract::is_occluder(c) {
            Some(Coord { x: x as u32, y: y as u32 })
        } else {
            None
        };
        data.push(entry);
        k = k + 1;
    }
    let seeds = SeedBuffer { width: mw, height: mh, data };
    proof {
        assert forall|x: int, y: int|
            0 <= x < mw && 0 <= y < mh implies #[trigger] seeds.spec_at(x, y) == seed_texel(
            *mask,
            x,
            y,
        ) by {
            crate::color::lemma_row_major_index(x, y, mw as int, mh as int);
            lemma_fundamental_div_mod_converse(y * (mw as int) + x, mw as int, y, x);
        }
        assert forall|i: int|
            0 <= i < seeds.data.len() implies ((#[trigger] seeds.data[i]) matches Some(c) ==> c.x
            < mw && c.y < mh) by {
            let x = i % (mw as int);
            let y = i / (mw as int);
            assert(y < mh) by (nonlinear_arith)
                requires
                    0 <= i < mw * mh,
                    mw >= 1,
                    y == i / (mw as int),
            ;
        }
    }
    seeds
}

} // verus!
