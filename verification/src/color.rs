//! Colors and color surfaces.
//!
//! A surface is a row-major grid of RGBA texels. Channels are fixed-point
//! milli-units with generous HDR headroom; `CHANNEL_MAX` bounds every channel
//! so that the accumulation done by the raycaster and denoiser cannot
//! overflow.

use vstd::prelude::*;

verus! {

/// Upper bound on any color channel (one million whole units of radiance).
pub const CHANNEL_MAX: u32 = 1_000_000_000;

/// Upper bound on either surface dimension, in texels.
pub const MAX_DIM: u32 = 16384;

/// One texel: red, green, blue, alpha in fixed-point milli-units.
#[derive(Clone, Copy, PartialEq, Eq, Structural, Debug)]
pub struct Rgba {
    pub r: u32,
    pub g: u32,
    pub b: u32,
    pub a: u32,
}

impl Rgba {
    /// Every channel within the representable radiance range.
    pub open spec fn wf(self) -> bool {
        self.r <= CHANNEL_MAX && self.g <= CHANNEL_MAX && self.b <= CHANNEL_MAX && self.a
            <= CHANNEL_MAX
    }

    /// Fully transparent black, the cleared state of every surface.
    pub fn black() -> (c: Rgba)
        ensures
            c == (Rgba { r: 0, g: 0, b: 0, a: 0 }),
            c.wf(),
    {
        Rgba { r: 0, g: 0, b: 0, a: 0 }
    }
}

/// A row-major texel index stays inside the surface.
pub proof fn lemma_row_major_index(x: int, y: int, w: int, h: int)
    requires
        0 <= x < w,
        0 <= y < h,
        w <= MAX_DIM,
        h <= MAX_DIM,
    ensures
        0 <= y * w + x < w * h,
        w * h <= 0x1000_0000,
{
    assert(y * w + x < w * h && w * h <= 0x1000_0000) by (nonlinear_arith)
        requires
            0 <= x < w,
            0 <= y < h,
            w <= 16384,
            h <= 16384,
    ;
}

/// A color surface: `width * height` texels in row-major order.
pub struct ColorBuffer {
    pub width: u32,
    pub height: u32,
    pub data: Vec<Rgba>,
}

impl ColorBuffer {
    /// Dimensions in range, storage of exactly the right size, texels in range.
    pub open spec fn wf(self) -> bool {
        &&& self.width <= MAX_DIM
        &&& self.height <= MAX_DIM
        &&& self.data.len() == self.width * self.height
        &&& forall|i: int| 0 <= i < self.data.len() ==> (#[trigger] self.data[i]).wf()
    }

    /// The texel at column `x` of row `y`.
    pub open spec fn spec_at(self, x: int, y: int) -> Rgba {
        self.data[y * self.width + x]
    }

    /// A surface holding the same texel everywhere.
    pub fn filled(width: u32, height: u32, c: Rgba) -> (out: ColorBuffer)
        requires
            width <= MAX_DIM,
            height <= MAX_DIM,
            c.wf(),
        ensures
            out.wf(),
            out.width == width,
            out.height == height,
            forall|x: int, y: int|
                0 <= x < width && 0 <= y < height ==> out.spec_at(x, y) == c,
    {
        assert(width * height <= 0x1000_0000) by (nonlinear_arith)
            requires
                width <= 16384u32 && height <= 16384u32,
        ;
        let total: usize = (width as usize) * (height as usize);
        let mut data: Vec<Rgba> = Vec::new();
        let mut i: usize = 0;
        while i < total
            invariant
                i <= total,
                total == width * height,
                data.len() == i,
                forall|j: int| 0 <= j < i ==> data[j] == c,
            decreases total - i,
        {
            data.push(c);
            i = i + 1;
        }
        let out = ColorBuffer { width, height, data };
        proof {
            assert forall|x: int, y: int|
                0 <= x < width && 0 <= y < height implies out.spec_at(x, y) == c by {
                lemma_row_major_index(x, y, width as int, height as int);
            }
        }
        out
    }

    /// A cleared (all-black) surface, the initial state of a history target.
    pub fn cleared(width: u32, height: u32) -> (out: ColorBuffer)
        requires
            width <= MAX_DIM,
            height <= MAX_DIM,
        ensures
            out.wf(),
            out.width == width,
            out.height == height,
            forall|x: int, y: int|
                0 <= x < width && 0 <= y < height ==> out.spec_at(x, y) == (Rgba {
                    r: 0,
                    g: 0,
                    b: 0,
                    a: 0,
                }),
    {
        Self::filled(width, height, Rgba::black())
    }

    /// A fresh surface holding exactly this surface's texels.
    pub fn duplicate(&self) -> (out: ColorBuffer)
        ensures
            out.width == self.width,
            out.height == self.height,
            out.data@ == self.data@,
            self.wf() ==> out.wf(),
    {
        let mut data: Vec<Rgba> = Vec::new();
        let mut i: usize = 0;
        let total: usize = self.data.len();
        while i < total
            invariant
                i <= total,
                total == self.data.len(),
                data.len() == i,
                forall|j: int| 0 <= j < i ==> data[j] == self.data[j],
            decreases total - i,
        {
            data.push(self.data[i]);
            i = i + 1;
        }
        proof {
            assert(data@ =~= self.data@);
        }
        ColorBuffer { width: self.width, height: self.height, data }
    }

    /// Read the texel at `(x, y)`.
    pub fn get(&self, x: u32, y: u32) -> (c: Rgba)
        requires
            self.wf(),
            x < self.width,
            y < self.height,
        ensures
            c == self.spec_at(x as int, y as int),
            c.wf(),
    {
        proof {
            lemma_row_major_index(x as int, y as int, self.width as int, self.height as int);
        }
        let idx: usize = (y as usize) * (self.width as usize) + (x as usize);
        self.data[idx]
    }
}

} // verus!
