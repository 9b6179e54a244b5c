//! The jump-flood propagator.
//!
//! Each pass reads a source seed buffer and writes, per texel, the nearest
//! seed coordinate found among nine samples: the texel itself and its eight
//! neighbors at the current stride. The stride starts at half the
//! power-of-two cover of the larger dimension and halves every pass, so
//! `clog2(max(w, h)) + 1` passes reach every texel from every seed. Ties on
//! exactly equal distances go to the earliest sample in row-major order; the
//! pass chain forwards coordinates, never running distances, so distance is
//! recomputed exactly wherever it is needed.

use crate::color::lemma_row_major_index;
use crate::fp::clog2;
use crate::fp::pow2;
use crate::seed::Coord;
use crate::seed::SeedBuffer;
use vstd::prelude::*;

verus! {

/// Squared Euclidean distance from texel `(x, y)` to coordinate `c`.
pub open spec fn dist2(x: int, y: int, c: Coord) -> int {
    (x - c.x) * (x - c.x) + (y - c.y) * (y - c.y)
}

/// Fold one sample into the running best: the seed at `(sx, sy)` replaces
/// `best` only when the sample is inside the surface, carries a seed, and
/// that seed is strictly closer to `(x, y)` (the first minimum wins).
pub open spec fn better(
    src: SeedBuffer,
    x: int,
    y: int,
    best: Option<Coord>,
    sx: int,
    sy: int,
) -> Option<Coord> {
    if 0 <= sx < src.width && 0 <= sy < src.height {
        match src.spec_at(sx, sy) {
            Some(c) => match best {
                Some(b) => if dist2(x, y, c) < dist2(x, y, b) {
                    Some(c)
                } else {
                    Some(b)
                },
                None => Some(c),
            },
            None => best,
        }
    } else {
        best
    }
}

/// What one pass at stride `off` writes at `(x, y)`: the nine samples folded
/// in row-major order.
pub open spec fn pass_texel(src: SeedBuffer, off: int, x: int, y: int) -> Option<Coord> {
    let b0 = better(src, x, y, None, x - off, y - off);
    let b1 = better(src, x, y, b0, x, y - off);
    let b2 = better(src, x, y, b1, x + off, y - off);
    let b3 = better(src, x, y, b2, x - off, y);
    let b4 = better(src, x, y, b3, x, y);
    let b5 = better(src, x, y, b4, x + off, y);
    let b6 = better(src, x, y, b5, x - off, y + off);
    let b7 = better(src, x, y, b6, x, y + off);
    better(src, x, y, b7, x + off, y + off)
}

/// `dst` is exactly what one pass at stride `off` produces from `src`.
pub open spec fn is_pass_of(src: SeedBuffer, off: int, dst: SeedBuffer) -> bool {
    &&& dst.width == src.width
    &&& dst.height == src.height
    &&& forall|x: int, y: int|
        0 <= x < src.width && 0 <= y < src.height ==> #[trigger] dst.spec_at(x, y) == pass_texel(
            src,
            off,
            x,
            y,
        )
}

/// How many passes a `w` by `h` surface needs: the ceiling of `log2` of the
/// larger dimension, plus one. A surface of at most one texel in each
/// direction needs no pass at all and flows through unchanged.
pub open spec fn jfa_passes(w: nat, h: nat) -> nat {
    if w <= 1 && h <= 1 {
        0
    } else {
        clog2(
            if w >= h {
                w
            } else {
                h
            },
        ) + 1
    }
}

/// The stride of pass `i` in a schedule of `p` passes: strides halve from
/// `2^(p-1)` down to `1`.
pub open spec fn pass_offset(p: nat, i: nat) -> nat {
    pow2((p - i - 1) as nat)
}

/// How many passes actually run when early stop is armed after pass
/// `stop_at`: the full schedule, unless the stop bound cuts it short.
pub open spec fn passes_to_run(p: nat, stop_at: nat) -> nat {
    if stop_at + 1 < p {
        stop_at + 1
    } else {
        p
    }
}

/// `chain` records a run of consecutive passes starting from `src`, with the
/// stride schedule of `p` total passes.
pub open spec fn is_chain(src: SeedBuffer, chain: Seq<SeedBuffer>, p: nat) -> bool {
    &&& chain.len() >= 1
    &&& chain[0] == src
    &&& forall|i: int|
        0 <= i < chain.len() - 1 ==> is_pass_of(
            #[trigger] chain[i],
            pass_offset(p, i as nat) as int,
            chain[i + 1],
        )
}

/// `out` is the buffer after the first `n` passes of the `p`-pass schedule
/// applied to `src`.
pub open spec fn is_propagation_of(src: SeedBuffer, out: SeedBuffer, p: nat, n: nat) -> bool {
    exists|chain: Seq<SeedBuffer>|
        is_chain(src, chain, p) && chain.len() == n + 1 && chain[n as int] == out
}

/// Compute the pass count for a surface.
pub fn num_passes(w: u32, h: u32) -> (p: u32)
    requires
        w <= crate::color::MAX_DIM,
        h <= crate::color::MAX_DIM,
    ensures
        p == jfa_passes(w as nat, h as nat),
        p <= 15,
{
    let m: u32 = if w >= h {
        w
    } else {
        h
    };
    if m <= 1 {
        0
    } else {
        let c = crate::fp::clog2_u32(m);
        proof {
            crate::fp::lemma_clog2_monotone(m as nat, 16384);
            assert(pow2(14) == 16384) by {
                reveal_with_fuel(pow2, 15);
            }
            crate::fp::lemma_clog2_pow2(14);
        }
        c + 1
    }
}

/// Run the jump-flood schedule over `seeds`: `jfa_passes` ping-ponged
/// passes with geometrically shrinking strides, stopping early after pass
/// `stop_at` if the schedule is longer. Returns the final buffer and the
/// number of passes that ran.
pub fn propagate(seeds: SeedBuffer, stop_at: u32) -> (r: (SeedBuffer, u32))
    requires
        seeds.wf(),
        seeds.width >= 1,
        seeds.height >= 1,
    ensures
        r.0.wf(),
        r.0.width == seeds.width,
        r.0.height == seeds.height,
        r.1 == passes_to_run(
            jfa_passes(seeds.width as nat, seeds.height as nat),
            stop_at as nat,
        ),
        is_propagation_of(
            seeds,
            r.0,
            jfa_passes(seeds.width as nat, seeds.height as nat),
            r.1 as nat,
        ),
{
    let ghost src = seeds;
    let p: u32 = num_passes(seeds.width, seeds.height);
    let mut cur = seeds;
    let ghost mut chain: Seq<SeedBuffer> = seq![src];
    let mut i: u32 = 0;
    let mut stopped = false;
    while i < p && !stopped
        invariant
            cur.wf(),
            cur.width == src.width,
            cur.height == src.height,
            src.width >= 1,
            src.height >= 1,
            p == jfa_passes(src.width as nat, src.height as nat),
            p <= 15,
            i <= p,
            chain.len() == i + 1,
            is_chain(src, chain, p as nat),
            chain[i as int] == cur,
            stopped ==> i == stop_at + 1,
            !stopped ==> i <= stop_at,
        decreases p - i,
    {
        let off = crate::fp::pow2_u32(p - 1 - i);
        let next = jfa_pass(&cur, off);
        proof {
            assert(off == pass_offset(p as nat, i as nat));
            let prev_chain = chain;
            chain = chain.push(next);
            assert forall|j: int|
                0 <= j < chain.len() - 1 implies is_pass_of(
                #[trigger] chain[j],
                pass_offset(p as nat, j as nat) as int,
                chain[j + 1],
            ) by {
                if j < prev_chain.len() - 1 {
                    assert(chain[j] == prev_chain[j]);
                    assert(chain[j + 1] == prev_chain[j + 1]);
                } else {
                    assert(chain[j] == cur);
                    assert(chain[j + 1] == next);
                }
            }
        }
        cur = next;
        if i == stop_at {
            stopped = true;
        }
        i = i + 1;
    }
    proof {
        assert(is_chain(src, chain, p as nat) && chain.len() == i + 1 && chain[i as int] == cur);
    }
    (cur, i)
}

/// When the early-stop bound does not cut the schedule short, the
/// propagator runs exactly its full pass count: the ceiling of `log2` of the
/// larger dimension, plus one.
pub proof fn lemma_full_schedule(w: nat, h: nat, stop_at: nat)
    requires
        stop_at + 1 >= jfa_passes(w, h),
    ensures
        passes_to_run(jfa_passes(w, h), stop_at) == jfa_passes(w, h),
{
}

/// Some texel of `src` stores exactly the coordinate `c`.
pub open spec fn stores_coord(src: SeedBuffer, c: Coord) -> bool {
    exists|sx: int, sy: int|
        0 <= sx < src.width && 0 <= sy < src.height && #[trigger] src.spec_at(sx, sy) == Some(c)
}

/// The absolute difference of two integers.
pub open spec fn absdiff(a: int, b: int) -> int {
    if a >= b {
        a - b
    } else {
        b - a
    }
}

/// One fold step keeps an already-found seed and picks up a seed from an
/// in-bounds sample.
proof fn lemma_step_monotone(src: SeedBuffer, x: int, y: int, best: Option<Coord>, sx: int, sy: int)
    ensures
        best is Some ==> better(src, x, y, best, sx, sy) is Some,
        (0 <= sx < src.width && 0 <= sy < src.height && src.spec_at(sx, sy) is Some) ==> better(
            src,
            x,
            y,
            best,
            sx,
            sy,
        ) is Some,
{
}

/// One fold step only ever returns the running best or a coordinate stored
/// in the source buffer.
proof fn lemma_step_source(src: SeedBuffer, x: int, y: int, best: Option<Coord>, sx: int, sy: int)
    requires
        best matches Some(b) ==> stores_coord(src, b),
    ensures
        better(src, x, y, best, sx, sy) matches Some(c) ==> stores_coord(src, c),
{
    if 0 <= sx < src.width && 0 <= sy < src.height {
        match src.spec_at(sx, sy) {
            Some(c) => {
                assert(src.spec_at(sx, sy) == Some(c));
                assert(stores_coord(src, c));
            },
            None => {},
        }
    }
}

/// A pass writes a seed at `(x, y)` whenever any of its nine sample
/// positions is in bounds and already holds one.
pub proof fn lemma_pass_some(src: SeedBuffer, off: int, x: int, y: int, sx: int, sy: int)
    requires
        sx == x - off || sx == x || sx == x + off,
        sy == y - off || sy == y || sy == y + off,
        0 <= sx < src.width,
        0 <= sy < src.height,
        src.spec_at(sx, sy) is Some,
    ensures
        pass_texel(src, off, x, y) is Some,
{
    let b0 = better(src, x, y, None, x - off, y - off);
    let b1 = better(src, x, y, b0, x, y - off);
    let b2 = better(src, x, y, b1, x + off, y - off);
    let b3 = better(src, x, y, b2, x - off, y);
    let b4 = better(src, x, y, b3, x, y);
    let b5 = better(src, x, y, b4, x + off, y);
    let b6 = better(src, x, y, b5, x - off, y + off);
    let b7 = better(src, x, y, b6, x, y + off);
    lemma_step_monotone(src, x, y, None, x - off, y - off);
    lemma_step_monotone(src, x, y, b0, x, y - off);
    lemma_step_monotone(src, x, y, b1, x + off, y - off);
    lemma_step_monotone(src, x, y, b2, x - off, y);
    lemma_step_monotone(src, x, y, b3, x, y);
    lemma_step_monotone(src, x, y, b4, x + off, y);
    lemma_step_monotone(src, x, y, b5, x - off, y + off);
    lemma_step_monotone(src, x, y, b6, x, y + off);
    lemma_step_monotone(src, x, y, b7, x + off, y + off);
}

/// One fold step never moves the running best further away, and never keeps
/// a best that is strictly further than an in-bounds sampled seed.
proof fn lemma_step_nearest(
    src: SeedBuffer,
    x: int,
    y: int,
    best: Option<Coord>,
    sx: int,
    sy: int,
)
    ensures
        ({
            let r = better(src, x, y, best, sx, sy);
            &&& (best matches Some(b) ==> (r matches Some(c) && dist2(x, y, c) <= dist2(x, y, b)))
            &&& ((0 <= sx < src.width && 0 <= sy < src.height && src.spec_at(sx, sy) is Some)
                ==> (r matches Some(c) && dist2(x, y, c) <= dist2(
                x,
                y,
                src.spec_at(sx, sy)->Some_0,
            )))
        }),
{
}

/// What a pass writes at `(x, y)` is at least as close to `(x, y)` as every
/// seed visible through the nine samples: the pass keeps the
/// minimum-distance seed it finds.
pub proof fn lemma_pass_nearest(src: SeedBuffer, off: int, x: int, y: int, sx: int, sy: int)
    requires
        sx == x - off || sx == x || sx == x + off,
        sy == y - off || sy == y || sy == y + off,
        0 <= sx < src.width,
        0 <= sy < src.height,
        src.spec_at(sx, sy) is Some,
    ensures
        pass_texel(src, off, x, y) matches Some(c) && dist2(x, y, c) <= dist2(
            x,
            y,
            src.spec_at(sx, sy)->Some_0,
        ),
{
    let b0 = better(src, x, y, None, x - off, y - off);
    let b1 = better(src, x, y, b0, x, y - off);
    let b2 = better(src, x, y, b1, x + off, y - off);
    let b3 = better(src, x, y, b2, x - off, y);
    let b4 = better(src, x, y, b3, x, y);
    let b5 = better(src, x, y, b4, x + off, y);
    let b6 = better(src, x, y, b5, x - off, y + off);
    let b7 = better(src, x, y, b6, x, y + off);
    lemma_step_nearest(src, x, y, None, x - off, y - off);
    lemma_step_nearest(src, x, y, b0, x, y - off);
    lemma_step_nearest(src, x, y, b1, x + off, y - off);
    lemma_step_nearest(src, x, y, b2, x - off, y);
    lemma_step_nearest(src, x, y, b3, x, y);
    lemma_step_nearest(src, x, y, b4, x + off, y);
    lemma_step_nearest(src, x, y, b5, x - off, y + off);
    lemma_step_nearest(src, x, y, b6, x, y + off);
    lemma_step_nearest(src, x, y, b7, x + off, y + off);
}

/// A pass invents no coordinates: whatever it writes was stored in the
/// source buffer.
pub proof fn lemma_pass_texel_source(src: SeedBuffer, off: int, x: int, y: int)
    ensures
        pass_texel(src, off, x, y) matches Some(c) ==> stores_coord(src, c),
{
    let b0 = better(src, x, y, None, x - off, y - off);
    let b1 = better(src, x, y, b0, x, y - off);
    let b2 = better(src, x, y, b1, x + off, y - off);
    let b3 = better(src, x, y, b2, x - off, y);
    let b4 = better(src, x, y, b3, x, y);
    let b5 = better(src, x, y, b4, x + off, y);
    let b6 = better(src, x, y, b5, x - off, y + off);
    let b7 = better(src, x, y, b6, x, y + off);
    lemma_step_source(src, x, y, None, x - off, y - off);
    lemma_step_source(src, x, y, b0, x, y - off);
    lemma_step_source(src, x, y, b1, x + off, y - off);
    lemma_step_source(src, x, y, b2, x - off, y);
    lemma_step_source(src, x, y, b3, x, y);
    lemma_step_source(src, x, y, b4, x + off, y);
    lemma_step_source(src, x, y, b5, x - off, y + off);
    lemma_step_source(src, x, y, b6, x, y + off);
    lemma_step_source(src, x, y, b7, x + off, y + off);
}

/// Every buffer in a pass chain keeps the dimensions of the first.
proof fn lemma_chain_dims(src: SeedBuffer, chain: Seq<SeedBuffer>, p: nat, k: int)
    requires
        is_chain(src, chain, p),
        0 <= k < chain.len(),
    ensures
        chain[k].width == src.width,
        chain[k].height == src.height,
    decreases k,
{
    if k > 0 {
        lemma_chain_dims(src, chain, p, k - 1);
    }
}

/// A nonnegative multiple of `m` is a multiple of `2m`, or exceeds `m` by a
/// multiple of `2m`.
proof fn lemma_halving_mod(d: int, m: int)
    requires
        m > 0,
        d >= 0,
        d % m == 0,
    ensures
        d % (2 * m) == 0 || (d >= m && (d - m) % (2 * m) == 0),
{
    let q = d / m;
    vstd::arithmetic::div_mod::lemma_fundamental_div_mod(d, m);
    assert(d == m * q);
    assert(q >= 0) by (nonlinear_arith)
        requires
            d == m * q && d >= 0 && m > 0,
    ;
    let r = q / 2;
    vstd::arithmetic::div_mod::lemma_fundamental_div_mod(q, 2);
    if q % 2 == 0 {
        assert(d == r * (2 * m)) by (nonlinear_arith)
            requires
                d == m * q && q == 2 * r,
        ;
        vstd::arithmetic::div_mod::lemma_mod_multiples_basic(r, 2 * m);
    } else {
        assert(d - m == r * (2 * m) && d >= m) by (nonlinear_arith)
            requires
                d == m * q && q == 2 * r + 1 && m > 0 && q >= 0 && r >= 0,
        ;
        vstd::arithmetic::div_mod::lemma_mod_multiples_basic(r, 2 * m);
    }
}

/// The reach invariant of the jump flood: after `k` passes of the `p`-pass
/// schedule, a texel holds a seed whenever some seeded texel of the original
/// buffer lies at a per-axis distance that is a multiple of `2^(p-k)`.
#[verifier::rlimit(60)]
proof fn lemma_fill_invariant(src: SeedBuffer, chain: Seq<SeedBuffer>, p: nat, k: nat)
    requires
        is_chain(src, chain, p),
        k < chain.len(),
        k <= p,
        src.width >= 1,
        src.height >= 1,
        src.width <= pow2(p),
        src.height <= pow2(p),
    ensures
        forall|x: int, y: int, sx: int, sy: int|
            0 <= x < src.width && 0 <= y < src.height && 0 <= sx < src.width && 0 <= sy
                < src.height && (#[trigger] src.spec_at(sx, sy)) is Some && absdiff(x, sx) % (
            pow2((p - k) as nat) as int) == 0 && absdiff(y, sy) % (pow2((p - k) as nat) as int)
                == 0 ==> (#[trigger] chain[k as int].spec_at(x, y)) is Some,
    decreases k,
{
    let m = pow2((p - k) as nat) as int;
    crate::fp::lemma_pow2_pos((p - k) as nat);
    if k == 0 {
        crate::fp::lemma_pow2_pos(p);
        assert forall|x: int, y: int, sx: int, sy: int|
            0 <= x < src.width && 0 <= y < src.height && 0 <= sx < src.width && 0 <= sy
                < src.height && (#[trigger] src.spec_at(sx, sy)) is Some && absdiff(x, sx) % m == 0
                && absdiff(y, sy) % m == 0 implies (#[trigger] chain[k as int].spec_at(
            x,
            y,
        )) is Some by {
            vstd::arithmetic::div_mod::lemma_small_mod(absdiff(x, sx) as nat, m as nat);
            vstd::arithmetic::div_mod::lemma_small_mod(absdiff(y, sy) as nat, m as nat);
            assert(x == sx && y == sy);
        }
    } else {
        lemma_fill_invariant(src, chain, p, (k - 1) as nat);
        lemma_chain_dims(src, chain, p, k - 1);
        lemma_chain_dims(src, chain, p, k as int);
        let mprev = pow2((p - k + 1) as nat) as int;
        assert(mprev == 2 * m);
        assert(pass_offset(p, (k - 1) as nat) == m);
        let prev = chain[k as int - 1];
        assert(is_pass_of(prev, m, chain[k as int]));
        assert forall|x: int, y: int, sx: int, sy: int|
            0 <= x < src.width && 0 <= y < src.height && 0 <= sx < src.width && 0 <= sy
                < src.height && (#[trigger] src.spec_at(sx, sy)) is Some && absdiff(x, sx) % m == 0
                && absdiff(y, sy) % m == 0 implies (#[trigger] chain[k as int].spec_at(
            x,
            y,
        )) is Some by {
            let dx = absdiff(x, sx);
            let dy = absdiff(y, sy);
            lemma_halving_mod(dx, m);
            lemma_halving_mod(dy, m);
            let mx: int = if dx % mprev == 0 {
                x
            } else if sx >= x {
                x + m
            } else {
                x - m
            };
            let my: int = if dy % mprev == 0 {
                y
            } else if sy >= y {
                y + m
            } else {
                y - m
            };
            assert(0 <= mx < src.width && absdiff(mx, sx) % mprev == 0);
            assert(0 <= my < src.height && absdiff(my, sy) % mprev == 0);
            assert(prev.spec_at(mx, my) is Some);
            lemma_pass_some(prev, m, x, y, mx, my);
        }
    }
}

/// After a full jump-flood schedule over a buffer that holds at least one
/// seed, every texel of the result holds a seed: no sentinel survives.
pub proof fn lemma_propagation_fills(src: SeedBuffer, out: SeedBuffer)
    requires
        src.wf(),
        src.width >= 1,
        src.height >= 1,
        is_propagation_of(
            src,
            out,
            jfa_passes(src.width as nat, src.height as nat),
            jfa_passes(src.width as nat, src.height as nat),
        ),
        src.has_any_seed(),
    ensures
        out.width == src.width,
        out.height == src.height,
        forall|x: int, y: int|
            0 <= x < out.width && 0 <= y < out.height ==> (#[trigger] out.spec_at(x, y)) is Some,
{
    let p = jfa_passes(src.width as nat, src.height as nat);
    let chain = choose|chain: Seq<SeedBuffer>|
        is_chain(src, chain, p) && chain.len() == p + 1 && chain[p as int] == out;
    lemma_chain_dims(src, chain, p, p as int);
    let maxdim = if src.width >= src.height {
        src.width as nat
    } else {
        src.height as nat
    };
    if maxdim <= 1 {
        crate::fp::lemma_pow2_pos(p);
    } else {
        crate::fp::lemma_clog2_covers(maxdim);
        crate::fp::lemma_pow2_increases(clog2(maxdim), p);
    }
    assert(src.width <= pow2(p) && src.height <= pow2(p));
    lemma_fill_invariant(src, chain, p, p);
    let i = choose|i: int| 0 <= i < src.data.len() && (#[trigger] src.data[i]) is Some;
    let w = src.width as int;
    let sx = i % w;
    let sy = i / w;
    vstd::arithmetic::div_mod::lemma_fundamental_div_mod(i, w);
    assert(sy < src.height) by (nonlinear_arith)
        requires
            0 <= i < src.width * src.height,
            src.width >= 1,
            sy == i / (src.width as int),
            w == src.width,
    ;
    assert(0 <= sx < w);
    assert(src.spec_at(sx, sy) == src.data[i]);
    assert(pow2((p - p) as nat) == 1);
    assert forall|x: int, y: int|
        0 <= x < out.width && 0 <= y < out.height implies (#[trigger] out.spec_at(
        x,
        y,
    )) is Some by {
        assert(absdiff(x, sx) % 1 == 0 && absdiff(y, sy) % 1 == 0);
        assert(src.spec_at(sx, sy) is Some);
        assert(chain[p as int].spec_at(x, y) is Some);
    }
}

/// Seed coordinates only travel, they are never invented: every coordinate
/// stored after `k` passes was stored somewhere in the original buffer.
proof fn lemma_chain_source(src: SeedBuffer, chain: Seq<SeedBuffer>, p: nat, k: int)
    requires
        is_chain(src, chain, p),
        0 <= k < chain.len(),
    ensures
        forall|x: int, y: int|
            0 <= x < src.width && 0 <= y < src.height ==> ((#[trigger] chain[k].spec_at(
                x,
                y,
            )) matches Some(c) ==> stores_coord(src, c)),
    decreases k,
{
    if k == 0 {
        assert forall|x: int, y: int|
            0 <= x < src.width && 0 <= y < src.height implies ((#[trigger] chain[k].spec_at(
            x,
            y,
        )) matches Some(c) ==> stores_coord(src, c)) by {
            match src.spec_at(x, y) {
                Some(c) => {
                    assert(src.spec_at(x, y) == Some(c));
                    assert(stores_coord(src, c));
                },
                None => {},
            }
        }
    } else {
        lemma_chain_source(src, chain, p, k - 1);
        lemma_chain_dims(src, chain, p, k - 1);
        let prev = chain[k - 1];
        let off = pass_offset(p, (k - 1) as nat) as int;
        assert(is_pass_of(prev, off, chain[k]));
        assert forall|x: int, y: int|
            0 <= x < src.width && 0 <= y < src.height implies ((#[trigger] chain[k].spec_at(
            x,
            y,
        )) matches Some(c) ==> stores_coord(src, c)) by {
            lemma_pass_texel_source(prev, off, x, y);
            match chain[k].spec_at(x, y) {
                Some(c) => {
                    assert(stores_coord(prev, c));
                    let (sx, sy) = choose|sx: int, sy: int|
                        0 <= sx < prev.width && 0 <= sy < prev.height && #[trigger] prev.spec_at(
                            sx,
                            sy,
                        ) == Some(c);
                    assert(prev.spec_at(sx, sy) is Some);
                },
                None => {},
            }
        }
    }
}

/// Whatever a propagation run writes anywhere was stored somewhere in its
/// input buffer.
pub proof fn lemma_propagation_source(src: SeedBuffer, out: SeedBuffer, p: nat, n: nat)
    requires
        is_propagation_of(src, out, p, n),
    ensures
        forall|x: int, y: int|
            0 <= x < src.width && 0 <= y < src.height ==> ((#[trigger] out.spec_at(
                x,
                y,
            )) matches Some(c) ==> stores_coord(src, c)),
{
    let chain = choose|chain: Seq<SeedBuffer>|
        is_chain(src, chain, p) && chain.len() == n + 1 && chain[n as int] == out;
    lemma_chain_source(src, chain, p, n as int);
}

/// A full propagation of a buffer whose only seed carries coordinate `c0`
/// stamps `c0` on every texel.
pub proof fn lemma_single_seed_propagation(src: SeedBuffer, out: SeedBuffer, c0: Coord)
    requires
        src.wf(),
        src.width >= 1,
        src.height >= 1,
        is_propagation_of(
            src,
            out,
            jfa_passes(src.width as nat, src.height as nat),
            jfa_passes(src.width as nat, src.height as nat),
        ),
        c0.x < src.width,
        c0.y < src.height,
        forall|x: int, y: int|
            0 <= x < src.width && 0 <= y < src.height ==> #[trigger] src.spec_at(x, y) == (
            if x == c0.x && y == c0.y {
                Some(c0)
            } else {
                None
            }),
    ensures
        out.width == src.width,
        out.height == src.height,
        forall|x: int, y: int|
            0 <= x < out.width && 0 <= y < out.height ==> #[trigger] out.spec_at(x, y) == Some(
                c0,
            ),
{
    let p = jfa_passes(src.width as nat, src.height as nat);
    assert(src.has_any_seed()) by {
        lemma_row_major_index(c0.x as int, c0.y as int, src.width as int, src.height as int);
        assert(src.spec_at(c0.x as int, c0.y as int) == Some(c0));
        assert(src.data[c0.y as int * src.width + c0.x as int] is Some);
    }
    lemma_propagation_fills(src, out);
    lemma_propagation_source(src, out, p, p);
    assert forall|x: int, y: int|
        0 <= x < out.width && 0 <= y < out.height implies #[trigger] out.spec_at(x, y) == Some(
        c0,
    ) by {
        assert(out.spec_at(x, y) is Some);
        match out.spec_at(x, y) {
            Some(c) => {
                assert(stores_coord(src, c));
                let (sx, sy) = choose|sx: int, sy: int|
                    0 <= sx < src.width && 0 <= sy < src.height && #[trigger] src.spec_at(sx, sy)
                        == Some(c);
                assert(src.spec_at(sx, sy) == Some(c));
                assert(c == c0);
            },
            None => {},
        }
    }
}

/// Squared distance, computed exactly in wide integers.
pub fn dist2_exec(x: u32, y: u32, c: Coord) -> (d: i64)
    requires
        x <= crate::color::MAX_DIM,
        y <= crate::color::MAX_DIM,
        c.x <= crate::color::MAX_DIM,
        c.y <= crate::color::MAX_DIM,
    ensures
        d == dist2(x as int, y as int, c),
        0 <= d <= 2 * 16384 * 16384,
{
    let dx: i64 = (x as i64) - (c.x as i64);
    let dy: i64 = (y as i64) - (c.y as i64);
    assert(dx * dx + dy * dy <= 2 * 16384 * 16384 && dx * dx >= 0 && dy * dy >= 0)
        by (nonlinear_arith)
        requires
            -16384 <= dx <= 16384 && -16384 <= dy <= 16384,
    ;
    dx * dx + dy * dy
}

/// Fold one sample into the running best, mirroring `better`.
fn best_sample(src: &SeedBuffer, x: u32, y: u32, best: Option<Coord>, sx: i64, sy: i64) -> (r:
    Option<Coord>)
    requires
        src.wf(),
        x < src.width,
        y < src.height,
        best matches Some(b) ==> b.x < src.width && b.y < src.height,
    ensures
        r == better(*src, x as int, y as int, best, sx as int, sy as int),
        r matches Some(c) ==> c.x < src.width && c.y < src.height,
{
    if sx >= 0 && sx < src.width as i64 && sy >= 0 && sy < src.height as i64 {
        match src.get(sx as u32, sy as u32) {
            Some(c) => match best {
                Some(b) => {
                    if dist2_exec(x, y, c) < dist2_exec(x, y, b) {
                        Some(c)
                    } else {
                        Some(b)
                    }
                },
                None => Some(c),
            },
            None => best,
        }
    } else {
        best
    }
}

/// Run one jump-flood pass at stride `offset` over `src`.
pub fn jfa_pass(src: &SeedBuffer, offset: u32) -> (dst: SeedBuffer)
    requires
        src.wf(),
        src.width >= 1,
        src.height >= 1,
    ensures
        dst.wf(),
        is_pass_of(*src, offset as int, dst),
{
    let w: u32 = src.width;
    let h: u32 = src.height;
    assert(w * h <= 0x1000_0000) by (nonlinear_arith)
        requires
            w <= 16384u32 && h <= 16384u32,
    ;
    let total: usize = (w as usize) * (h as usize);
    let mut data: Vec<Option<Coord>> = Vec::new();
    let mut k: usize = 0;
    while k < total
        invariant
            k <= total,
            total == w * h,
            w == src.width,
            h == src.height,
            src.wf(),
            w >= 1,
            h >= 1,
            data.len() == k,
            forall|j: int|
                0 <= j < k ==> #[trigger] data[j] == pass_texel(
                    *src,
                    offset as int,
                    j % (w as int),
                    j / (w as int),
                ),
            forall|j: int|
                0 <= j < k ==> ((#[trigger] data[j]) matches Some(c) ==> c.x < w && c.y < h),
        decreases total - k,
    {
        let x: usize = k % (w as usize);
        let y: usize = k / (w as usize);
        assert(y < h) by (nonlinear_arith)
            requires
                k < w * h,
                w >= 1,
                y == k / (w as usize) && k >= 0,
        ;
        let xu: u32 = x as u32;
        let yu: u32 = y as u32;
        let xi: i64 = xu as i64;
        let yi: i64 = yu as i64;
        let off: i64 = offset as i64;
        let b0 = best_sample(src, xu, yu, None, xi - off, yi - off);
        let b1 = best_sample(src, xu, yu, b0, xi, yi - off);
        let b2 = best_sample(src, xu, yu, b1, xi + off, yi - off);
        let b3 = best_sample(src, xu, yu, b2, xi - off, yi);
        let b4 = best_sample(src, xu, yu, b3, xi, yi);
        let b5 = best_sample(src, xu, yu, b4, xi + off, yi);
        let b6 = best_sample(src, xu, yu, b5, xi - off, yi + off);
        let b7 = best_sample(src, xu, yu, b6, xi, yi + off);
        let b8 = best_sample(src, xu, yu, b7, xi + off, yi + off);
        data.push(b8);
        k = k + 1;
    }
    let dst = SeedBuffer { width: w, height: h, data };
    proof {
        assert forall|x: int, y: int|
            0 <= x < src.width && 0 <= y < src.height implies #[trigger] dst.spec_at(x, y)
            == pass_texel(*src, offset as int, x, y) by {
            lemma_row_major_index(x, y, w as int, h as int);
            vstd::arithmetic::div_mod::lemma_fundamental_div_mod_converse(
                y * (w as int) + x,
                w as int,
                y,
                x,
            );
        }
    }
    dst
}

} // verus!
