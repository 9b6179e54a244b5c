//! Fixed-point arithmetic helpers shared by every pass.
//!
//! Quantities that the shaders of a GPU implementation would hold in floats
//! (distances, colors, trigonometric values) are held here in milli-units:
//! the integer `1000` stands for `1.0`.

use vstd::prelude::*;

verus! {

/// One whole unit in fixed-point milli-units.
pub const FP_ONE: u32 = 1000;

/// `2^n`.
pub open spec fn pow2(n: nat) -> nat
    decreases n,
{
    if n == 0 {
        1
    } else {
        2 * pow2((n - 1) as nat)
    }
}

/// The smallest `p` with `2^p >= n` (for `n >= 1`): the ceiling of `log2(n)`.
pub open spec fn clog2(n: nat) -> nat
    decreases n,
{
    if n <= 1 {
        0
    } else {
        1 + clog2(((n + 1) / 2) as nat)
    }
}

pub proof fn lemma_pow2_pos(n: nat)
    ensures
        pow2(n) >= 1,
    decreases n,
{
    if n > 0 {
        lemma_pow2_pos((n - 1) as nat);
    }
}

pub proof fn lemma_pow2_increases(m: nat, n: nat)
    requires
        m <= n,
    ensures
        pow2(m) <= pow2(n),
    decreases n,
{
    if m < n {
        lemma_pow2_increases(m, (n - 1) as nat);
        lemma_pow2_pos((n - 1) as nat);
    }
}

pub proof fn lemma_pow2_32()
    ensures
        pow2(32) == 0x1_0000_0000,
{
    reveal_with_fuel(pow2, 33);
}

pub proof fn lemma_pow2_31()
    ensures
        pow2(31) == 0x8000_0000,
{
    reveal_with_fuel(pow2, 32);
}

/// `2^clog2(n)` really is at least `n`.
pub proof fn lemma_clog2_covers(n: nat)
    ensures
        pow2(clog2(n)) >= n,
    decreases n,
{
    if n > 1 {
        lemma_clog2_covers(((n + 1) / 2) as nat);
    }
}

pub proof fn lemma_clog2_monotone(m: nat, n: nat)
    requires
        m <= n,
    ensures
        clog2(m) <= clog2(n),
    decreases n,
{
    if m > 1 {
        lemma_clog2_monotone(((m + 1) / 2) as nat, ((n + 1) / 2) as nat);
    }
}

/// `clog2` inverts `pow2` exactly on powers of two.
pub proof fn lemma_clog2_pow2(k: nat)
    ensures
        clog2(pow2(k)) == k,
    decreases k,
{
    if k > 0 {
        lemma_pow2_pos((k - 1) as nat);
        assert((pow2(k) + 1) / 2 == pow2((k - 1) as nat));
        lemma_clog2_pow2((k - 1) as nat);
    }
}

/// Any `u32`-sized count has a ceiling log of at most 32.
pub proof fn lemma_clog2_le_32(n: nat)
    requires
        n <= 0x1_0000_0000,
    ensures
        clog2(n) <= 32,
{
    lemma_pow2_32();
    lemma_clog2_monotone(n, pow2(32));
    lemma_clog2_pow2(32);
}

/// Exponentiation by `2`, for exponents small enough that the result fits.
pub fn pow2_u32(n: u32) -> (r: u32)
    requires
        n <= 31,
    ensures
        r == pow2(n as nat),
{
    let mut r: u32 = 1;
    let mut i: u32 = 0;
    while i < n
        invariant
            i <= n <= 31,
            r == pow2(i as nat),
        decreases n - i,
    {
        proof {
            lemma_pow2_increases((i + 1) as nat, 31);
            lemma_pow2_31();
        }
        r = 2 * r;
        i = i + 1;
    }
    r
}

/// The ceiling of `log2(n)`, computed by repeated halving.
pub fn clog2_u32(n: u32) -> (p: u32)
    ensures
        p == clog2(n as nat),
        p <= 32,
{
    proof {
        lemma_clog2_le_32(n as nat);
    }
    let mut p: u32 = 0;
    let mut m: u32 = n;
    while m > 1
        invariant
            p + clog2(m as nat) == clog2(n as nat),
            clog2(n as nat) <= 32,
        decreases m,
    {
        let halved: u32 = m / 2 + m % 2;
        assert(halved == (m + 1) / 2);
        m = halved;
        p = p + 1;
    }
    p
}

/// A full circle of angle units.
pub const FULL_TURN: u32 = 65536;

/// Half a circle of angle units.
pub const HALF_TURN: u32 = 32768;

/// A quarter circle of angle units.
pub const QUARTER_TURN: u32 = 16384;

/// A rational fixed-point approximation of the sine over the first
/// half-turn, exact at `0`, the quarter-turn and the half-turn and within a
/// few milli-units elsewhere.
pub open spec fn spec_sin_half(a: int) -> int {
    let t = a * (32768 - a);
    16000 * t / (5368709120 - 4 * t)
}

/// Fixed-point sine over the whole turn: odd symmetry about the half-turn.
pub open spec fn spec_sin_fp(a: int) -> int {
    if a <= 32768 {
        spec_sin_half(a)
    } else {
        -spec_sin_half(a - 32768)
    }
}

/// Fixed-point cosine: the sine a quarter-turn ahead.
pub open spec fn spec_cos_fp(a: int) -> int {
    spec_sin_fp((a + 16384) % 65536)
}

pub proof fn lemma_sin_half_bounds(a: int)
    requires
        0 <= a <= 32768,
    ensures
        0 <= spec_sin_half(a) <= 1000,
{
    let t = a * (32768 - a);
    assert(0 <= t && 4 * t <= 1073741824) by (nonlinear_arith)
        requires
            0 <= a <= 32768,
            t == a * (32768 - a),
    ;
    let num = 16000 * t;
    let den = 5368709120 - 4 * t;
    assert(den > 0);
    vstd::arithmetic::div_mod::lemma_div_pos_is_pos(num, den);
    assert(num <= 1000 * den);
    vstd::arithmetic::div_mod::lemma_div_is_ordered(num, 1000 * den, den);
    vstd::arithmetic::div_mod::lemma_div_by_multiple(1000, den);
}

pub proof fn lemma_sin_fp_bounds(a: int)
    requires
        0 <= a < 65536,
    ensures
        -1000 <= spec_sin_fp(a) <= 1000,
{
    if a <= 32768 {
        lemma_sin_half_bounds(a);
    } else {
        lemma_sin_half_bounds(a - 32768);
    }
}

/// Fixed-point sine of an angle in turn units.
pub fn sin_fp(a: u32) -> (s: i32)
    requires
        a < FULL_TURN,
    ensures
        s == spec_sin_fp(a as int),
        -1000 <= s <= 1000,
{
    proof {
        lemma_sin_fp_bounds(a as int);
    }
    if a <= 32768 {
        let a64: u64 = a as u64;
        let r64: u64 = (32768 - a) as u64;
        assert(a64 * r64 <= 32768u64 * 32768) by (nonlinear_arith)
            requires
                a64 <= 32768u64 && r64 <= 32768u64,
        ;
        let t: u64 = a64 * r64;
        let num: u64 = 16000 * t;
        let den: u64 = 5368709120 - 4 * t;
        let r: u64 = num / den;
        r as i32
    } else {
        let b: u32 = a - 32768;
        let b64: u64 = b as u64;
        let r64: u64 = (32768 - b) as u64;
        assert(b64 * r64 <= 32768u64 * 32768) by (nonlinear_arith)
            requires
                b64 <= 32768u64 && r64 <= 32768u64,
        ;
        let t: u64 = b64 * r64;
        let num: u64 = 16000 * t;
        let den: u64 = 5368709120 - 4 * t;
        let r: u64 = num / den;
        proof {
            lemma_sin_half_bounds(b as int);
        }
        -(r as i32)
    }
}

/// Fixed-point cosine of an angle in turn units.
pub fn cos_fp(a: u32) -> (c: i32)
    requires
        a < FULL_TURN,
    ensures
        c == spec_cos_fp(a as int),
        -1000 <= c <= 1000,
{
    sin_fp((a + QUARTER_TURN) % FULL_TURN)
}

/// Integer square root: the floor of the real square root.
pub fn isqrt_u64(x: u64) -> (r: u64)
    ensures
        r * r <= x,
        (r + 1) * (r + 1) > x,
{
    let mut lo: u64 = 0;
    let mut hi: u64 = 0x1_0000_0000;
    while lo + 1 < hi
        invariant
            lo < hi <= 0x1_0000_0000,
            lo * lo <= x,
            hi * hi > x,
        decreases hi - lo,
    {
        let mid: u64 = lo + (hi - lo) / 2;
        assert(mid < hi);
        assert(mid * mid <= 0xFFFF_FFFF * 0xFFFF_FFFF) by (nonlinear_arith)
            requires
                mid <= 0xFFFF_FFFFu64,
        ;
        if mid * mid <= x {
            lo = mid;
        } else {
            hi = mid;
        }
    }
    lo
}

/// Clamp `v` into `[lo, hi]`.
pub fn clamp_i32(v: i32, lo: i32, hi: i32) -> (r: i32)
    requires
        lo <= hi,
    ensures
        r == spec_clamp(v as int, lo as int, hi as int),
{
    if v < lo {
        lo
    } else if v > hi {
        hi
    } else {
        v
    }
}

/// The mathematical clamp of `v` into `[lo, hi]`.
pub open spec fn spec_clamp(v: int, lo: int, hi: int) -> int {
    if v < lo {
        lo
    } else if v > hi {
        hi
    } else {
        v
    }
}

} // verus!
