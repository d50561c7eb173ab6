use vstd::prelude::*;
use crate::escape::EscapeResult;

verus! {

/// `v - 1/2 <= 255 * sqrt(k / f)`, doubled, squared and multiplied out:
/// `v` is at most `255 * sqrt(k / f)` rounded to the nearest integer.
pub open spec fn fits(v: int, k: int, f: int) -> bool {
    v == 0 || (2 * v - 1) * (2 * v - 1) * f <= 260100 * k
}

/// The largest `v <= m` with `v - 1/2 <= 255 * sqrt(k / f)`, or 0.
pub open spec fn glow_upto(m: nat, k: int, f: int) -> nat
    decreases m,
{
    if m == 0 {
        0
    } else if fits(m as int, k, f) {
        m
    } else {
        glow_upto((m - 1) as nat, k, f)
    }
}

/// Brightness of a point that escaped at iterate `k`, with scale factor `f`:
/// `255 * sqrt(k / f)` rounded to the nearest integer (halves up), at most
/// 255.
pub open spec fn glow(k: int, f: int) -> nat {
    glow_upto(255, k, f)
}

/// Intensity of a pixel: black for a point that did not escape, the glow of
/// its escape iterate otherwise.
pub open spec fn intensity_spec(escaped: bool, k: int, f: int) -> nat {
    if escaped {
        glow(k, f)
    } else {
        0
    }
}

/// Maps an escape iterate to a gray level: `255 * sqrt(k / f)` rounded to
/// the nearest integer (halves up), capped at 255.
pub fn brightness(iterations: u32, factor: u32) -> (r: u8)
    requires
        factor > 0,
    ensures
        r as nat == glow(iterations as int, factor as int),
        fits(r as int, iterations as int, factor as int),
        r == 255 || !fits(r + 1, iterations as int, factor as int),
{
    let lim: u64 = 260100 * iterations as u64;
    let f: u64 = factor as u64;
    let mut v: u64 = 255;
    loop
        invariant
            v <= 255,
            f == factor,
            lim == 260100 * iterations,
            glow(iterations as int, factor as int) == glow_upto(v as nat, iterations as int, factor as int),
            v < 255 ==> !fits(v + 1, iterations as int, factor as int),
        decreases v,
    {
        if v == 0 {
            return 0;
        }
        proof {
            assert((2 * v - 1) * (2 * v - 1) <= 259081 && (2 * v - 1) * (2 * v - 1) * f <= 259081
                * f) by (nonlinear_arith)
                requires 1 <= v <= 255;
        }
        let odd: u64 = 2 * v - 1;
        if odd * odd * f <= lim {
            return v as u8;
        }
        v = v - 1;
    }
}

/// The gray level of a pixel from its escape verdict.
pub fn intensity(e: EscapeResult, factor: u32) -> (r: u8)
    requires
        factor > 0,
    ensures
        r as nat == intensity_spec(e.escaped, e.iterations as int, factor as int),
{
    if e.escaped {
        brightness(e.iterations, factor)
    } else {
        0
    }
}

proof fn lemma_glow_upto_bounded(m: nat, k: int, f: int)
    ensures
        glow_upto(m, k, f) <= m,
    decreases m,
{
    if m > 0 {
        lemma_glow_upto_bounded((m - 1) as nat, k, f);
    }
}

proof fn lemma_glow_upto_monotonic(m: nat, a: int, b: int, f: int)
    requires
        a <= b,
        f > 0,
    ensures
        glow_upto(m, a, f) <= glow_upto(m, b, f),
    decreases m,
{
    if m > 0 {
        lemma_glow_upto_monotonic((m - 1) as nat, a, b, f);
        lemma_glow_upto_bounded((m - 1) as nat, a, f);
        assert(260100 * a <= 260100 * b);
    }
}

/// Brightness is monotonic in survival time: of two escaping points under
/// the same scale factor, the one that escaped later is at least as bright.
pub proof fn lemma_brightness_monotonic(a: u32, b: u32, factor: u32)
    requires
        a < b,
        factor > 0,
    ensures
        intensity_spec(true, a as int, factor as int) <= intensity_spec(true, b as int, factor as int),
{
    lemma_glow_upto_monotonic(255, a as int, b as int, factor as int);
}

} // verus!
