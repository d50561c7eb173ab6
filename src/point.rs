use vstd::prelude::*;

verus! {

/// The value 1.0 in fixed point.
pub const ONE: i64 = 268435456;

/// The value 1.0 in fixed point, as a mathematical integer.
pub open spec fn one() -> int {
    268435456
}

/// Four, the square of the escape radius, scaled twice (compared with a
/// squared magnitude).
pub open spec fn radius_sq() -> int {
    4 * one() * one()
}

/// A point of the complex plane; both parts are fixed-point numbers.
#[derive(Clone, Copy, Debug, PartialEq, Eq, Structural)]
pub struct ComplexPoint {
    pub re: i64,
    pub im: i64,
}

/// A product of two fixed-point numbers brought back to one scale: `a / ONE`,
/// rounded toward zero (so that `fx_scale_down(-a) == -fx_scale_down(a)`).
pub open spec fn fx_scale_down(a: int) -> int {
    if a >= 0 {
        a / one()
    } else {
        -((-a) / one())
    }
}

/// One step of `z <- z^2 + c`, each part of `z^2` rounded toward zero.
pub open spec fn step(z: (int, int), cr: int, ci: int) -> (int, int) {
    (
        fx_scale_down(z.0 * z.0 - z.1 * z.1) + cr,
        fx_scale_down(2 * z.0 * z.1) + ci,
    )
}

/// The `k`-th iterate of `z <- z^2 + c` from `z = 0`.
pub open spec fn orbit(cr: int, ci: int, k: nat) -> (int, int)
    decreases k,
{
    if k == 0 {
        (0, 0)
    } else {
        step(orbit(cr, ci, (k - 1) as nat), cr, ci)
    }
}

/// `|z| > 2`, tested as `|z|^2 > 4`.
pub open spec fn outside(z: (int, int)) -> bool {
    z.0 * z.0 + z.1 * z.1 > radius_sq()
}

/// A part of a point that is not outside lies within `[-2, 2]`.
pub proof fn lemma_inside_bounded(z: (int, int))
    requires
        !outside(z),
    ensures
        -2 * one() <= z.0 <= 2 * one(),
        -2 * one() <= z.1 <= 2 * one(),
{
    assert(z.0 * z.0 >= 0 && z.1 * z.1 >= 0) by (nonlinear_arith);
    assert(z.0 * z.0 + z.1 * z.1 <= 288230376151711744);
    assert(-536870912 <= z.0 <= 536870912) by (nonlinear_arith)
        requires z.0 * z.0 <= 288230376151711744;
    assert(-536870912 <= z.1 <= 536870912) by (nonlinear_arith)
        requires z.1 * z.1 <= 288230376151711744;
}

/// Divides by `ONE`, rounding toward zero.
fn scale_down(a: i64) -> (r: i64)
    requires
        -1152921504606846976 <= a <= 1152921504606846976,
    ensures
        r == fx_scale_down(a as int),
        -4294967296 <= r <= 4294967296,
{
    if a >= 0 {
        let r = a / ONE;
        assert(r <= 4294967296) by (nonlinear_arith)
            requires r == a / 268435456, 0 <= a <= 1152921504606846976;
        r
    } else {
        let r = (-a) / ONE;
        assert(r <= 4294967296) by (nonlinear_arith)
            requires r == (-a) / 268435456, 0 <= -a <= 1152921504606846976;
        -r
    }
}

/// Tells whether `z` lies outside the escape radius 2.
pub fn infinite(zr: i64, zi: i64) -> (r: bool)
    ensures
        r == outside((zr as int, zi as int)),
{
    let two: i64 = 2 * ONE;
    if zr > two || zr < -two || zi > two || zi < -two {
        proof {
            if !outside((zr as int, zi as int)) {
                lemma_inside_bounded((zr as int, zi as int));
            }
        }
        true
    } else {
        proof {
            assert(0 <= zr * zr <= 288230376151711744 && 0 <= zi * zi <= 288230376151711744)
                by (nonlinear_arith)
                requires -536870912 <= zr <= 536870912, -536870912 <= zi <= 536870912;
        }
        zr * zr + zi * zi > 4 * ONE * ONE
    }
}

/// One step of the iteration, from a point within the escape radius and a
/// `c` within it too.
pub fn next_point(zr: i64, zi: i64, cr: i64, ci: i64) -> (r: (i64, i64))
    requires
        !outside((zr as int, zi as int)),
        !outside((cr as int, ci as int)),
    ensures
        (r.0 as int, r.1 as int) == step((zr as int, zi as int), cr as int, ci as int),
{
    proof {
        lemma_inside_bounded((zr as int, zi as int));
        lemma_inside_bounded((cr as int, ci as int));
        assert(0 <= zr * zr <= 288230376151711744 && 0 <= zi * zi <= 288230376151711744)
            by (nonlinear_arith)
            requires -536870912 <= zr <= 536870912, -536870912 <= zi <= 536870912;
        assert(-288230376151711744 <= zr * zi <= 288230376151711744) by (nonlinear_arith)
            requires -536870912 <= zr <= 536870912, -536870912 <= zi <= 536870912;
    }
    let sq: i64 = zr * zr - zi * zi;
    let cross: i64 = 2 * (zr * zi);
    let a = scale_down(sq);
    let b = scale_down(cross);
    proof {
        assert(2 * (zr * zi) == 2 * zr * zi) by (nonlinear_arith);
    }
    (a + cr, b + ci)
}

} // verus!
