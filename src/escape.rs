use vstd::prelude::*;
use crate::point::{
    ComplexPoint,
    fx_scale_down,
    infinite,
    next_point,
    one,
    orbit,
    outside,
    radius_sq,
};

verus! {

/// Verdict of the escape-time iteration for one point.
#[derive(Clone, Copy, Debug, PartialEq, Eq, Structural)]
pub struct EscapeResult {
    /// Whether some iterate left the escape radius within the budget.
    pub escaped: bool,
    /// The index `k` of the first iterate `z_k` outside the radius, or 0.
    pub iterations: u32,
}

/// What the escape-time iteration yields for `c` with a budget of `n`
/// iterations: `(true, k)` where `z_k` is the first iterate (`1 <= k <= n`)
/// with `|z_k| > 2`, or `(false, 0)` when there is none.
pub open spec fn escape_spec(cr: int, ci: int, n: nat) -> (bool, nat)
    decreases n,
{
    if n == 0 {
        (false, 0)
    } else {
        let prev = escape_spec(cr, ci, (n - 1) as nat);
        if prev.0 {
            prev
        } else if outside(orbit(cr, ci, n)) {
            (true, n)
        } else {
            (false, 0)
        }
    }
}

/// A larger budget keeps the verdict of a smaller one once the point escaped.
pub proof fn lemma_escape_kept(cr: int, ci: int, m: nat, n: nat)
    requires
        m <= n,
        escape_spec(cr, ci, m).0,
    ensures
        escape_spec(cr, ci, n) == escape_spec(cr, ci, m),
    decreases n - m,
{
    if m < n {
        lemma_escape_kept(cr, ci, m, (n - 1) as nat);
    }
}

/// The escaped verdict reports an iterate that is outside, within the budget,
/// and the first one that is.
pub proof fn lemma_escape_first(cr: int, ci: int, n: nat)
    ensures
        escape_spec(cr, ci, n).0 ==> {
            let k = escape_spec(cr, ci, n).1;
            &&& 1 <= k <= n
            &&& outside(orbit(cr, ci, k))
            &&& forall|j: nat| 1 <= j < k ==> !outside(#[trigger] orbit(cr, ci, j))
        },
        !escape_spec(cr, ci, n).0 ==> escape_spec(cr, ci, n).1 == 0 && forall|j: nat|
            1 <= j <= n ==> !outside(#[trigger] orbit(cr, ci, j)),
    decreases n,
{
    if n > 0 {
        lemma_escape_first(cr, ci, (n - 1) as nat);
    }
}

/// Runs the escape-time iteration `z <- z^2 + c` from `z = 0` for at most
/// `budget` steps, testing `|z| > 2` after each step.
pub fn escape_time(c: ComplexPoint, budget: u32) -> (r: EscapeResult)
    ensures
        r.escaped == escape_spec(c.re as int, c.im as int, budget as nat).0,
        r.iterations as nat == escape_spec(c.re as int, c.im as int, budget as nat).1,
{
    let ghost cr = c.re as int;
    let ghost ci = c.im as int;
    if budget == 0 {
        return EscapeResult { escaped: false, iterations: 0 };
    }
    proof {
        lemma_first_iterate(cr, ci);
    }
    if infinite(c.re, c.im) {
        proof {
            lemma_escape_kept(cr, ci, 1, budget as nat);
        }
        return EscapeResult { escaped: true, iterations: 1 };
    }
    let mut zr: i64 = c.re;
    let mut zi: i64 = c.im;
    let mut k: u32 = 1;
    while k < budget
        invariant
            1 <= k <= budget,
            (zr as int, zi as int) == orbit(cr, ci, k as nat),
            !outside((zr as int, zi as int)),
            !outside((cr, ci)),
            cr == c.re,
            ci == c.im,
            escape_spec(cr, ci, k as nat) == (false, 0nat),
        decreases budget - k,
    {
        let (nr, ni) = next_point(zr, zi, c.re, c.im);
        k = k + 1;
        if infinite(nr, ni) {
            proof {
                lemma_escape_kept(cr, ci, k as nat, budget as nat);
            }
            return EscapeResult { escaped: true, iterations: k };
        }
        zr = nr;
        zi = ni;
    }
    EscapeResult { escaped: false, iterations: 0 }
}

/// `4^m`.
pub open spec fn pow4(m: nat) -> int
    decreases m,
{
    if m == 0 {
        1
    } else {
        4 * pow4((m - 1) as nat)
    }
}

/// A power of four is a sum of two squares only with one of them zero.
pub proof fn lemma_squares_power_of_four(a: int, b: int, m: nat)
    requires
        a * a + b * b == pow4(m),
    ensures
        a == 0 || b == 0,
    decreases m,
{
    if m == 0 {
        if a != 0 && b != 0 {
            assert(a * a >= 1 && b * b >= 1) by (nonlinear_arith)
                requires a != 0, b != 0;
        }
    } else {
        let qa = a / 2;
        let ra = a % 2;
        let qb = b / 2;
        let rb = b % 2;
        assert(a * a == 4 * (qa * qa + qa * ra) + ra) by (nonlinear_arith)
            requires a == 2 * qa + ra, ra == 0 || ra == 1;
        assert(b * b == 4 * (qb * qb + qb * rb) + rb) by (nonlinear_arith)
            requires b == 2 * qb + rb, rb == 0 || rb == 1;
        assert(ra == 0 && rb == 0);
        assert(qa * qa + qb * qb == pow4((m - 1) as nat));
        lemma_squares_power_of_four(qa, qb, (m - 1) as nat);
    }
}

/// The first iterate is `c`, and the verdict with no budget is "not escaped".
proof fn lemma_first_iterate(cr: int, ci: int)
    ensures
        orbit(cr, ci, 1) == (cr, ci),
        escape_spec(cr, ci, 1) == (if outside((cr, ci)) { (true, 1nat) } else { (false, 0nat) }),
{
    assert(orbit(cr, ci, 0) == (0int, 0int));
    assert(escape_spec(cr, ci, 0) == (false, 0nat));
}

/// The points `2`, `2i` and `-2i` lie on the radius and leave it at the
/// second iterate.
proof fn lemma_second_iterate(cr: int, ci: int)
    requires
        (cr == 536870912 && ci == 0) || (cr == 0 && (ci == 536870912 || ci == -536870912)),
    ensures
        !outside(orbit(cr, ci, 1)),
        outside(orbit(cr, ci, 2)),
{
    lemma_first_iterate(cr, ci);
    assert(cr * cr + ci * ci == 288230376151711744) by (nonlinear_arith)
        requires
            (cr == 536870912 && ci == 0) || (cr == 0 && (ci == 536870912 || ci == -536870912));
    let z = orbit(cr, ci, 2);
    assert(z.0 == fx_scale_down(cr * cr - ci * ci) + cr);
    assert(z.1 == fx_scale_down(2 * cr * ci) + ci);
    if ci == 0 {
        assert(cr * cr - ci * ci == 288230376151711744 && 2 * cr * ci == 0) by (nonlinear_arith)
            requires cr == 536870912, ci == 0;
        assert(z.0 == 1610612736 && z.1 == 0);
        assert(z.0 * z.0 + z.1 * z.1 == 2594073385365405696) by (nonlinear_arith)
            requires z.0 == 1610612736, z.1 == 0;
    } else {
        assert(cr * cr - ci * ci == -288230376151711744 && 2 * cr * ci == 0) by (nonlinear_arith)
            requires cr == 0, ci == 536870912 || ci == -536870912;
        assert(z.0 == -1073741824 && z.1 == ci);
        assert(z.0 * z.0 + z.1 * z.1 == 1441151880758558720) by (nonlinear_arith)
            requires z.0 == -1073741824, ci == 536870912 || ci == -536870912, z.1 == ci;
    }
}

/// Every point with `|c| >= 2` escapes within two iterations, but for
/// `c = -2`, whose orbit stays at `2` forever. With a budget of one iteration
/// only the points with `|c| > 2` are seen to escape.
pub proof fn lemma_far_points_escape(c: ComplexPoint, budget: u32)
    requires
        c.re * c.re + c.im * c.im >= radius_sq(),
        !(c.re == -2 * one() && c.im == 0),
        budget >= 2 || (budget >= 1 && outside((c.re as int, c.im as int))),
    ensures
        escape_spec(c.re as int, c.im as int, budget as nat).0,
        escape_spec(c.re as int, c.im as int, budget as nat).1 <= 2,
{
    let cr = c.re as int;
    let ci = c.im as int;
    lemma_first_iterate(cr, ci);
    if outside((cr, ci)) {
        lemma_escape_kept(cr, ci, 1, budget as nat);
    } else {
        let t: int = 536870912;
        assert(cr * cr + ci * ci == t * t);
        reveal_with_fuel(pow4, 30);
        assert(pow4(29) == t * t);
        lemma_squares_power_of_four(cr, ci, 29);
        if ci == 0 {
            assert(cr == t || cr == -t) by (nonlinear_arith)
                requires cr * cr + ci * ci == t * t, ci == 0, t == 536870912;
            assert(cr == t);
            lemma_second_iterate(t, 0);
        } else {
            assert(cr == 0);
            assert(ci * ci == t * t) by (nonlinear_arith)
                requires cr == 0, cr * cr + ci * ci == t * t;
            assert(ci == t || ci == -t) by (nonlinear_arith)
                requires ci * ci == t * t, t == 536870912;
            lemma_second_iterate(0, ci);
        }
        assert(outside(orbit(cr, ci, 2)));
        assert(escape_spec(cr, ci, 2) == (true, 2nat));
        lemma_escape_kept(cr, ci, 2, budget as nat);
    }
}

/// The origin never escapes, whatever the budget.
pub proof fn lemma_origin_stays(budget: u32)
    ensures
        escape_spec(0, 0, budget as nat) == (false, 0nat),
{
    lemma_origin_stays_upto(budget as nat);
}

proof fn lemma_origin_stays_upto(n: nat)
    ensures
        orbit(0, 0, n) == (0int, 0int),
        escape_spec(0, 0, n) == (false, 0nat),
    decreases n,
{
    if n > 0 {
        lemma_origin_stays_upto((n - 1) as nat);
    }
}

/// `c = 2`: the first iterate `2` is on the radius, not outside it, so the
/// point escapes at the second iterate (`6`).
pub proof fn lemma_two_escapes_at_second(budget: u32)
    requires
        budget >= 1,
    ensures
        escape_spec(2 * one(), 0, budget as nat) == (if budget >= 2 { (true, 2nat) } else { (false, 0nat) }),
{
    let cr: int = 536870912;
    lemma_first_iterate(cr, 0);
    lemma_second_iterate(cr, 0);
    assert(escape_spec(cr, 0, 2) == (true, 2nat));
    if budget >= 2 {
        lemma_escape_kept(cr, 0, 2, budget as nat);
    }
}

proof fn lemma_scale_down_odd(a: int)
    ensures
        fx_scale_down(-a) == -fx_scale_down(a),
{
}

proof fn lemma_orbit_conjugate(cr: int, ci: int, k: nat)
    ensures
        orbit(cr, -ci, k) == (orbit(cr, ci, k).0, -orbit(cr, ci, k).1),
    decreases k,
{
    if k > 0 {
        lemma_orbit_conjugate(cr, ci, (k - 1) as nat);
        let z = orbit(cr, ci, (k - 1) as nat);
        assert((-z.1) * (-z.1) == z.1 * z.1) by (nonlinear_arith);
        assert(2 * z.0 * (-z.1) == -(2 * z.0 * z.1)) by (nonlinear_arith);
        lemma_scale_down_odd(2 * z.0 * z.1);
    }
}

proof fn lemma_escape_conjugate(cr: int, ci: int, n: nat)
    ensures
        escape_spec(cr, -ci, n) == escape_spec(cr, ci, n),
    decreases n,
{
    if n > 0 {
        lemma_escape_conjugate(cr, ci, (n - 1) as nat);
        lemma_orbit_conjugate(cr, ci, n);
        let z = orbit(cr, ci, n);
        assert((-z.1) * (-z.1) == z.1 * z.1) by (nonlinear_arith);
    }
}

/// The set is symmetric about the real axis: a point and its conjugate get
/// the same verdict, since the orbit of the conjugate is the conjugate of
/// the orbit.
pub proof fn lemma_conjugate_symmetric(c: ComplexPoint, budget: u32)
    ensures
        escape_spec(c.re as int, -c.im, budget as nat) == escape_spec(
            c.re as int,
            c.im as int,
            budget as nat,
        ),
{
    lemma_escape_conjugate(c.re as int, c.im as int, budget as nat);
}

} // verus!
