use vstd::prelude::*;

verus! {

/// An axial hex coordinate; the third cube coordinate is `s = -q - r`.
#[derive(Clone, Copy, Debug, PartialEq, Eq, Hash, Structural)]
pub struct HexPos {
    pub q: i32,
    pub r: i32,
}

/// A fractional axial coordinate `(q / den, r / den)`, held exactly as two
/// numerators over one positive denominator.
#[derive(Clone, Copy, Debug, PartialEq, Eq, Structural)]
pub struct FracHex {
    pub q: i64,
    pub r: i64,
    pub den: i64,
}

/// Largest denominator of a fractional coordinate.
pub const MAX_DEN: i64 = 0x4000_0000;

/// Largest magnitude of a fractional axial coordinate, in whole hexes.
pub const MAX_FRAC: i64 = 0x4000_0000;

impl FracHex {
    /// The denominator is positive and both coordinates lie within
    /// `MAX_FRAC` hexes of the origin, so that every rounded coordinate
    /// fits in an `i32`.
    pub open spec fn wf(self) -> bool {
        &&& 0 < self.den <= MAX_DEN
        &&& -MAX_FRAC * self.den <= self.q <= MAX_FRAC * self.den
        &&& -MAX_FRAC * self.den <= self.r <= MAX_FRAC * self.den
    }
}

/// The integer nearest to `n / d` (for `d > 0`), halves rounded away from zero.
pub open spec fn round_ratio(n: int, d: int) -> int {
    if n >= 0 {
        (2 * n + d) / (2 * d)
    } else {
        -((-2 * n + d) / (2 * d))
    }
}

/// Absolute value.
pub open spec fn abs(x: int) -> int {
    if x < 0 { -x } else { x }
}

/// Rounding of the fractional point `(qn / d, rn / d)` to a hex: each cube
/// coordinate is rounded on its own, then the one with the largest rounding
/// error is recomputed from the other two. Ties go to the first branch that
/// fires: `q` is replaced only if its error is strictly the largest, else `r`
/// is replaced if its error strictly exceeds that of `s`, else `s` is the one
/// dropped.
pub open spec fn axial_round_spec(qn: int, rn: int, d: int) -> (int, int) {
    let q = round_ratio(qn, d);
    let r = round_ratio(rn, d);
    let s = round_ratio(-qn - rn, d);
    let dq = abs(q * d - qn);
    let dr = abs(r * d - rn);
    let ds = abs(s * d + qn + rn);
    if dq > dr && dq > ds {
        (-r - s, r)
    } else if dr > ds {
        (q, -q - s)
    } else {
        (q, r)
    }
}

/// `round_ratio(n, d)` is within half a unit of `n / d`.
pub proof fn lemma_round_ratio_error(n: int, d: int)
    requires
        d > 0,
    ensures
        2 * abs(round_ratio(n, d) * d - n) <= d,
{
    let m = if n >= 0 { n } else { -n };
    let k = (2 * m + d) / (2 * d);
    let rem = (2 * m + d) % (2 * d);
    vstd::arithmetic::div_mod::lemma_fundamental_div_mod(2 * m + d, 2 * d);
    assert(2 * m + d == (2 * d) * k + rem);
    assert(0 <= rem < 2 * d);
    assert(k * (2 * d) == 2 * (k * d)) by (nonlinear_arith);
    assert(2 * d * k == k * (2 * d)) by (nonlinear_arith);
    if n < 0 {
        assert(round_ratio(n, d) == -k);
        assert((-k) * d == -(k * d)) by (nonlinear_arith);
    }
}

/// `round_ratio(n, d) == k` whenever `n / d` lies strictly within half a
/// unit of `k`.
pub proof fn lemma_round_ratio_unique(n: int, d: int, k: int)
    requires
        d > 0,
        2 * abs(k * d - n) < d,
    ensures
        round_ratio(n, d) == k,
{
    let kd = k * d;
    assert(k * (2 * d) == 2 * kd) by (nonlinear_arith)
        requires kd == k * d;
    assert((-k) * (2 * d) == -2 * kd) by (nonlinear_arith)
        requires kd == k * d;
    if n >= 0 {
        vstd::arithmetic::div_mod::lemma_fundamental_div_mod_converse(
            2 * n + d, 2 * d, k, 2 * n + d - 2 * kd);
    } else {
        vstd::arithmetic::div_mod::lemma_fundamental_div_mod_converse(
            -2 * n + d, 2 * d, -k, -2 * n + d + 2 * kd);
    }
}

/// A whole number whose multiple by `d > 0` lies within `m * d` of zero lies
/// within `m` of zero.
proof fn lemma_quotient_bound(k: int, d: int, m: int)
    requires
        d > 0,
        -m * d <= k * d <= m * d,
    ensures
        -m <= k <= m,
{
    if k > m {
        assert(k * d > m * d) by (nonlinear_arith)
            requires k > m, d > 0;
    }
    if k < -m {
        assert(k * d < -m * d) by (nonlinear_arith)
            requires k < -m, d > 0;
    }
}

/// The rounded hex satisfies the axial invariant `q + r + s == 0`, lies
/// within one unit of the fractional point on each of the three cube axes,
/// and agrees with the independent rounding on at least two of them.
pub proof fn lemma_axial_round_sound(qn: int, rn: int, d: int)
    requires
        d > 0,
    ensures
        ({
            let (q, r) = axial_round_spec(qn, rn, d);
            let s = -q - r;
            &&& q + r + s == 0
            &&& abs(q * d - qn) <= d
            &&& abs(r * d - rn) <= d
            &&& abs(s * d - (-qn - rn)) <= d
            &&& {
                ||| q == round_ratio(qn, d) && r == round_ratio(rn, d)
                ||| q == round_ratio(qn, d) && s == round_ratio(-qn - rn, d)
                ||| r == round_ratio(rn, d) && s == round_ratio(-qn - rn, d)
            }
        }),
{
    let q0 = round_ratio(qn, d);
    let r0 = round_ratio(rn, d);
    let s0 = round_ratio(-qn - rn, d);
    lemma_round_ratio_error(qn, d);
    lemma_round_ratio_error(rn, d);
    lemma_round_ratio_error(-qn - rn, d);
    assert((-r0 - s0) * d == -(r0 * d) - s0 * d) by (nonlinear_arith);
    assert((-q0 - s0) * d == -(q0 * d) - s0 * d) by (nonlinear_arith);
    assert((-q0 - r0) * d == -(q0 * d) - r0 * d) by (nonlinear_arith);
    assert(-(-r0 - s0) - r0 == s0);
    assert(-q0 - (-q0 - s0) == s0);
}

/// Every fractional point within a quarter unit of a hex centre on both
/// axial axes rounds to that hex.
pub proof fn lemma_round_near_center(q: int, r: int, qn: int, rn: int, d: int)
    requires
        d > 0,
        4 * abs(q * d - qn) < d,
        4 * abs(r * d - rn) < d,
    ensures
        axial_round_spec(qn, rn, d) == (q, r),
{
    lemma_round_ratio_unique(qn, d, q);
    lemma_round_ratio_unique(rn, d, r);
    assert((-q - r) * d == -(q * d) - r * d) by (nonlinear_arith);
    lemma_round_ratio_unique(-qn - rn, d, -q - r);
}

/// The exact fractional coordinates of a hex centre round back to that hex.
pub proof fn lemma_round_center(q: int, r: int, d: int)
    requires
        d > 0,
    ensures
        axial_round_spec(q * d, r * d, d) == (q, r),
{
    lemma_round_near_center(q, r, q * d, r * d, d);
}

/// Tie order of the rounding: when the `q` error ties with the largest
/// other error, `q` keeps its own rounding; when the `r` and `s` errors tie
/// as the largest, both `q` and `r` keep their own roundings.
pub proof fn lemma_axial_round_ties(qn: int, rn: int, d: int)
    requires
        d > 0,
    ensures
        ({
            let q = round_ratio(qn, d);
            let r = round_ratio(rn, d);
            let s = round_ratio(-qn - rn, d);
            let dq = abs(q * d - qn);
            let dr = abs(r * d - rn);
            let ds = abs(s * d + qn + rn);
            let (hq, hr) = axial_round_spec(qn, rn, d);
            &&& (dq == dr && dr >= ds) ==> hq == q
            &&& (dq == ds && ds >= dr) ==> (hq, hr) == (q, r)
            &&& (dr == ds && ds >= dq) ==> (hq, hr) == (q, r)
            &&& (dq == dr && dr > ds) ==> hr == -q - s
        }),
{
}

/// Rounds `n / d` to the nearest integer, halves away from zero.
fn round_div(n: i64, d: i64) -> (k: i64)
    requires
        0 < d <= MAX_DEN,
        -0x2000_0000_0000_0000 <= n <= 0x2000_0000_0000_0000,
    ensures
        k == round_ratio(n as int, d as int),
{
    if n >= 0 {
        (2 * n + d) / (2 * d)
    } else {
        let m = -n;
        -((2 * m + d) / (2 * d))
    }
}

/// Rounds a fractional axial coordinate to the hex that contains it.
pub fn axial_round(f: FracHex) -> (h: HexPos)
    requires
        f.wf(),
    ensures
        (h.q as int, h.r as int) == axial_round_spec(f.q as int, f.r as int, f.den as int),
{
    let d = f.den;
    proof {
        assert(-MAX_FRAC * d >= -0x1000_0000_0000_0000) by (nonlinear_arith)
            requires 0 < d <= MAX_DEN;
        lemma_round_ratio_error(f.q as int, d as int);
        lemma_round_ratio_error(f.r as int, d as int);
        lemma_round_ratio_error(-f.q - f.r, d as int);
        lemma_axial_round_sound(f.q as int, f.r as int, d as int);
    }
    let q = round_div(f.q, d);
    let r = round_div(f.r, d);
    let s = round_div(-(f.q + f.r), d);
    let eq = q * d - f.q;
    let er = r * d - f.r;
    let es = s * d + f.q + f.r;
    let dq = if eq < 0 { -eq } else { eq };
    let dr = if er < 0 { -er } else { er };
    let ds = if es < 0 { -es } else { es };
    let (hq, hr) = if dq > dr && dq > ds {
        (-r - s, r)
    } else if dr > ds {
        (q, -q - s)
    } else {
        (q, r)
    };
    proof {
        let m = MAX_FRAC + 1;
        lemma_quotient_bound(hq as int, d as int, m as int);
        lemma_quotient_bound(hr as int, d as int, m as int);
    }
    HexPos { q: hq as i32, r: hr as i32 }
}

} // verus!
