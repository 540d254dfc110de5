//! Q47.16 fixed-point helpers: the scale constant, integer square root,
//! and a decaying-exponential approximation used by the similarity kernel.

use vstd::prelude::*;

verus! {

/// One unit (1.0) in Q47.16 fixed point.
pub const SCALE: i64 = 65536;

/// `1/e` in Q47.16 fixed point, rounded down.
pub const INV_E: i64 = 24112;

/// Largest magnitude a fixed-point coordinate may have (64.0).
pub const MAX_COORD: i64 = 4194304;

/// Largest vector dimension the kernel accepts.
pub const MAX_DIM: usize = 128;

/// Largest number of weighted items a blend may hold.
pub const MAX_ITEMS: usize = 1024;

/// Fourth-order series for `exp(-f/SCALE)` on one fixed-point unit,
/// with the same truncating divisions the executable code performs.
pub open spec fn poly_spec(f: int) -> int {
    let p2 = f * f / (2 * SCALE);
    let p3 = p2 * f / (3 * SCALE);
    let p4 = p3 * f / (4 * SCALE);
    SCALE - f + p2 - p3 + p4
}

/// `r0` multiplied `n` times by the fixed-point `1/e`.
pub open spec fn decay_spec(r0: int, n: nat) -> int
    decreases n,
{
    if n == 0 {
        r0
    } else {
        decay_spec(r0, (n - 1) as nat) * INV_E / (SCALE as int)
    }
}

/// Fixed-point approximation of `exp(-q/SCALE)` for `q >= 0`.
pub open spec fn exp_neg_spec(q: int) -> int {
    if q / (SCALE as int) >= 30 {
        0
    } else {
        decay_spec(poly_spec(q % (SCALE as int)), (q / (SCALE as int)) as nat)
    }
}

/// The series tail stays within one unit.
pub proof fn lemma_poly_spec_bounds(f: int)
    requires
        0 <= f < SCALE,
    ensures
        0 <= poly_spec(f) <= SCALE,
{
    let p2 = f * f / (2 * SCALE);
    let p3 = p2 * f / (3 * SCALE);
    let p4 = p3 * f / (4 * SCALE);
    assert(0 <= f * f <= SCALE * SCALE) by (nonlinear_arith)
        requires 0 <= f < SCALE;
    assert(0 <= p2 && p2 <= f / 2) by (nonlinear_arith)
        requires p2 == f * f / (2 * SCALE), 0 <= f < SCALE, SCALE == 65536;
    assert(0 <= p2 * f <= p2 * SCALE) by (nonlinear_arith)
        requires 0 <= p2, 0 <= f < SCALE;
    assert(0 <= p3 && p3 <= p2) by (nonlinear_arith)
        requires p3 == p2 * f / (3 * SCALE), 0 <= p2 * f <= p2 * SCALE, 0 <= p2, SCALE == 65536;
    assert(0 <= p3 * f <= p3 * SCALE) by (nonlinear_arith)
        requires 0 <= p3, 0 <= f < SCALE;
    assert(0 <= p4 && p4 <= p3) by (nonlinear_arith)
        requires p4 == p3 * f / (4 * SCALE), 0 <= p3 * f <= p3 * SCALE, 0 <= p3, SCALE == 65536;
}

/// The decayed value stays within one unit.
pub proof fn lemma_decay_spec_bounds(p: int, n: nat)
    requires
        0 <= p <= SCALE,
    ensures
        0 <= decay_spec(p, n) <= SCALE,
    decreases n,
{
    if n > 0 {
        lemma_decay_spec_bounds(p, (n - 1) as nat);
        let d = decay_spec(p, (n - 1) as nat);
        assert(0 <= d * INV_E <= SCALE * INV_E) by (nonlinear_arith)
            requires 0 <= d <= SCALE;
        assert(0 <= d * INV_E / (SCALE as int) <= SCALE) by (nonlinear_arith)
            requires 0 <= d * INV_E <= SCALE * INV_E, SCALE == 65536, INV_E == 24112;
    }
}

/// Decaying more often never increases the value.
pub proof fn lemma_decay_spec_monotone(p: int, n1: nat, n2: nat)
    requires
        0 <= p <= SCALE,
        n1 <= n2,
    ensures
        decay_spec(p, n2) <= decay_spec(p, n1),
    decreases n2,
{
    if n1 < n2 {
        lemma_decay_spec_monotone(p, n1, (n2 - 1) as nat);
        lemma_decay_spec_bounds(p, (n2 - 1) as nat);
        let d = decay_spec(p, (n2 - 1) as nat);
        assert(d * INV_E / (SCALE as int) <= d) by (nonlinear_arith)
            requires 0 <= d, SCALE == 65536, INV_E == 24112;
    }
}

/// Partial monotonicity of the decaying exponential: at whole-unit steps
/// (equal fractional parts) a larger argument never gives a larger value.
pub proof fn lemma_exp_neg_spec_step_monotone(q1: int, q2: int)
    requires
        0 <= q1 <= q2,
        q1 % (SCALE as int) == q2 % (SCALE as int),
    ensures
        exp_neg_spec(q2) <= exp_neg_spec(q1),
{
    let f = q1 % (SCALE as int);
    let n1 = q1 / (SCALE as int);
    let n2 = q2 / (SCALE as int);
    assert(0 <= f < SCALE && 0 <= n1 && n1 <= n2) by (nonlinear_arith)
        requires
            0 <= q1 <= q2,
            q1 % (SCALE as int) == q2 % (SCALE as int),
            f == q1 % (SCALE as int),
            n1 == q1 / (SCALE as int),
            n2 == q2 / (SCALE as int),
            SCALE == 65536;
    lemma_poly_spec_bounds(f);
    if n2 >= 30 {
        if n1 >= 30 {
        } else {
            lemma_decay_spec_bounds(poly_spec(f), n1 as nat);
        }
    } else {
        lemma_decay_spec_monotone(poly_spec(f), n1 as nat, n2 as nat);
    }
}

/// Series tail for one unit: exact value, bounded by one unit on both sides.
fn poly(f: i64) -> (r: i64)
    requires
        0 <= f < SCALE,
    ensures
        r == poly_spec(f as int),
        0 <= r <= SCALE,
        f > 0 ==> r < SCALE,
        f == 0 ==> r == SCALE,
{
    proof {
        assert(0 <= f * f <= SCALE * SCALE) by (nonlinear_arith)
            requires 0 <= f < SCALE;
    }
    let p2: i64 = f * f / (2 * SCALE);
    proof {
        assert(0 <= p2 && p2 <= f / 2) by (nonlinear_arith)
            requires p2 == f * f / (2 * SCALE), 0 <= f < SCALE, SCALE == 65536;
        assert(0 <= p2 * f <= p2 * SCALE) by (nonlinear_arith)
            requires 0 <= p2, 0 <= f < SCALE;
    }
    let p3: i64 = p2 * f / (3 * SCALE);
    proof {
        assert(0 <= p3 && p3 <= p2) by (nonlinear_arith)
            requires p3 == p2 * f / (3 * SCALE), 0 <= p2 * f <= p2 * SCALE, 0 <= p2, SCALE == 65536;
        assert(0 <= p3 * f <= p3 * SCALE) by (nonlinear_arith)
            requires 0 <= p3, 0 <= f < SCALE;
    }
    let p4: i64 = p3 * f / (4 * SCALE);
    proof {
        assert(0 <= p4 && p4 <= p3) by (nonlinear_arith)
            requires p4 == p3 * f / (4 * SCALE), 0 <= p3 * f <= p3 * SCALE, 0 <= p3, SCALE == 65536;
        assert(f > 0 ==> f / 2 < f) by (nonlinear_arith)
            requires true;
    }
    SCALE - f + p2 - p3 + p4
}

/// Fixed-point `exp(-q/SCALE)`: exact with respect to `exp_neg_spec`,
/// always within `[0, SCALE]`, and exactly `SCALE` only at `q == 0`.
pub fn exp_neg(q: i64) -> (r: i64)
    requires
        q >= 0,
    ensures
        r == exp_neg_spec(q as int),
        0 <= r <= SCALE,
        q == 0 ==> r == SCALE,
        q > 0 ==> r < SCALE,
{
    if q >= 30 * SCALE {
        return 0;
    }
    let n: i64 = q / SCALE;
    let f: i64 = q % SCALE;
    let mut r: i64 = poly(f);
    let mut i: i64 = 0;
    while i < n
        invariant
            0 <= i <= n < 30,
            r == decay_spec(poly_spec(f as int), i as nat),
            0 <= r <= SCALE,
            i > 0 || f > 0 ==> r < SCALE,
        decreases n - i,
    {
        let r0: i64 = r;
        r = r * INV_E / SCALE;
        proof {
            assert(0 <= r0 * INV_E <= SCALE * INV_E) by (nonlinear_arith)
                requires 0 <= r0 <= SCALE;
            assert(r <= INV_E) by (nonlinear_arith)
                requires r == r0 * INV_E / (SCALE as int), 0 <= r0 * INV_E <= SCALE * INV_E;
            assert(0 <= r) by (nonlinear_arith)
                requires r == r0 * INV_E / (SCALE as int), 0 <= r0 * INV_E;
        }
        i = i + 1;
    }
    r
}

/// Integer square root: the largest `r` with `r * r <= n`.
pub fn isqrt(n: u64) -> (r: u64)
    ensures
        r * r <= n,
        (r + 1) * (r + 1) > n,
{
    let mut lo: u64 = 0;
    let mut hi: u64 = 4294967296;
    while lo + 1 < hi
        invariant
            lo < hi <= 4294967296,
            lo * lo <= n,
            hi * hi > n,
        decreases hi - lo,
    {
        let mid: u64 = lo + (hi - lo) / 2;
        proof {
            assert(mid * mid < 18446744073709551616) by (nonlinear_arith)
                requires mid < 4294967296;
        }
        if mid * mid <= n {
            lo = mid;
        } else {
            hi = mid;
        }
    }
    lo
}

} // verus!
