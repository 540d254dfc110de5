//! The similarity kernel: a Gaussian-like weight `exp(-distance/wideness)`
//! over fixed-point context vectors, with an optional recency variant that
//! scales each squared per-axis difference by its index. The kernel is
//! symmetric, non-negative, bounded by one unit, and exactly one unit on
//! equal vectors.

use vstd::prelude::*;
use crate::fixed::{SCALE, MAX_COORD, MAX_DIM, exp_neg, exp_neg_spec, isqrt};
use crate::scan::{sum_int, prefix_sum, lemma_sum_take_step, lemma_sum_take_all, lemma_sum_bounds};

verus! {

/// Default kernel wideness (0.05 in fixed point).
pub const WIDENESS: i64 = 3277;

/// Recency-kernel wideness (0.1 in fixed point).
pub const DOT_WIDENESS: i64 = 6554;

/// The integer square root: the unique `r >= 0` with `r^2 <= n < (r+1)^2`.
pub open spec fn sqrt_spec(n: int) -> int {
    choose|r: int| 0 <= r && #[trigger] (r * r) <= n && n < (r + 1) * (r + 1)
}

/// A witness in the square-root band pins `sqrt_spec` down.
pub proof fn lemma_sqrt_unique(n: int, r: int)
    requires
        0 <= r,
        r * r <= n,
        n < (r + 1) * (r + 1),
    ensures
        sqrt_spec(n) == r,
{
    assert(exists|x: int| 0 <= x && #[trigger] (x * x) <= n && n < (x + 1) * (x + 1)) by {
        assert(0 <= r && r * r <= n && n < (r + 1) * (r + 1));
    }
    let c = sqrt_spec(n);
    assert(0 <= c && c * c <= n && n < (c + 1) * (c + 1));
    if c < r {
        assert((c + 1) * (c + 1) <= r * r) by (nonlinear_arith)
            requires 0 <= c, c < r;
    }
    if r < c {
        assert((r + 1) * (r + 1) <= c * c) by (nonlinear_arith)
            requires 0 <= r, r < c;
    }
}

/// One squared per-axis difference, scaled by `i + 1` in the recency variant.
pub open spec fn diff_sq_at(a: Seq<i64>, b: Seq<i64>, i: int, recency: bool) -> int {
    let d = a[i] - b[i];
    if recency {
        d * d * (i + 1)
    } else {
        d * d
    }
}

/// All squared per-axis differences.
pub open spec fn diffs_sq(a: Seq<i64>, b: Seq<i64>, recency: bool) -> Seq<int> {
    Seq::new(a.len(), |i: int| diff_sq_at(a, b, i, recency))
}

/// The squared distance between two context vectors.
pub open spec fn dist_sq_spec(a: Seq<i64>, b: Seq<i64>, recency: bool) -> int {
    sum_int(diffs_sq(a, b, recency))
}

/// The kernel weight: `exp(-distance/wideness)` in fixed point.
pub open spec fn kernel_weight_spec(a: Seq<i64>, b: Seq<i64>, wideness: int, recency: bool) -> int {
    exp_neg_spec(sqrt_spec(dist_sq_spec(a, b, recency)) * SCALE / wideness)
}

/// The kernel is symmetric in its two vectors.
pub proof fn lemma_kernel_symmetric(a: Seq<i64>, b: Seq<i64>, wideness: int, recency: bool)
    requires
        a.len() == b.len(),
    ensures
        kernel_weight_spec(a, b, wideness, recency) == kernel_weight_spec(b, a, wideness, recency),
{
    assert(diffs_sq(a, b, recency) =~= diffs_sq(b, a, recency)) by {
        assert forall|i: int| 0 <= i < a.len() implies diffs_sq(a, b, recency)[i] == diffs_sq(
            b, a, recency)[i] by {
            let d1 = a[i] - b[i];
            let d2 = b[i] - a[i];
            assert(d1 * d1 == d2 * d2) by (nonlinear_arith)
                requires d1 == -d2;
            assert(d1 * d1 * (i + 1) == d2 * d2 * (i + 1)) by (nonlinear_arith)
                requires d1 * d1 == d2 * d2;
        }
    }
}

/// Whether every coordinate of `s` lies within the admissible range.
pub open spec fn coords_ok(s: Seq<i64>) -> bool {
    forall|i: int| 0 <= i < s.len() ==> -MAX_COORD <= #[trigger] s[i] <= MAX_COORD
}

/// Decides whether every coordinate lies within the admissible range.
pub fn coords_in_range(v: &Vec<i64>) -> (r: bool)
    ensures
        r == coords_ok(v@),
{
    let mut i: usize = 0;
    while i < v.len()
        invariant
            0 <= i <= v@.len(),
            forall|j: int| 0 <= j < i ==> -MAX_COORD <= #[trigger] v@[j] <= MAX_COORD,
        decreases v@.len() - i,
    {
        let c: i64 = v[i];
        if c < -MAX_COORD || c > MAX_COORD {
            proof {
                assert(!(-MAX_COORD <= v@[i as int] <= MAX_COORD));
            }
            return false;
        }
        i = i + 1;
    }
    true
}

/// The Gaussian-like similarity weight between two context vectors:
/// non-negative, at most one unit, and exactly one unit on equal vectors.
pub fn similarity(a: &Vec<i64>, b: &Vec<i64>, wideness: i64, recency: bool) -> (r: i64)
    requires
        a@.len() == b@.len(),
        1 <= a@.len() <= MAX_DIM,
        coords_ok(a@),
        coords_ok(b@),
        0 < wideness,
    ensures
        r == kernel_weight_spec(a@, b@, wideness as int, recency),
        0 <= r <= SCALE,
        a@ == b@ ==> r == SCALE,
{
    let ghost m = diffs_sq(a@, b@, recency);
    let mut acc: i64 = 0;
    let mut i: usize = 0;
    proof {
        assert(m.take(0) =~= Seq::<int>::empty());
    }
    while i < a.len()
        invariant
            a@.len() == b@.len(),
            1 <= a@.len() <= MAX_DIM,
            coords_ok(a@),
            coords_ok(b@),
            m == diffs_sq(a@, b@, recency),
            0 <= i <= a@.len(),
            acc == prefix_sum(m, i as int),
            0 <= acc <= i * 9007199254740992,
        decreases a@.len() - i,
    {
        let d: i64 = a[i] - b[i];
        proof {
            assert(0 <= d * d <= 70368744177664) by (nonlinear_arith)
                requires -8388608 <= d <= 8388608;
        }
        let dd: i64 = d * d;
        let term: i64 = if recency {
            proof {
                assert(0 <= dd * ((i + 1) as i64) <= 9007199254740992) by (nonlinear_arith)
                    requires 0 <= dd <= 70368744177664, 1 <= i + 1 <= 128;
            }
            dd * ((i + 1) as i64)
        } else {
            dd
        };
        proof {
            lemma_sum_take_step(m, i as int);
            assert(acc + term <= (i + 1) * 9007199254740992) by (nonlinear_arith)
                requires acc <= i * 9007199254740992, 0 <= term <= 9007199254740992, i >= 0;
            assert((i + 1) * 9007199254740992 <= 128 * 9007199254740992) by (nonlinear_arith)
                requires 0 <= i + 1 <= 128;
        }
        acc = acc + term;
        i = i + 1;
    }
    proof {
        lemma_sum_take_all(m);
    }
    let dist: u64 = isqrt(acc as u64);
    proof {
        assert(dist < 2147483648) by (nonlinear_arith)
            requires
                dist * dist <= acc as u64,
                acc as u64 <= 1152921504606846976;
        lemma_sqrt_unique(acc as int, dist as int);
        if a@ == b@ {
            assert forall|j: int| 0 <= j < m.len() implies 0 <= #[trigger] m[j] <= 0 by {
                let d = a@[j] - b@[j];
                assert(d * d == 0) by (nonlinear_arith)
                    requires d == 0;
                assert(d * d * (j + 1) == 0) by (nonlinear_arith)
                    requires d * d == 0;
            }
            lemma_sum_bounds(m, 0, 0);
            assert(dist == 0) by (nonlinear_arith)
                requires dist * dist <= 0;
        }
    }
    let q: i64 = (dist as i64) * SCALE / wideness;
    proof {
        assert(0 <= (dist as i64) * SCALE) by (nonlinear_arith)
            requires 0 <= dist as i64, SCALE == 65536;
        assert(0 <= ((dist as i64) * SCALE) / (wideness as int)) by (nonlinear_arith)
            requires 0 <= (dist as i64) * SCALE, wideness > 0;
    }
    exp_neg(q)
}

/// A 12-frame lookback context vector.
#[derive(Clone, Debug)]
pub struct Lookback12(pub Vec<i64>);

impl Lookback12 {
    /// Well-formed: exactly twelve in-range coordinates.
    pub open spec fn wf(self) -> bool {
        &&& self.0@.len() == 12
        &&& coords_ok(self.0@)
    }

    /// Plain Gaussian-like similarity with the default wideness.
    pub fn similarity(&self, other: &Lookback12) -> (r: i64)
        requires
            self.wf(),
            other.wf(),
        ensures
            r == kernel_weight_spec(self.0@, other.0@, WIDENESS as int, false),
            0 <= r <= SCALE,
            self.0@ == other.0@ ==> r == SCALE,
    {
        similarity(&self.0, &other.0, WIDENESS, false)
    }
}

/// The scalar-context kernel: `exp(-x^2/wideness)` on the difference of two
/// fixed-point scalars.
pub open spec fn rexp_weight_spec(x: int, y: int, wideness: int) -> int {
    exp_neg_spec((x - y) * (x - y) / wideness)
}

/// The scalar kernel is symmetric.
pub proof fn lemma_rexp_symmetric(x: int, y: int, wideness: int)
    ensures
        rexp_weight_spec(x, y, wideness) == rexp_weight_spec(y, x, wideness),
{
    assert((x - y) * (x - y) == (y - x) * (y - x)) by (nonlinear_arith);
}

/// A scalar context with squared-exponential similarity.
#[derive(Clone, Copy, Debug, PartialEq, Eq, Structural)]
pub struct RExp(pub i64);

impl RExp {
    /// Well-formed: the scalar lies within the coordinate range.
    pub open spec fn wf(self) -> bool {
        -MAX_COORD <= self.0 <= MAX_COORD
    }

    /// Squared-exponential similarity with the default wideness:
    /// non-negative, at most one unit, and one unit on equal scalars.
    pub fn similarity(&self, other: &RExp) -> (r: i64)
        requires
            self.wf(),
            other.wf(),
        ensures
            r == rexp_weight_spec(self.0 as int, other.0 as int, WIDENESS as int),
            0 <= r <= SCALE,
            self.0 == other.0 ==> r == SCALE,
    {
        let d: i64 = self.0 - other.0;
        proof {
            assert(0 <= d * d <= 70368744177664) by (nonlinear_arith)
                requires -8388608 <= d <= 8388608;
        }
        let dd: i64 = d * d;
        let q: i64 = dd / WIDENESS;
        proof {
            assert(0 <= (dd as int) / (WIDENESS as int)) by (nonlinear_arith)
                requires 0 <= dd, WIDENESS == 3277;
            if self.0 == other.0 {
                assert(dd == 0) by (nonlinear_arith)
                    requires d == 0, dd == d * d;
            }
        }
        exp_neg(q)
    }
}

} // verus!
