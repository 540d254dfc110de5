//! Base probability distributions: the continuous uniform distribution on an
//! interval (`CUD`) and the equal-weighted mixture of such intervals
//! (`AvgCUD`). Endpoints, densities and draws are Q47.16 fixed point.

use vstd::prelude::*;
use crate::fixed::{SCALE, MAX_COORD, MAX_ITEMS};
use crate::scan::{
    sum_int, prefix_sum, pick_spec, lemma_sum_take_step, lemma_sum_take_all, lemma_sum_bounds,
    lemma_pick_in_range, sum_vec, pick_index,
};
use crate::DistError;

verus! {

/// Continuous uniform distribution on `[a, b]`.
#[derive(Clone, Copy, Debug, PartialEq, Eq, Structural)]
pub struct CUD {
    pub a: i64,
    pub b: i64,
}

impl CUD {
    /// Well-formed: non-degenerate and within the coordinate range.
    pub open spec fn wf(self) -> bool {
        -MAX_COORD <= self.a < self.b <= MAX_COORD
    }

    /// Fixed-point length of the interval.
    pub open spec fn len_spec(self) -> int {
        self.b - self.a
    }

    /// Fixed-point density: `1/length` inside the interval, `0` outside.
    pub open spec fn eval_spec(self, x: int) -> int {
        if self.a <= x <= self.b {
            SCALE * SCALE / self.len_spec()
        } else {
            0
        }
    }

    /// The cubic-bias draw: for a unit draw `u` (in `(-SCALE, SCALE)`), the
    /// sample is `center + half_width * (u/SCALE)^3`, carried out in fixed
    /// point with truncation toward zero.
    pub open spec fn sample_spec(self, u: int) -> int {
        let c = self.a + (self.b - self.a) / 2;
        let hw = (self.b - self.a) / 2;
        let m = if u >= 0 { u } else { -u };
        let cube = m * m * m / (SCALE * SCALE);
        let off = hw * cube / (SCALE as int);
        if u >= 0 { c + off } else { c - off }
    }

    /// Builds an interval, rejecting a degenerate or out-of-range one.
    pub fn new(a: i64, b: i64) -> (r: Result<CUD, DistError>)
        ensures
            (-MAX_COORD <= a < b <= MAX_COORD) ==> r == Ok::<CUD, DistError>(CUD { a, b }),
            !(-MAX_COORD <= a < b <= MAX_COORD) ==> r == Err::<CUD, DistError>(
                DistError::ConfigurationError,
            ),
            r is Ok ==> r.unwrap().wf(),
    {
        if -MAX_COORD <= a && a < b && b <= MAX_COORD {
            Ok(CUD { a, b })
        } else {
            Err(DistError::ConfigurationError)
        }
    }

    /// Fixed-point length of the interval; always strictly positive.
    pub fn len(&self) -> (r: i64)
        requires
            self.wf(),
        ensures
            r == self.len_spec(),
            0 < r <= 2 * MAX_COORD,
    {
        self.b - self.a
    }

    /// Density at `x`: `SCALE*SCALE/length` inside `[a, b]`, else `0`.
    pub fn evaluate(&self, x: i64) -> (r: i64)
        requires
            self.wf(),
        ensures
            r == self.eval_spec(x as int),
            0 <= r <= SCALE * SCALE,
    {
        if self.a <= x && x <= self.b {
            proof {
                assert(SCALE * SCALE / self.len_spec() <= SCALE * SCALE) by (nonlinear_arith)
                    requires self.len_spec() >= 1;
                assert(SCALE * SCALE / self.len_spec() >= 0) by (nonlinear_arith)
                    requires self.len_spec() >= 1;
            }
            (SCALE * SCALE) / (self.b - self.a)
        } else {
            0
        }
    }

    /// Draws a sample from the unit draw `u`: the result of the cubic-bias
    /// transform, always inside `[a, b]`.
    pub fn sample_at(&self, u: i64) -> (r: i64)
        requires
            self.wf(),
            -SCALE < u < SCALE,
        ensures
            r == self.sample_spec(u as int),
            self.a <= r <= self.b,
    {
        let d: i64 = self.b - self.a;
        let c: i64 = self.a + d / 2;
        let hw: i64 = d / 2;
        let m: i64 = if u >= 0 { u } else { -u };
        proof {
            assert(0 <= m * m <= SCALE * SCALE) by (nonlinear_arith)
                requires 0 <= m < SCALE;
            assert(0 <= m * m * m <= (SCALE - 1) * SCALE * SCALE) by (nonlinear_arith)
                requires 0 <= m < SCALE;
        }
        let cube: i64 = m * m * m / (SCALE * SCALE);
        proof {
            assert(0 <= cube < SCALE) by (nonlinear_arith)
                requires
                    cube == m * m * m / (SCALE * SCALE),
                    0 <= m * m * m <= (SCALE - 1) * SCALE * SCALE,
                    SCALE == 65536;
            assert(0 <= hw * cube <= hw * SCALE) by (nonlinear_arith)
                requires 0 <= hw, 0 <= cube < SCALE;
        }
        let off: i64 = hw * cube / SCALE;
        proof {
            assert(0 <= off <= hw) by (nonlinear_arith)
                requires
                    off == hw * cube / (SCALE as int),
                    0 <= hw * cube <= hw * SCALE,
                    0 <= hw,
                    SCALE == 65536;
        }
        if u >= 0 {
            c + off
        } else {
            c - off
        }
    }

    /// Draws a sample with fresh randomness; always inside `[a, b]`.
    pub fn sample(&self, rng: &mut rand::rngs::ThreadRng) -> (r: i64)
        requires
            self.wf(),
        ensures
            self.a <= r <= self.b,
    {
        let u: i64 = crate::rng::draw_unit(rng);
        self.sample_at(u)
    }
}

/// Sequence-level well-formedness of a list of intervals.
pub open spec fn cuds_wf(s: Seq<CUD>) -> bool {
    forall|i: int| 0 <= i < s.len() ==> (#[trigger] s[i]).wf()
}

/// The densities of each interval of `s` at `x`.
pub open spec fn evals_of(s: Seq<CUD>, x: int) -> Seq<int> {
    s.map_values(|c: CUD| c.eval_spec(x))
}

/// The lengths of each interval of `s`.
pub open spec fn lens_of(s: Seq<CUD>) -> Seq<int> {
    s.map_values(|c: CUD| c.len_spec())
}

/// Equal-weighted mixture of uniform intervals: the arithmetic-mean density.
#[derive(Clone, Debug)]
pub struct AvgCUD {
    pub cuds: Vec<CUD>,
}

impl AvgCUD {
    /// Well-formed: at least one interval, a bounded count, all intervals
    /// well-formed.
    pub open spec fn wf(self) -> bool {
        &&& 1 <= self.cuds@.len() <= MAX_ITEMS
        &&& cuds_wf(self.cuds@)
    }

    /// Mean density of the member intervals at `x` (rounded down).
    pub open spec fn eval_spec(self, x: int) -> int {
        sum_int(evals_of(self.cuds@, x)) / (self.cuds@.len() as int)
    }

    /// Total fixed-point length of the member intervals.
    pub open spec fn total_len_spec(self) -> int {
        sum_int(lens_of(self.cuds@))
    }

    /// The member interval a cumulative-length scan selects for `cutoff`.
    pub open spec fn pick_spec(self, cutoff: int) -> int {
        pick_spec(lens_of(self.cuds@), cutoff)
    }

    /// The sample drawn when the length scan gets `cutoff` and the selected
    /// interval gets the unit draw `u`.
    pub open spec fn sample_spec(self, cutoff: int, u: int) -> int {
        self.cuds@[self.pick_spec(cutoff)].sample_spec(u)
    }

    /// Builds a mixture, rejecting an empty or oversized list or one with an
    /// ill-formed member.
    pub fn new(cuds: Vec<CUD>) -> (r: Result<AvgCUD, DistError>)
        ensures
            (1 <= cuds@.len() <= MAX_ITEMS && cuds_wf(cuds@)) ==> (r matches Ok(m) && m.cuds@
                == cuds@ && m.wf()),
            !(1 <= cuds@.len() <= MAX_ITEMS && cuds_wf(cuds@)) ==> r == Err::<AvgCUD, DistError>(
                DistError::ConfigurationError,
            ),
    {
        if cuds.len() < 1 || cuds.len() > MAX_ITEMS {
            return Err(DistError::ConfigurationError);
        }
        let mut i: usize = 0;
        while i < cuds.len()
            invariant
                0 <= i <= cuds@.len(),
                forall|j: int| 0 <= j < i ==> (#[trigger] cuds@[j]).wf(),
            decreases cuds@.len() - i,
        {
            let c = cuds[i];
            if !(-MAX_COORD <= c.a && c.a < c.b && c.b <= MAX_COORD) {
                return Err(DistError::ConfigurationError);
            }
            i = i + 1;
        }
        Ok(AvgCUD { cuds })
    }

    /// Decides well-formedness.
    pub fn is_wf(&self) -> (r: bool)
        ensures
            r == self.wf(),
    {
        if self.cuds.len() < 1 || self.cuds.len() > MAX_ITEMS {
            return false;
        }
        let mut i: usize = 0;
        while i < self.cuds.len()
            invariant
                0 <= i <= self.cuds@.len(),
                forall|j: int| 0 <= j < i ==> (#[trigger] self.cuds@[j]).wf(),
            decreases self.cuds@.len() - i,
        {
            let c: CUD = self.cuds[i];
            if !(-MAX_COORD <= c.a && c.a < c.b && c.b <= MAX_COORD) {
                proof {
                    assert(!self.cuds@[i as int].wf());
                }
                return false;
            }
            i = i + 1;
        }
        true
    }

    /// An owned copy with the same member intervals.
    pub fn copied(&self) -> (r: AvgCUD)
        ensures
            r.cuds@ == self.cuds@,
    {
        let mut cuds: Vec<CUD> = Vec::new();
        let mut i: usize = 0;
        while i < self.cuds.len()
            invariant
                0 <= i <= self.cuds@.len(),
                cuds@.len() == i,
                forall|j: int| 0 <= j < i ==> #[trigger] cuds@[j] == self.cuds@[j],
            decreases self.cuds@.len() - i,
        {
            cuds.push(self.cuds[i]);
            i = i + 1;
        }
        proof {
            assert(cuds@ =~= self.cuds@);
        }
        AvgCUD { cuds }
    }

    /// Mean of the member densities at `x`.
    pub fn evaluate(&self, x: i64) -> (r: i64)
        requires
            self.wf(),
        ensures
            r == self.eval_spec(x as int),
            0 <= r <= SCALE * SCALE,
    {
        let ghost m = evals_of(self.cuds@, x as int);
        let mut acc: i64 = 0;
        let mut i: usize = 0;
        proof {
            assert(m.take(0) =~= Seq::<int>::empty());
        }
        while i < self.cuds.len()
            invariant
                self.wf(),
                0 <= i <= self.cuds@.len(),
                m == evals_of(self.cuds@, x as int),
                acc == prefix_sum(m, i as int),
                0 <= acc <= i * (SCALE * SCALE),
            decreases self.cuds@.len() - i,
        {
            let e: i64 = self.cuds[i].evaluate(x);
            proof {
                lemma_sum_take_step(m, i as int);
                assert(acc + e <= (i + 1) * (SCALE * SCALE)) by (nonlinear_arith)
                    requires
                        acc <= i * (SCALE * SCALE),
                        0 <= e <= SCALE * SCALE,
                        i >= 0,
                        SCALE == 65536;
                assert((i + 1) * (SCALE * SCALE) <= 1024 * (SCALE * SCALE)) by (nonlinear_arith)
                    requires 0 <= i + 1 <= 1024, SCALE == 65536;
            }
            acc = acc + e;
            i = i + 1;
        }
        proof {
            lemma_sum_take_all(m);
            assert((acc as int) / (self.cuds@.len() as int) <= SCALE * SCALE && (acc as int) / (
            self.cuds@.len() as int) >= 0) by (nonlinear_arith)
                requires
                    0 <= acc <= self.cuds@.len() * (SCALE * SCALE),
                    self.cuds@.len() >= 1;
        }
        acc / (self.cuds.len() as i64)
    }

    /// Total length of the member intervals; strictly positive.
    pub fn total_len(&self) -> (r: i64)
        requires
            self.wf(),
        ensures
            r == self.total_len_spec(),
            0 < r <= (MAX_ITEMS as int) * 2 * MAX_COORD,
    {
        let mut lens: Vec<i64> = Vec::new();
        let mut i: usize = 0;
        while i < self.cuds.len()
            invariant
                self.wf(),
                0 <= i <= self.cuds@.len(),
                lens@.len() == i,
                forall|j: int| 0 <= j < i ==> #[trigger] lens@[j] == self.cuds@[j].len_spec(),
            decreases self.cuds@.len() - i,
        {
            let l: i64 = self.cuds[i].len();
            lens.push(l);
            i = i + 1;
        }
        proof {
            assert(lens@.map_values(|k: i64| k as int) =~= lens_of(self.cuds@));
            lemma_sum_bounds(lens_of(self.cuds@), 1, 2 * MAX_COORD);
            assert(self.cuds@.len() * 1 >= 1) by (nonlinear_arith)
                requires self.cuds@.len() >= 1;
            assert(self.cuds@.len() * (2 * MAX_COORD) <= (MAX_ITEMS as int) * 2 * MAX_COORD)
                by (nonlinear_arith)
                requires 1 <= self.cuds@.len() <= MAX_ITEMS as int;
        }
        sum_vec(&lens)
    }

    /// Draws a sample: the cumulative-length scan run with `cutoff` selects a
    /// member interval, which is sampled with the unit draw `u`. The result
    /// lies inside the selected member.
    pub fn sample_at(&self, cutoff: i64, u: i64) -> (r: i64)
        requires
            self.wf(),
            0 <= cutoff,
            -SCALE < u < SCALE,
        ensures
            r == self.sample_spec(cutoff as int, u as int),
            ({
                let k = self.pick_spec(cutoff as int);
                self.cuds@[k].a <= r <= self.cuds@[k].b
            }),
    {
        let mut lens: Vec<i64> = Vec::new();
        let mut i: usize = 0;
        while i < self.cuds.len()
            invariant
                self.wf(),
                0 <= i <= self.cuds@.len(),
                lens@.len() == i,
                forall|j: int| 0 <= j < i ==> #[trigger] lens@[j] == self.cuds@[j].len_spec(),
            decreases self.cuds@.len() - i,
        {
            let l: i64 = self.cuds[i].len();
            lens.push(l);
            i = i + 1;
        }
        proof {
            assert(lens@.map_values(|k: i64| k as int) =~= lens_of(self.cuds@));
            lemma_sum_bounds(lens_of(self.cuds@), 1, 2 * MAX_COORD);
            assert(self.cuds@.len() * (2 * MAX_COORD) <= (MAX_ITEMS as int) * 2 * MAX_COORD)
                by (nonlinear_arith)
                requires 1 <= self.cuds@.len() <= MAX_ITEMS as int;
        }
        let k: usize = pick_index(&lens, cutoff);
        self.cuds[k].sample_at(u)
    }

    /// Draws a sample with fresh randomness; the result lies inside one of
    /// the member intervals.
    pub fn sample(&self, rng: &mut rand::rngs::ThreadRng) -> (r: i64)
        requires
            self.wf(),
        ensures
            exists|k: int|
                0 <= k < self.cuds@.len() && (#[trigger] self.cuds@[k]).a <= r
                    <= self.cuds@[k].b,
    {
        let total: i64 = self.total_len();
        let cutoff: i64 = crate::rng::draw_cutoff(rng, total);
        let u: i64 = crate::rng::draw_unit(rng);
        let r: i64 = self.sample_at(cutoff, u);
        proof {
            lemma_pick_in_range(lens_of(self.cuds@), cutoff as int);
        }
        r
    }
}

} // verus!
