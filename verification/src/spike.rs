//! Point-plus-jitter distributions ("spikes") over fixed-length vectors, and
//! the categorical blend over them. A spike supports only sampling; asking it
//! for a density is an `UnsupportedOperation`.

use vstd::prelude::*;
use crate::fixed::{SCALE, MAX_COORD, MAX_DIM, MAX_ITEMS};
use crate::scan::{
    sum_int, ints_of, pick_spec, lemma_sum_bounds, lemma_elem_le_sum, lemma_pick_in_range, sum_vec,
    pick_index,
};
use crate::blend::{has_positive, has_negative};
use crate::DistError;

verus! {

/// One axis of a spike draw: the center nudged by at most `half`, with the
/// unit draw `u` in `[0, SCALE)` deciding direction and magnitude.
pub open spec fn nudge_spec(p: int, half: int, u: int) -> int {
    if 2 * u <= SCALE {
        p + half * (SCALE - 2 * u) / (SCALE as int)
    } else {
        p - half * (2 * u - SCALE) / (SCALE as int)
    }
}

/// A center vector plus symmetric independent per-axis uniform jitter of
/// total width `side_len`.
#[derive(Clone, Debug)]
pub struct SpikeDist {
    pub pos: Vec<i64>,
    pub side_len: i64,
}

impl SpikeDist {
    /// Well-formed: a bounded non-empty center within the coordinate range
    /// and a non-negative jitter width.
    pub open spec fn wf(self) -> bool {
        &&& 1 <= self.pos@.len() <= MAX_DIM
        &&& forall|i: int|
            0 <= i < self.pos@.len() ==> -MAX_COORD <= #[trigger] self.pos@[i] <= MAX_COORD
        &&& 0 <= self.side_len <= 2 * MAX_COORD
    }

    /// The vector drawn for per-axis unit draws `us`.
    pub open spec fn sample_spec(self, us: Seq<i64>) -> Seq<i64> {
        Seq::new(
            self.pos@.len(),
            |i: int| nudge_spec(self.pos@[i] as int, self.side_len as int / 2, us[i] as int) as i64,
        )
    }

    /// Builds a spike, rejecting an empty or oversized center, one out of
    /// the coordinate range, or a negative or oversized jitter width.
    pub fn new(pos: Vec<i64>, side_len: i64) -> (r: Result<SpikeDist, DistError>)
        ensures
            (1 <= pos@.len() <= MAX_DIM && (forall|i: int|
                0 <= i < pos@.len() ==> -MAX_COORD <= #[trigger] pos@[i] <= MAX_COORD) && 0
                <= side_len <= 2 * MAX_COORD) ==> (r matches Ok(s) && s.pos@ == pos@ && s.side_len
                == side_len && s.wf()),
            !(1 <= pos@.len() <= MAX_DIM && (forall|i: int|
                0 <= i < pos@.len() ==> -MAX_COORD <= #[trigger] pos@[i] <= MAX_COORD) && 0
                <= side_len <= 2 * MAX_COORD) ==> r == Err::<SpikeDist, DistError>(
                DistError::ConfigurationError,
            ),
    {
        if pos.len() < 1 || pos.len() > MAX_DIM || side_len < 0 || side_len > 2 * MAX_COORD {
            return Err(DistError::ConfigurationError);
        }
        let mut i: usize = 0;
        while i < pos.len()
            invariant
                0 <= i <= pos@.len(),
                forall|j: int| 0 <= j < i ==> -MAX_COORD <= #[trigger] pos@[j] <= MAX_COORD,
            decreases pos@.len() - i,
        {
            let p: i64 = pos[i];
            if p < -MAX_COORD || p > MAX_COORD {
                return Err(DistError::ConfigurationError);
            }
            i = i + 1;
        }
        Ok(SpikeDist { pos, side_len })
    }

    /// A spike has no density; only sampling is supported.
    pub fn evaluate(&self, _eval_pos: &Vec<i64>) -> (r: Result<i64, DistError>)
        ensures
            r == Err::<i64, DistError>(DistError::UnsupportedOperation),
    {
        Err(DistError::UnsupportedOperation)
    }

    /// Decides well-formedness.
    pub fn is_wf(&self) -> (r: bool)
        ensures
            r == self.wf(),
    {
        if self.pos.len() < 1 || self.pos.len() > MAX_DIM {
            return false;
        }
        if self.side_len < 0 || self.side_len > 2 * MAX_COORD {
            return false;
        }
        crate::kernel::coords_in_range(&self.pos)
    }

    /// An owned copy with the same center and jitter width.
    pub fn copied(&self) -> (r: SpikeDist)
        ensures
            r.pos@ == self.pos@,
            r.side_len == self.side_len,
    {
        let mut pos: Vec<i64> = Vec::new();
        let mut i: usize = 0;
        while i < self.pos.len()
            invariant
                0 <= i <= self.pos@.len(),
                pos@.len() == i,
                forall|j: int| 0 <= j < i ==> #[trigger] pos@[j] == self.pos@[j],
            decreases self.pos@.len() - i,
        {
            pos.push(self.pos[i]);
            i = i + 1;
        }
        proof {
            assert(pos@ =~= self.pos@);
        }
        SpikeDist { pos, side_len: self.side_len }
    }

    /// Draws a sample from per-axis unit draws `us`: each axis is nudged
    /// away from the center by at most half the jitter width.
    pub fn sample_at(&self, us: &Vec<i64>) -> (r: Vec<i64>)
        requires
            self.wf(),
            us@.len() == self.pos@.len(),
            forall|i: int| 0 <= i < us@.len() ==> 0 <= #[trigger] us@[i] < SCALE,
        ensures
            r@ == self.sample_spec(us@),
            r@.len() == self.pos@.len(),
            forall|i: int|
                0 <= i < r@.len() ==> self.pos@[i] - self.side_len / 2 <= #[trigger] r@[i]
                    <= self.pos@[i] + self.side_len / 2,
    {
        let half: i64 = self.side_len / 2;
        let mut out: Vec<i64> = Vec::new();
        let mut i: usize = 0;
        while i < self.pos.len()
            invariant
                self.wf(),
                us@.len() == self.pos@.len(),
                forall|k: int| 0 <= k < us@.len() ==> 0 <= #[trigger] us@[k] < SCALE,
                half == self.side_len / 2,
                0 <= i <= self.pos@.len(),
                out@.len() == i,
                forall|k: int|
                    0 <= k < i ==> #[trigger] out@[k] == nudge_spec(
                        self.pos@[k] as int, half as int, us@[k] as int) as i64,
                forall|k: int|
                    0 <= k < i ==> self.pos@[k] - half <= #[trigger] out@[k] <= self.pos@[k] + half,
            decreases self.pos@.len() - i,
        {
            let p: i64 = self.pos[i];
            let two: i64 = 2 * us[i];
            let v: i64 = if two <= SCALE {
                let t: i64 = SCALE - two;
                proof {
                    assert(0 <= half * t <= half * SCALE) by (nonlinear_arith)
                        requires 0 <= half, 0 <= t <= SCALE;
                    assert(0 <= (half * t) / (SCALE as int) <= half) by (nonlinear_arith)
                        requires 0 <= half * t <= half * SCALE, 0 <= half, SCALE == 65536;
                }
                p + half * t / SCALE
            } else {
                let t: i64 = two - SCALE;
                proof {
                    assert(0 <= half * t <= half * SCALE) by (nonlinear_arith)
                        requires 0 <= half, 0 <= t <= SCALE;
                    assert(0 <= (half * t) / (SCALE as int) <= half) by (nonlinear_arith)
                        requires 0 <= half * t <= half * SCALE, 0 <= half, SCALE == 65536;
                }
                p - half * t / SCALE
            };
            out.push(v);
            i = i + 1;
        }
        proof {
            assert(out@ =~= self.sample_spec(us@));
        }
        out
    }

    /// Draws a sample with fresh randomness: each axis stays within half the
    /// jitter width of the center.
    pub fn sample(&self, rng: &mut rand::rngs::ThreadRng) -> (r: Vec<i64>)
        requires
            self.wf(),
        ensures
            r@.len() == self.pos@.len(),
            forall|i: int|
                0 <= i < r@.len() ==> self.pos@[i] - self.side_len / 2 <= #[trigger] r@[i]
                    <= self.pos@[i] + self.side_len / 2,
    {
        let us: Vec<i64> = draw_units(rng, self.pos.len());
        self.sample_at(&us)
    }
}

/// Draws `n` unit draws in `[0, SCALE)`.
pub fn draw_units(rng: &mut rand::rngs::ThreadRng, n: usize) -> (r: Vec<i64>)
    ensures
        r@.len() == n,
        forall|i: int| 0 <= i < r@.len() ==> 0 <= #[trigger] r@[i] < SCALE,
{
    let mut us: Vec<i64> = Vec::new();
    let mut i: usize = 0;
    while i < n
        invariant
            0 <= i <= n,
            us@.len() == i,
            forall|k: int| 0 <= k < i ==> 0 <= #[trigger] us@[k] < SCALE,
        decreases n - i,
    {
        let u: i64 = crate::rng::draw_cutoff(rng, SCALE);
        us.push(u);
        i = i + 1;
    }
    us
}

/// Sequence-level well-formedness of a list of spikes sharing one dimension.
pub open spec fn spikes_wf(s: Seq<SpikeDist>) -> bool {
    &&& forall|i: int| 0 <= i < s.len() ==> (#[trigger] s[i]).wf()
    &&& forall|i: int| 0 <= i < s.len() ==> (#[trigger] s[i]).pos@.len() == s[0].pos@.len()
}

/// Categorical blend over spikes: unnormalized weights, one whole spike
/// picked at sampling time, no density.
#[derive(Clone, Debug)]
pub struct WeightedSpikes {
    pub spikes: Vec<SpikeDist>,
    pub weights: Vec<i64>,
}

impl WeightedSpikes {
    /// Well-formed: parallel bounded lists of same-dimension spikes, all
    /// weights admissible and at least one strictly positive.
    pub open spec fn wf(self) -> bool {
        &&& self.spikes@.len() == self.weights@.len()
        &&& 1 <= self.spikes@.len() <= MAX_ITEMS
        &&& spikes_wf(self.spikes@)
        &&& forall|i: int| 0 <= i < self.weights@.len() ==> 0 <= #[trigger] self.weights@[i] <= SCALE
        &&& has_positive(ints_of(self.weights@))
    }

    /// The dimension of every member spike.
    pub open spec fn dim_spec(self) -> int {
        self.spikes@[0].pos@.len() as int
    }

    /// The entry the raw-weight scan selects for `cutoff`.
    pub open spec fn pick_spec(self, cutoff: int) -> int {
        pick_spec(ints_of(self.weights@), cutoff)
    }

    /// The sample drawn for scan cutoff `cutoff` and per-axis unit draws
    /// `us`.
    pub open spec fn sample_spec(self, cutoff: int, us: Seq<i64>) -> Seq<i64> {
        self.spikes@[self.pick_spec(cutoff)].sample_spec(us)
    }

    /// Builds the blend from raw `(spike, weight)` pairs. A weight set with
    /// a negative entry or without a strictly positive entry cannot drive
    /// the categorical pick and is rejected as `EmptyWeightSet`.
    pub fn from_weighted(spikes: Vec<SpikeDist>, weights: Vec<i64>) -> (r: Result<
        WeightedSpikes,
        DistError,
    >)
        requires
            spikes@.len() == weights@.len(),
            spikes@.len() <= MAX_ITEMS,
            spikes_wf(spikes@),
            forall|i: int| 0 <= i < weights@.len() ==> -SCALE <= #[trigger] weights@[i] <= SCALE,
        ensures
            (has_negative(ints_of(weights@)) || !has_positive(ints_of(weights@))) <==> r is Err,
            r is Err ==> r == Err::<WeightedSpikes, DistError>(DistError::EmptyWeightSet),
            r matches Ok(b) ==> b.spikes@ == spikes@ && b.weights@ == weights@ && b.wf(),
    {
        let mut saw_pos: bool = false;
        let mut saw_neg: bool = false;
        let mut i: usize = 0;
        while i < weights.len()
            invariant
                0 <= i <= weights@.len(),
                saw_pos <==> exists|k: int| 0 <= k < i && #[trigger] weights@[k] > 0,
                saw_neg <==> exists|k: int| 0 <= k < i && #[trigger] weights@[k] < 0,
            decreases weights@.len() - i,
        {
            let w: i64 = weights[i];
            if w > 0 {
                saw_pos = true;
            }
            if w < 0 {
                saw_neg = true;
            }
            i = i + 1;
        }
        proof {
            assert(forall|k: int|
                0 <= k < weights@.len() ==> ints_of(weights@)[k] == (#[trigger] weights@[k]) as int);
            if has_positive(ints_of(weights@)) {
                let k = choose|k: int|
                    0 <= k < ints_of(weights@).len() && ints_of(weights@)[k] > 0;
                assert(weights@[k] > 0);
            }
            if has_negative(ints_of(weights@)) {
                let k = choose|k: int|
                    0 <= k < ints_of(weights@).len() && ints_of(weights@)[k] < 0;
                assert(weights@[k] < 0);
            }
            if exists|k: int| 0 <= k < weights@.len() && #[trigger] weights@[k] > 0 {
                let k = choose|k: int| 0 <= k < weights@.len() && #[trigger] weights@[k] > 0;
                assert(ints_of(weights@)[k] > 0);
                assert(has_positive(ints_of(weights@)));
            }
            if exists|k: int| 0 <= k < weights@.len() && #[trigger] weights@[k] < 0 {
                let k = choose|k: int| 0 <= k < weights@.len() && #[trigger] weights@[k] < 0;
                assert(ints_of(weights@)[k] < 0);
                assert(has_negative(ints_of(weights@)));
            }
        }
        if saw_neg || !saw_pos {
            Err(DistError::EmptyWeightSet)
        } else {
            Ok(WeightedSpikes { spikes, weights })
        }
    }

    /// A spike blend has no density; only sampling is supported.
    pub fn evaluate(&self, _eval_pos: &Vec<i64>) -> (r: Result<i64, DistError>)
        ensures
            r == Err::<i64, DistError>(DistError::UnsupportedOperation),
    {
        Err(DistError::UnsupportedOperation)
    }

    /// Raw weight total; strictly positive for a well-formed blend.
    pub fn total_weight(&self) -> (r: i64)
        requires
            self.wf(),
        ensures
            r == sum_int(ints_of(self.weights@)),
            r > 0,
    {
        proof {
            lemma_sum_bounds(ints_of(self.weights@), 0, SCALE as int);
            assert(self.weights@.len() * (SCALE as int) <= 1024 * 65536) by (nonlinear_arith)
                requires 0 <= self.weights@.len() <= 1024, SCALE == 65536;
            let k = choose|k: int|
                0 <= k < ints_of(self.weights@).len() && ints_of(self.weights@)[k] > 0;
            lemma_elem_le_sum(ints_of(self.weights@), k);
        }
        sum_vec(&self.weights)
    }

    /// Draws a sample: the raw-weight scan run with `cutoff` selects a
    /// spike, which is sampled with the per-axis unit draws `us`.
    pub fn sample_at(&self, cutoff: i64, us: &Vec<i64>) -> (r: Vec<i64>)
        requires
            self.wf(),
            0 <= cutoff,
            us@.len() == self.dim_spec(),
            forall|i: int| 0 <= i < us@.len() ==> 0 <= #[trigger] us@[i] < SCALE,
        ensures
            r@ == self.sample_spec(cutoff as int, us@),
            r@.len() == self.dim_spec(),
            ({
                let k = self.pick_spec(cutoff as int);
                forall|i: int|
                    0 <= i < r@.len() ==> self.spikes@[k].pos@[i] - self.spikes@[k].side_len / 2
                        <= #[trigger] r@[i] <= self.spikes@[k].pos@[i] + self.spikes@[k].side_len
                        / 2
            }),
    {
        proof {
            lemma_sum_bounds(ints_of(self.weights@), 0, SCALE as int);
            assert(self.weights@.len() * (SCALE as int) <= 1024 * 65536) by (nonlinear_arith)
                requires 0 <= self.weights@.len() <= 1024, SCALE == 65536;
        }
        let k: usize = pick_index(&self.weights, cutoff);
        self.spikes[k].sample_at(us)
    }

    /// Draws a sample with fresh randomness: a whole spike is picked in
    /// proportion to the raw weights, and each axis of the result stays
    /// within half that spike's jitter width of its center.
    pub fn sample(&self, rng: &mut rand::rngs::ThreadRng) -> (r: Vec<i64>)
        requires
            self.wf(),
        ensures
            r@.len() == self.dim_spec(),
            exists|k: int|
                0 <= k < self.spikes@.len() && (forall|i: int|
                    0 <= i < r@.len() ==> (#[trigger] self.spikes@[k]).pos@[i]
                        - self.spikes@[k].side_len / 2 <= #[trigger] r@[i]
                        <= self.spikes@[k].pos@[i] + self.spikes@[k].side_len / 2),
    {
        let total: i64 = self.total_weight();
        let cutoff: i64 = crate::rng::draw_cutoff(rng, total);
        let dim: usize = self.spikes[0].pos.len();
        let us: Vec<i64> = draw_units(rng, dim);
        let r: Vec<i64> = self.sample_at(cutoff, &us);
        proof {
            lemma_pick_in_range(ints_of(self.weights@), cutoff as int);
        }
        r
    }
}

} // verus!
