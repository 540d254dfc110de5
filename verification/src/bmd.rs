//! The store: an ordered, read-only collection of `(context, distribution)`
//! pairs ("Blended Markov Distribution"). `interpolate` scores every stored
//! context against a query with the similarity kernel and hands the weighted
//! distributions to the requested blend strategy.

use vstd::prelude::*;
use crate::fixed::{SCALE, MAX_COORD, MAX_DIM, MAX_ITEMS};
use crate::scan::{
    sum_int, ints_of, prefix_sum, lemma_sum_take_step, lemma_sum_take_all, lemma_prefix_mono,
};
use crate::kernel::{kernel_weight_spec, coords_ok, coords_in_range, similarity};
use crate::distribution::{CUD, AvgCUD, cuds_wf};
use crate::blend::{
    WeightedAvgCUD, WeightedCUDs, flatten_spec, normalize_spec, counts_of, has_positive,
    has_negative, lemma_flatten_congruent,
};
use crate::spike::{SpikeDist, WeightedSpikes, spikes_wf};
use crate::DistError;

verus! {

/// The kernel weight of every context in `ctxs` against the query `q`.
pub open spec fn weights_spec(ctxs: Seq<Seq<i64>>, q: Seq<i64>, wideness: int, recency: bool)
    -> Seq<i64> {
    Seq::new(ctxs.len(), |i: int| kernel_weight_spec(ctxs[i], q, wideness, recency) as i64)
}

/// The store: ordered `(context, distribution)` pairs, built once and only
/// read afterwards.
pub struct BMD<D> {
    pub distributions: Vec<(Vec<i64>, D)>,
}

impl<D> BMD<D> {
    /// The stored context vectors.
    pub open spec fn ctxs(self) -> Seq<Seq<i64>> {
        self.distributions@.map_values(|p: (Vec<i64>, D)| p.0@)
    }

    /// The stored distributions.
    pub open spec fn dists(self) -> Seq<D> {
        self.distributions@.map_values(|p: (Vec<i64>, D)| p.1)
    }

    /// The common context dimension.
    pub open spec fn dim(self) -> int {
        self.distributions@[0].0@.len() as int
    }

    /// Context-side well-formedness: a bounded non-empty entry list whose
    /// contexts share one admissible dimension and stay in range.
    pub open spec fn ctx_wf(self) -> bool {
        &&& 1 <= self.distributions@.len() <= MAX_ITEMS
        &&& 1 <= self.dim() <= MAX_DIM
        &&& forall|i: int|
            0 <= i < self.distributions@.len() ==> ((#[trigger] self.distributions@[i]).0@.len()
                == self.dim() && coords_ok(self.distributions@[i].0@))
    }

    /// Decides the context-side well-formedness.
    pub fn ctx_ok(&self) -> (r: bool)
        ensures
            r == self.ctx_wf(),
    {
        let n: usize = self.distributions.len();
        if n < 1 || n > MAX_ITEMS {
            return false;
        }
        let dim: usize = self.distributions[0].0.len();
        if dim < 1 || dim > MAX_DIM {
            return false;
        }
        let mut i: usize = 0;
        while i < n
            invariant
                1 <= n == self.distributions@.len() <= MAX_ITEMS,
                dim == self.dim(),
                1 <= dim <= MAX_DIM,
                0 <= i <= n,
                forall|j: int|
                    0 <= j < i ==> ((#[trigger] self.distributions@[j]).0@.len() == self.dim()
                        && coords_ok(self.distributions@[j].0@)),
            decreases n - i,
        {
            let ctx: &Vec<i64> = &self.distributions[i].0;
            if ctx.len() != dim {
                proof {
                    assert(self.distributions@[i as int].0@.len() != self.dim());
                }
                return false;
            }
            if !coords_in_range(ctx) {
                proof {
                    assert(!coords_ok(self.distributions@[i as int].0@));
                }
                return false;
            }
            i = i + 1;
        }
        true
    }

    /// Decides whether `q` is an admissible query for this store.
    pub fn query_ok(&self, q: &Vec<i64>) -> (r: bool)
        requires
            self.distributions@.len() >= 1,
        ensures
            r == (q@.len() == self.dim() && coords_ok(q@)),
    {
        q.len() == self.distributions[0].0.len() && coords_in_range(q)
    }

    /// One kernel weight per stored entry, scored against `eval_pos`.
    fn weights(&self, eval_pos: &Vec<i64>, wideness: i64, recency: bool) -> (r: Vec<i64>)
        requires
            self.ctx_wf(),
            eval_pos@.len() == self.dim(),
            coords_ok(eval_pos@),
            0 < wideness,
        ensures
            r@ == weights_spec(self.ctxs(), eval_pos@, wideness as int, recency),
            r@.len() == self.distributions@.len(),
            forall|i: int| 0 <= i < r@.len() ==> 0 <= #[trigger] r@[i] <= SCALE,
    {
        let mut out: Vec<i64> = Vec::new();
        let mut i: usize = 0;
        while i < self.distributions.len()
            invariant
                self.ctx_wf(),
                eval_pos@.len() == self.dim(),
                coords_ok(eval_pos@),
                0 < wideness,
                0 <= i <= self.distributions@.len(),
                out@.len() == i,
                forall|k: int|
                    0 <= k < i ==> #[trigger] out@[k] == kernel_weight_spec(
                        self.ctxs()[k], eval_pos@, wideness as int, recency) as i64,
                forall|k: int| 0 <= k < i ==> 0 <= #[trigger] out@[k] <= SCALE,
            decreases self.distributions@.len() - i,
        {
            let w: i64 = similarity(&self.distributions[i].0, eval_pos, wideness, recency);
            out.push(w);
            i = i + 1;
        }
        proof {
            assert(out@ =~= weights_spec(self.ctxs(), eval_pos@, wideness as int, recency));
        }
        out
    }
}

impl BMD<AvgCUD> {
    /// Well-formed: admissible contexts, well-formed mixtures, and a bounded
    /// total member count.
    pub open spec fn wf(self) -> bool {
        &&& self.ctx_wf()
        &&& forall|i: int| 0 <= i < self.dists().len() ==> (#[trigger] self.dists()[i]).wf()
        &&& sum_int(counts_of(self.dists())) <= MAX_ITEMS
    }

    /// Decides well-formedness, member counts included.
    pub fn is_wf(&self) -> (r: bool)
        ensures
            r == self.wf(),
    {
        if !self.ctx_ok() {
            return false;
        }
        let n: usize = self.distributions.len();
        let ghost counts = counts_of(self.dists());
        let mut total: usize = 0;
        let mut i: usize = 0;
        proof {
            assert(counts.take(0) =~= Seq::<int>::empty());
        }
        while i < n
            invariant
                self.ctx_wf(),
                n == self.distributions@.len(),
                counts == counts_of(self.dists()),
                0 <= i <= n,
                forall|j: int| 0 <= j < i ==> (#[trigger] self.dists()[j]).wf(),
                total == prefix_sum(counts, i as int),
                0 <= total <= MAX_ITEMS,
            decreases n - i,
        {
            if !self.distributions[i].1.is_wf() {
                proof {
                    assert(!self.dists()[i as int].wf());
                }
                return false;
            }
            let c: usize = self.distributions[i].1.cuds.len();
            proof {
                lemma_sum_take_step(counts, i as int);
            }
            if total > MAX_ITEMS - c {
                proof {
                    assert(forall|j: int|
                        0 <= j < counts.len() ==> #[trigger] counts[j] >= 0);
                    lemma_prefix_mono(counts, i + 1, counts.len() as int);
                    lemma_sum_take_all(counts);
                }
                return false;
            }
            total = total + c;
            i = i + 1;
        }
        proof {
            lemma_sum_take_all(counts);
        }
        true
    }

    /// Builds the Flat-Interval blend for the query `eval_pos`: one kernel
    /// weight per entry, normalized, then flattened over every member
    /// interval. An all-zero weight set cannot be normalized and is
    /// reported as `NumericDegeneracy`.
    pub fn interpolate(&self, eval_pos: &Vec<i64>, wideness: i64, recency: bool) -> (r: Result<
        WeightedAvgCUD,
        DistError,
    >)
        requires
            self.wf(),
            eval_pos@.len() == self.dim(),
            coords_ok(eval_pos@),
            0 < wideness,
        ensures
            ({
                let kw = weights_spec(self.ctxs(), eval_pos@, wideness as int, recency);
                &&& sum_int(ints_of(kw)) == 0 ==> r == Err::<WeightedAvgCUD, DistError>(
                    DistError::NumericDegeneracy,
                )
                &&& sum_int(ints_of(kw)) > 0 ==> (r matches Ok(b) && b.items@ == flatten_spec(
                    self.dists(),
                    normalize_spec(kw, sum_int(ints_of(kw))),
                ) && b.wf())
            }),
    {
        let ws: Vec<i64> = self.weights(eval_pos, wideness, recency);
        let mut mixtures: Vec<AvgCUD> = Vec::new();
        let mut i: usize = 0;
        while i < self.distributions.len()
            invariant
                self.wf(),
                0 <= i <= self.distributions@.len(),
                mixtures@.len() == i,
                forall|k: int|
                    0 <= k < i ==> (#[trigger] mixtures@[k]).cuds@ == self.dists()[k].cuds@,
            decreases self.distributions@.len() - i,
        {
            let m: AvgCUD = self.distributions[i].1.copied();
            mixtures.push(m);
            i = i + 1;
        }
        proof {
            assert(counts_of(mixtures@) =~= counts_of(self.dists()));
            assert(forall|k: int|
                0 <= k < mixtures@.len() ==> (#[trigger] mixtures@[k]).wf());
        }
        let r = WeightedAvgCUD::from_weighted(&mixtures, &ws);
        proof {
            let kw = weights_spec(self.ctxs(), eval_pos@, wideness as int, recency);
            lemma_flatten_congruent(mixtures@, self.dists(), normalize_spec(
                kw, sum_int(ints_of(kw))));
        }
        r
    }
}

impl BMD<CUD> {
    /// Well-formed: admissible contexts and well-formed intervals.
    pub open spec fn wf(self) -> bool {
        &&& self.ctx_wf()
        &&& cuds_wf(self.dists())
    }

    /// Decides well-formedness.
    pub fn is_wf(&self) -> (r: bool)
        ensures
            r == self.wf(),
    {
        if !self.ctx_ok() {
            return false;
        }
        let mut i: usize = 0;
        let n: usize = self.distributions.len();
        while i < n
            invariant
                self.ctx_wf(),
                n == self.distributions@.len(),
                0 <= i <= n,
                forall|j: int| 0 <= j < i ==> (#[trigger] self.dists()[j]).wf(),
            decreases n - i,
        {
            let c: CUD = self.distributions[i].1;
            if !(-MAX_COORD <= c.a && c.a < c.b && c.b <= MAX_COORD) {
                proof {
                    assert(!self.dists()[i as int].wf());
                }
                return false;
            }
            i = i + 1;
        }
        true
    }

    /// Builds the Categorical blend over single intervals for the query
    /// `eval_pos`: one raw kernel weight per entry. An all-zero weight set
    /// cannot drive the categorical pick and is reported as
    /// `EmptyWeightSet`.
    pub fn interpolate(&self, eval_pos: &Vec<i64>, wideness: i64, recency: bool) -> (r: Result<
        WeightedCUDs,
        DistError,
    >)
        requires
            self.wf(),
            eval_pos@.len() == self.dim(),
            coords_ok(eval_pos@),
            0 < wideness,
        ensures
            ({
                let kw = weights_spec(self.ctxs(), eval_pos@, wideness as int, recency);
                &&& !has_positive(ints_of(kw)) ==> r == Err::<WeightedCUDs, DistError>(
                    DistError::EmptyWeightSet,
                )
                &&& has_positive(ints_of(kw)) ==> (r matches Ok(b) && b.cuds@ == self.dists()
                    && b.weights@ == kw && b.wf())
            }),
    {
        let ws: Vec<i64> = self.weights(eval_pos, wideness, recency);
        let mut cuds: Vec<CUD> = Vec::new();
        let mut i: usize = 0;
        while i < self.distributions.len()
            invariant
                self.wf(),
                0 <= i <= self.distributions@.len(),
                cuds@.len() == i,
                forall|k: int| 0 <= k < i ==> #[trigger] cuds@[k] == self.dists()[k],
            decreases self.distributions@.len() - i,
        {
            let c: CUD = self.distributions[i].1;
            cuds.push(c);
            i = i + 1;
        }
        proof {
            assert(cuds@ =~= self.dists());
            let kw = ints_of(ws@);
            if has_negative(kw) {
                let k = choose|k: int| 0 <= k < kw.len() && kw[k] < 0;
                assert(ws@[k] >= 0);
            }
        }
        WeightedCUDs::from_weighted(cuds, ws)
    }
}

impl BMD<SpikeDist> {
    /// Well-formed: admissible contexts and well-formed, same-dimension
    /// spikes.
    pub open spec fn wf(self) -> bool {
        &&& self.ctx_wf()
        &&& spikes_wf(self.dists())
    }

    /// Decides well-formedness, the shared spike dimension included.
    pub fn is_wf(&self) -> (r: bool)
        ensures
            r == self.wf(),
    {
        if !self.ctx_ok() {
            return false;
        }
        let n: usize = self.distributions.len();
        let sdim: usize = self.distributions[0].1.pos.len();
        let mut i: usize = 0;
        while i < n
            invariant
                self.ctx_wf(),
                n == self.distributions@.len(),
                sdim == self.dists()[0].pos@.len(),
                0 <= i <= n,
                forall|j: int| 0 <= j < i ==> (#[trigger] self.dists()[j]).wf(),
                forall|j: int|
                    0 <= j < i ==> (#[trigger] self.dists()[j]).pos@.len() == self.dists()[
                        0].pos@.len(),
            decreases n - i,
        {
            if !self.distributions[i].1.is_wf() {
                proof {
                    assert(!self.dists()[i as int].wf());
                }
                return false;
            }
            if self.distributions[i].1.pos.len() != sdim {
                proof {
                    assert(self.dists()[i as int].pos@.len() != self.dists()[0].pos@.len());
                }
                return false;
            }
            i = i + 1;
        }
        true
    }

    /// Builds the Categorical blend over spikes for the query `eval_pos`:
    /// one raw kernel weight per entry. An all-zero weight set cannot drive
    /// the categorical pick and is reported as `EmptyWeightSet`.
    pub fn interpolate(&self, eval_pos: &Vec<i64>, wideness: i64, recency: bool) -> (r: Result<
        WeightedSpikes,
        DistError,
    >)
        requires
            self.wf(),
            eval_pos@.len() == self.dim(),
            coords_ok(eval_pos@),
            0 < wideness,
        ensures
            ({
                let kw = weights_spec(self.ctxs(), eval_pos@, wideness as int, recency);
                &&& !has_positive(ints_of(kw)) ==> r == Err::<WeightedSpikes, DistError>(
                    DistError::EmptyWeightSet,
                )
                &&& has_positive(ints_of(kw)) ==> (r matches Ok(b) && b.weights@ == kw
                    && b.spikes@.len() == self.dists().len() && (forall|k: int|
                    0 <= k < b.spikes@.len() ==> ((#[trigger] b.spikes@[k]).pos@
                        == self.dists()[k].pos@ && b.spikes@[k].side_len
                        == self.dists()[k].side_len)) && b.wf())
            }),
    {
        let ws: Vec<i64> = self.weights(eval_pos, wideness, recency);
        let mut spikes: Vec<SpikeDist> = Vec::new();
        let mut i: usize = 0;
        while i < self.distributions.len()
            invariant
                self.wf(),
                0 <= i <= self.distributions@.len(),
                spikes@.len() == i,
                forall|k: int|
                    0 <= k < i ==> ((#[trigger] spikes@[k]).pos@ == self.dists()[k].pos@
                        && spikes@[k].side_len == self.dists()[k].side_len),
            decreases self.distributions@.len() - i,
        {
            let s: SpikeDist = self.distributions[i].1.copied();
            spikes.push(s);
            i = i + 1;
        }
        proof {
            assert(spikes_wf(spikes@));
            let kw = ints_of(ws@);
            if has_negative(kw) {
                let k = choose|k: int| 0 <= k < kw.len() && kw[k] < 0;
                assert(ws@[k] >= 0);
            }
        }
        WeightedSpikes::from_weighted(spikes, ws)
    }
}

} // verus!
