//! Blend strategies over uniform-interval distributions: the Flat-Interval
//! blend (`WeightedAvgCUD`), which normalizes its kernel weights and then
//! flattens every mixture to one weighted interval list, and the Categorical
//! blend over single intervals (`WeightedCUDs`), which keeps its weights raw
//! and picks one whole entry at sampling time.

use vstd::prelude::*;
use crate::fixed::{SCALE, MAX_ITEMS};
use crate::scan::{
    sum_int, ints_of, pick_spec, prefix_sum, lemma_sum_take_step, lemma_sum_take_all,
    lemma_sum_bounds, lemma_elem_le_sum, sum_vec, pick_index,
};
use crate::distribution::{CUD, AvgCUD, cuds_wf};
use crate::DistError;

verus! {

/// One flattened entry of a Flat-Interval blend: an interval together with
/// the (normalized) weight of the mixture it came from.
#[derive(Clone, Copy, Debug, PartialEq, Eq, Structural)]
pub struct WeightedCud {
    pub cud: CUD,
    pub w: i64,
}

/// Every interval of `cuds` paired with the one weight `w`.
pub open spec fn pair_all(cuds: Seq<CUD>, w: i64) -> Seq<WeightedCud> {
    cuds.map_values(|c: CUD| WeightedCud { cud: c, w: w })
}

/// The flattening of mixtures `ds` against per-mixture weights `ws`: each
/// contributes all its intervals, each carrying that mixture's full weight.
pub open spec fn flatten_spec(ds: Seq<AvgCUD>, ws: Seq<i64>) -> Seq<WeightedCud>
    decreases ds.len(),
{
    if ds.len() == 0 {
        Seq::empty()
    } else {
        flatten_spec(ds.drop_last(), ws.drop_last()) + pair_all(ds.last().cuds@, ws.last())
    }
}

/// The member counts of each mixture.
pub open spec fn counts_of(ds: Seq<AvgCUD>) -> Seq<int> {
    ds.map_values(|d: AvgCUD| d.cuds@.len() as int)
}

/// Weights scaled so that they sum (up to rounding) to one unit.
pub open spec fn normalize_spec(ws: Seq<i64>, total: int) -> Seq<i64> {
    ws.map_values(|w: i64| ((w * SCALE) / total) as i64)
}

/// The per-entry evaluation terms of a flat blend: density times weight.
pub open spec fn flat_terms_of(items: Seq<WeightedCud>, x: int) -> Seq<int> {
    items.map_values(|it: WeightedCud| it.cud.eval_spec(x) * it.w / (SCALE as int))
}

/// The per-entry scan keys of a flat blend: length times weight.
pub open spec fn flat_keys_of(items: Seq<WeightedCud>) -> Seq<int> {
    items.map_values(|it: WeightedCud| it.cud.len_spec() * it.w / (SCALE as int))
}

/// The flattening has as many entries as the mixtures have members in all.
pub proof fn lemma_flatten_len(ds: Seq<AvgCUD>, ws: Seq<i64>)
    ensures
        flatten_spec(ds, ws).len() == sum_int(counts_of(ds)),
    decreases ds.len(),
{
    if ds.len() == 0 {
        assert(counts_of(ds) =~= Seq::<int>::empty());
    } else {
        lemma_flatten_len(ds.drop_last(), ws.drop_last());
        assert(counts_of(ds.drop_last()) =~= counts_of(ds).drop_last());
    }
}

/// Mixtures with the same member intervals flatten identically.
pub proof fn lemma_flatten_congruent(ds1: Seq<AvgCUD>, ds2: Seq<AvgCUD>, ws: Seq<i64>)
    requires
        ds1.len() == ds2.len(),
        forall|i: int| 0 <= i < ds1.len() ==> (#[trigger] ds1[i]).cuds@ == ds2[i].cuds@,
    ensures
        flatten_spec(ds1, ws) == flatten_spec(ds2, ws),
    decreases ds1.len(),
{
    if ds1.len() > 0 {
        lemma_flatten_congruent(ds1.drop_last(), ds2.drop_last(), ws.drop_last());
        assert(flatten_spec(ds1, ws) =~= flatten_spec(ds2, ws));
    }
}

/// Flat-Interval blend: a weighted flat list of uniform intervals.
#[derive(Clone, Debug)]
pub struct WeightedAvgCUD {
    pub items: Vec<WeightedCud>,
}

impl WeightedAvgCUD {
    /// Well-formed: a bounded, non-empty item list of well-formed intervals
    /// with weights inside one unit.
    pub open spec fn wf(self) -> bool {
        &&& 1 <= self.items@.len() <= MAX_ITEMS
        &&& forall|i: int|
            0 <= i < self.items@.len() ==> ((#[trigger] self.items@[i]).cud.wf() && 0
                <= self.items@[i].w <= SCALE)
    }

    /// Density of the blend at `x`: the weighted sum of member densities.
    pub open spec fn eval_spec(self, x: int) -> int {
        sum_int(flat_terms_of(self.items@, x))
    }

    /// The entry a weight-times-length scan selects for `cutoff`.
    pub open spec fn pick_spec(self, cutoff: int) -> int {
        pick_spec(flat_keys_of(self.items@), cutoff)
    }

    /// The sample drawn for scan cutoff `cutoff` and unit draw `u`.
    pub open spec fn sample_spec(self, cutoff: int, u: int) -> int {
        self.items@[self.pick_spec(cutoff)].cud.sample_spec(u)
    }

    /// Flattens already-normalized `(mixture, weight)` pairs: every interval
    /// of each mixture is paired with that mixture's full weight.
    pub fn from_weighted_avgcuds(avg_cuds: &Vec<AvgCUD>, weights: &Vec<i64>) -> (r:
        WeightedAvgCUD)
        requires
            avg_cuds@.len() == weights@.len(),
            1 <= avg_cuds@.len(),
            forall|i: int| 0 <= i < avg_cuds@.len() ==> (#[trigger] avg_cuds@[i]).wf(),
            forall|i: int| 0 <= i < weights@.len() ==> 0 <= #[trigger] weights@[i] <= SCALE,
            sum_int(counts_of(avg_cuds@)) <= MAX_ITEMS,
        ensures
            r.items@ == flatten_spec(avg_cuds@, weights@),
            r.wf(),
    {
        let ghost ds = avg_cuds@;
        let ghost ws = weights@;
        let mut items: Vec<WeightedCud> = Vec::new();
        let mut i: usize = 0;
        proof {
            assert(flatten_spec(ds.take(0), ws.take(0)) =~= Seq::<WeightedCud>::empty());
        }
        while i < avg_cuds.len()
            invariant
                0 <= i <= ds.len(),
                ds == avg_cuds@,
                ws == weights@,
                ds.len() == ws.len(),
                forall|k: int| 0 <= k < ds.len() ==> (#[trigger] ds[k]).wf(),
                forall|k: int| 0 <= k < ws.len() ==> 0 <= #[trigger] ws[k] <= SCALE,
                items@ == flatten_spec(ds.take(i as int), ws.take(i as int)),
                forall|k: int|
                    0 <= k < items@.len() ==> ((#[trigger] items@[k]).cud.wf() && 0 <= items@[k].w
                        <= SCALE),
            decreases ds.len() - i,
        {
            let w: i64 = weights[i];
            let d: &AvgCUD = &avg_cuds[i];
            let mut j: usize = 0;
            proof {
                assert(pair_all(d.cuds@.take(0), w) =~= Seq::<WeightedCud>::empty());
                assert(items@ =~= flatten_spec(ds.take(i as int), ws.take(i as int)) + pair_all(
                    d.cuds@.take(0), w));
            }
            while j < d.cuds.len()
                invariant
                    0 <= j <= d.cuds@.len(),
                    0 <= i < ds.len(),
                    ds == avg_cuds@,
                    ws == weights@,
                    d == ds[i as int],
                    w == ws[i as int],
                    d.wf(),
                    0 <= w <= SCALE,
                    items@ == flatten_spec(ds.take(i as int), ws.take(i as int)) + pair_all(
                        d.cuds@.take(j as int), w),
                    forall|k: int|
                        0 <= k < items@.len() ==> ((#[trigger] items@[k]).cud.wf() && 0
                            <= items@[k].w <= SCALE),
                decreases d.cuds@.len() - j,
            {
                items.push(WeightedCud { cud: d.cuds[j], w });
                proof {
                    assert(pair_all(d.cuds@.take(j + 1), w) =~= pair_all(d.cuds@.take(j as int), w)
                        .push(WeightedCud { cud: d.cuds@[j as int], w }));
                }
                j = j + 1;
            }
            proof {
                assert(d.cuds@.take(d.cuds@.len() as int) =~= d.cuds@);
                assert(ds.take(i + 1).drop_last() =~= ds.take(i as int));
                assert(ws.take(i + 1).drop_last() =~= ws.take(i as int));
                assert(items@ =~= flatten_spec(ds.take(i + 1), ws.take(i + 1)));
            }
            i = i + 1;
        }
        proof {
            assert(ds.take(ds.len() as int) =~= ds);
            assert(ws.take(ws.len() as int) =~= ws);
            lemma_flatten_len(ds, ws);
            lemma_sum_bounds(counts_of(ds), 1, MAX_ITEMS as int);
            assert(ds.len() * 1 >= 1) by (nonlinear_arith)
                requires ds.len() >= 1;
        }
        WeightedAvgCUD { items }
    }

    /// Builds the blend from raw kernel weights: normalizes them to sum to
    /// one unit, then flattens. A zero total weight cannot be normalized and
    /// is reported as `NumericDegeneracy`.
    pub fn from_weighted(avg_cuds: &Vec<AvgCUD>, weights: &Vec<i64>) -> (r: Result<
        WeightedAvgCUD,
        DistError,
    >)
        requires
            avg_cuds@.len() == weights@.len(),
            1 <= avg_cuds@.len() <= MAX_ITEMS,
            forall|i: int| 0 <= i < avg_cuds@.len() ==> (#[trigger] avg_cuds@[i]).wf(),
            forall|i: int| 0 <= i < weights@.len() ==> 0 <= #[trigger] weights@[i] <= SCALE,
            sum_int(counts_of(avg_cuds@)) <= MAX_ITEMS,
        ensures
            sum_int(ints_of(weights@)) == 0 ==> r == Err::<WeightedAvgCUD, DistError>(
                DistError::NumericDegeneracy,
            ),
            sum_int(ints_of(weights@)) > 0 ==> (r matches Ok(b) && b.items@ == flatten_spec(
                avg_cuds@,
                normalize_spec(weights@, sum_int(ints_of(weights@))),
            ) && b.wf()),
    {
        proof {
            lemma_sum_bounds(ints_of(weights@), 0, SCALE as int);
            assert(weights@.len() * (SCALE as int) <= 1024 * 65536) by (nonlinear_arith)
                requires 0 <= weights@.len() <= 1024, SCALE == 65536;
        }
        let total: i64 = sum_vec(weights);
        if total == 0 {
            return Err(DistError::NumericDegeneracy);
        }
        let mut norm: Vec<i64> = Vec::new();
        let mut i: usize = 0;
        while i < weights.len()
            invariant
                0 <= i <= weights@.len(),
                forall|k: int| 0 <= k < weights@.len() ==> 0 <= #[trigger] weights@[k] <= SCALE,
                total == sum_int(ints_of(weights@)),
                total > 0,
                norm@.len() == i,
                forall|k: int|
                    0 <= k < i ==> #[trigger] norm@[k] == ((weights@[k] * SCALE) / (
                    total as int)) as i64,
                forall|k: int| 0 <= k < i ==> 0 <= #[trigger] norm@[k] <= SCALE,
            decreases weights@.len() - i,
        {
            let w: i64 = weights[i];
            proof {
                lemma_elem_le_sum(ints_of(weights@), i as int);
                assert(0 <= w * SCALE <= total * SCALE) by (nonlinear_arith)
                    requires 0 <= w <= total, SCALE == 65536;
                assert(0 <= (w * SCALE) / (total as int) <= SCALE) by (nonlinear_arith)
                    requires 0 <= w * SCALE <= total * SCALE, total > 0, SCALE == 65536;
            }
            let nw: i64 = w * SCALE / total;
            norm.push(nw);
            i = i + 1;
        }
        proof {
            assert(norm@ =~= normalize_spec(weights@, total as int));
        }
        Ok(Self::from_weighted_avgcuds(avg_cuds, &norm))
    }

    /// Weighted sum of member densities at `x`.
    pub fn evaluate(&self, x: i64) -> (r: i64)
        requires
            self.wf(),
        ensures
            r == self.eval_spec(x as int),
            0 <= r,
    {
        let ghost m = flat_terms_of(self.items@, x as int);
        let mut acc: i64 = 0;
        let mut i: usize = 0;
        proof {
            assert(m.take(0) =~= Seq::<int>::empty());
        }
        while i < self.items.len()
            invariant
                self.wf(),
                0 <= i <= self.items@.len(),
                m == flat_terms_of(self.items@, x as int),
                acc == prefix_sum(m, i as int),
                0 <= acc <= i * (SCALE * SCALE),
            decreases self.items@.len() - i,
        {
            let it: WeightedCud = self.items[i];
            let e: i64 = it.cud.evaluate(x);
            proof {
                assert(0 <= e * it.w <= (SCALE * SCALE) * SCALE) by (nonlinear_arith)
                    requires 0 <= e <= SCALE * SCALE, 0 <= it.w <= SCALE, SCALE == 65536;
                assert(0 <= (e * it.w) / (SCALE as int) <= SCALE * SCALE) by (nonlinear_arith)
                    requires 0 <= e * it.w <= (SCALE * SCALE) * SCALE, SCALE == 65536;
                lemma_sum_take_step(m, i as int);
                assert(acc + e * it.w / (SCALE as int) <= (i + 1) * (SCALE * SCALE))
                    by (nonlinear_arith)
                    requires
                        acc <= i * (SCALE * SCALE),
                        0 <= (e * it.w) / (SCALE as int) <= SCALE * SCALE,
                        i >= 0,
                        SCALE == 65536;
                assert((i + 1) * (SCALE * SCALE) <= 1024 * (SCALE * SCALE)) by (nonlinear_arith)
                    requires 0 <= i + 1 <= 1024, SCALE == 65536;
            }
            acc = acc + e * it.w / SCALE;
            i = i + 1;
        }
        proof {
            lemma_sum_take_all(m);
        }
        acc
    }

    /// The scan keys (`weight * length`, scaled back to fixed point).
    fn keys(&self) -> (r: Vec<i64>)
        requires
            self.wf(),
        ensures
            ints_of(r@) == flat_keys_of(self.items@),
            forall|i: int| 0 <= i < r@.len() ==> 0 <= #[trigger] r@[i] <= 2 * 4194304,
            r@.len() == self.items@.len(),
    {
        let mut keys: Vec<i64> = Vec::new();
        let mut i: usize = 0;
        while i < self.items.len()
            invariant
                self.wf(),
                0 <= i <= self.items@.len(),
                keys@.len() == i,
                forall|k: int|
                    0 <= k < i ==> #[trigger] keys@[k] == self.items@[k].cud.len_spec()
                        * self.items@[k].w / (SCALE as int),
                forall|k: int| 0 <= k < i ==> 0 <= #[trigger] keys@[k] <= 2 * 4194304,
            decreases self.items@.len() - i,
        {
            let it: WeightedCud = self.items[i];
            let l: i64 = it.cud.len();
            proof {
                assert(0 <= l * it.w <= (2 * 4194304) * SCALE) by (nonlinear_arith)
                    requires 0 < l <= 2 * 4194304, 0 <= it.w <= SCALE, SCALE == 65536;
                assert(0 <= (l * it.w) / (SCALE as int) <= 2 * 4194304) by (nonlinear_arith)
                    requires 0 <= l * it.w <= (2 * 4194304) * SCALE, SCALE == 65536;
            }
            let k: i64 = l * it.w / SCALE;
            keys.push(k);
            i = i + 1;
        }
        proof {
            assert(ints_of(keys@) =~= flat_keys_of(self.items@));
        }
        keys
    }

    /// Total scan mass: the sum of `weight * length` over all entries.
    pub fn total_key(&self) -> (r: i64)
        requires
            self.wf(),
        ensures
            r == sum_int(flat_keys_of(self.items@)),
            r >= 0,
    {
        let keys: Vec<i64> = self.keys();
        proof {
            lemma_sum_bounds(ints_of(keys@), 0int, (2 * 4194304) as int);
            assert(keys@.len() * (2 * 4194304) <= 1024 * 2 * 4194304) by (nonlinear_arith)
                requires 0 <= keys@.len() <= 1024;
        }
        sum_vec(&keys)
    }

    /// Draws a sample: the weight-times-length scan run with `cutoff`
    /// selects a flattened interval, which is sampled with the unit draw
    /// `u`. The result lies inside the selected interval.
    pub fn sample_at(&self, cutoff: i64, u: i64) -> (r: i64)
        requires
            self.wf(),
            0 <= cutoff,
            -SCALE < u < SCALE,
        ensures
            r == self.sample_spec(cutoff as int, u as int),
            ({
                let k = self.pick_spec(cutoff as int);
                self.items@[k].cud.a <= r <= self.items@[k].cud.b
            }),
    {
        let keys: Vec<i64> = self.keys();
        proof {
            lemma_sum_bounds(ints_of(keys@), 0int, (2 * 4194304) as int);
            assert(keys@.len() * (2 * 4194304) <= 1024 * 2 * 4194304) by (nonlinear_arith)
                requires 0 <= keys@.len() <= 1024;
        }
        let k: usize = pick_index(&keys, cutoff);
        self.items[k].cud.sample_at(u)
    }

    /// Draws a sample with fresh randomness; the result lies inside one of
    /// the blended intervals.
    pub fn sample(&self, rng: &mut rand::rngs::ThreadRng) -> (r: i64)
        requires
            self.wf(),
        ensures
            exists|k: int|
                0 <= k < self.items@.len() && (#[trigger] self.items@[k]).cud.a <= r
                    <= self.items@[k].cud.b,
    {
        let total: i64 = self.total_key();
        let cutoff: i64 = if total > 0 {
            crate::rng::draw_cutoff(rng, total)
        } else {
            0
        };
        let u: i64 = crate::rng::draw_unit(rng);
        let r: i64 = self.sample_at(cutoff, u);
        proof {
            crate::scan::lemma_pick_in_range(flat_keys_of(self.items@), cutoff as int);
        }
        r
    }
}

/// Whether some entry is strictly positive.
pub open spec fn has_positive(ws: Seq<int>) -> bool {
    exists|i: int| 0 <= i < ws.len() && ws[i] > 0
}

/// Whether some entry is strictly negative.
pub open spec fn has_negative(ws: Seq<int>) -> bool {
    exists|i: int| 0 <= i < ws.len() && ws[i] < 0
}

/// The per-entry evaluation terms of a categorical blend: raw weight times
/// density.
pub open spec fn cat_terms_of(cuds: Seq<CUD>, ws: Seq<i64>, x: int) -> Seq<int> {
    Seq::new(cuds.len(), |i: int| (ws[i] as int) * cuds[i].eval_spec(x))
}

/// Categorical blend over single intervals: unnormalized weights, one whole
/// entry picked at sampling time.
#[derive(Clone, Debug)]
pub struct WeightedCUDs {
    pub cuds: Vec<CUD>,
    pub weights: Vec<i64>,
}

impl WeightedCUDs {
    /// Well-formed: parallel bounded lists, all weights admissible and at
    /// least one strictly positive.
    pub open spec fn wf(self) -> bool {
        &&& self.cuds@.len() == self.weights@.len()
        &&& 1 <= self.cuds@.len() <= MAX_ITEMS
        &&& cuds_wf(self.cuds@)
        &&& forall|i: int| 0 <= i < self.weights@.len() ==> 0 <= #[trigger] self.weights@[i] <= SCALE
        &&& has_positive(ints_of(self.weights@))
    }

    /// Density of the blend at `x`: the weighted mean of member densities,
    /// normalized at evaluation time by the raw weight total.
    pub open spec fn eval_spec(self, x: int) -> int {
        sum_int(cat_terms_of(self.cuds@, self.weights@, x)) / sum_int(ints_of(self.weights@))
    }

    /// The entry the raw-weight scan selects for `cutoff`.
    pub open spec fn pick_spec(self, cutoff: int) -> int {
        pick_spec(ints_of(self.weights@), cutoff)
    }

    /// The sample drawn for scan cutoff `cutoff` and unit draw `u`.
    pub open spec fn sample_spec(self, cutoff: int, u: int) -> int {
        self.cuds@[self.pick_spec(cutoff)].sample_spec(u)
    }

    /// Builds the blend from raw `(interval, weight)` pairs. A weight set
    /// with a negative entry or without a strictly positive entry cannot
    /// drive the categorical pick and is rejected as `EmptyWeightSet`.
    pub fn from_weighted(cuds: Vec<CUD>, weights: Vec<i64>) -> (r: Result<WeightedCUDs, DistError>)
        requires
            cuds@.len() == weights@.len(),
            cuds@.len() <= MAX_ITEMS,
            cuds_wf(cuds@),
            forall|i: int| 0 <= i < weights@.len() ==> -SCALE <= #[trigger] weights@[i] <= SCALE,
        ensures
            (has_negative(ints_of(weights@)) || !has_positive(ints_of(weights@))) <==> r is Err,
            r is Err ==> r == Err::<WeightedCUDs, DistError>(DistError::EmptyWeightSet),
            r matches Ok(b) ==> b.cuds@ == cuds@ && b.weights@ == weights@ && b.wf(),
    {
        let mut saw_pos: bool = false;
        let mut saw_neg: bool = false;
        let mut i: usize = 0;
        while i < weights.len()
            invariant
                0 <= i <= weights@.len(),
                saw_pos <==> exists|k: int| 0 <= k < i && #[trigger] weights@[k] > 0,
                saw_neg <==> exists|k: int| 0 <= k < i && #[trigger] weights@[k] < 0,
            decreases weights@.len() - i,
        {
            let w: i64 = weights[i];
            if w > 0 {
                saw_pos = true;
            }
            if w < 0 {
                saw_neg = true;
            }
            i = i + 1;
        }
        proof {
            assert(forall|k: int|
                0 <= k < weights@.len() ==> ints_of(weights@)[k] == (#[trigger] weights@[k]) as int);
            if has_positive(ints_of(weights@)) {
                let k = choose|k: int|
                    0 <= k < ints_of(weights@).len() && ints_of(weights@)[k] > 0;
                assert(weights@[k] > 0);
            }
            if has_negative(ints_of(weights@)) {
                let k = choose|k: int|
                    0 <= k < ints_of(weights@).len() && ints_of(weights@)[k] < 0;
                assert(weights@[k] < 0);
            }
            if exists|k: int| 0 <= k < weights@.len() && #[trigger] weights@[k] > 0 {
                let k = choose|k: int| 0 <= k < weights@.len() && #[trigger] weights@[k] > 0;
                assert(ints_of(weights@)[k] > 0);
                assert(has_positive(ints_of(weights@)));
            }
            if exists|k: int| 0 <= k < weights@.len() && #[trigger] weights@[k] < 0 {
                let k = choose|k: int| 0 <= k < weights@.len() && #[trigger] weights@[k] < 0;
                assert(ints_of(weights@)[k] < 0);
                assert(has_negative(ints_of(weights@)));
            }
        }
        if saw_neg || !saw_pos {
            Err(DistError::EmptyWeightSet)
        } else {
            Ok(WeightedCUDs { cuds, weights })
        }
    }

    /// Raw weight total; strictly positive for a well-formed blend.
    pub fn total_weight(&self) -> (r: i64)
        requires
            self.wf(),
        ensures
            r == sum_int(ints_of(self.weights@)),
            r > 0,
    {
        proof {
            lemma_sum_bounds(ints_of(self.weights@), 0, SCALE as int);
            assert(self.weights@.len() * (SCALE as int) <= 1024 * 65536) by (nonlinear_arith)
                requires 0 <= self.weights@.len() <= 1024, SCALE == 65536;
            let k = choose|k: int|
                0 <= k < ints_of(self.weights@).len() && ints_of(self.weights@)[k] > 0;
            lemma_elem_le_sum(ints_of(self.weights@), k);
        }
        sum_vec(&self.weights)
    }

    /// Weighted mean density at `x`: the weighted density sum divided by the
    /// raw weight total.
    pub fn evaluate(&self, x: i64) -> (r: i64)
        requires
            self.wf(),
        ensures
            r == self.eval_spec(x as int),
            0 <= r,
    {
        let total: i64 = self.total_weight();
        let ghost m = cat_terms_of(self.cuds@, self.weights@, x as int);
        let mut acc: i64 = 0;
        let mut i: usize = 0;
        proof {
            assert(m.take(0) =~= Seq::<int>::empty());
        }
        while i < self.cuds.len()
            invariant
                self.wf(),
                0 <= i <= self.cuds@.len(),
                m == cat_terms_of(self.cuds@, self.weights@, x as int),
                acc == prefix_sum(m, i as int),
                0 <= acc <= i * (SCALE * SCALE * SCALE),
            decreases self.cuds@.len() - i,
        {
            let e: i64 = self.cuds[i].evaluate(x);
            let w: i64 = self.weights[i];
            proof {
                assert(0 <= w * e <= SCALE * (SCALE * SCALE)) by (nonlinear_arith)
                    requires 0 <= e <= SCALE * SCALE, 0 <= w <= SCALE, SCALE == 65536;
                lemma_sum_take_step(m, i as int);
                assert(acc + w * e <= (i + 1) * (SCALE * SCALE * SCALE)) by (nonlinear_arith)
                    requires
                        acc <= i * (SCALE * SCALE * SCALE),
                        0 <= w * e <= SCALE * (SCALE * SCALE),
                        i >= 0,
                        SCALE == 65536;
                assert((i + 1) * (SCALE * SCALE * SCALE) <= 1024 * (SCALE * SCALE * SCALE))
                    by (nonlinear_arith)
                    requires 0 <= i + 1 <= 1024, SCALE == 65536;
            }
            acc = acc + w * e;
            i = i + 1;
        }
        proof {
            lemma_sum_take_all(m);
            assert((acc as int) / (total as int) >= 0) by (nonlinear_arith)
                requires acc >= 0, total > 0;
        }
        acc / total
    }

    /// Draws a sample: the raw-weight scan run with `cutoff` selects an
    /// entry, which is sampled with the unit draw `u`. The result lies
    /// inside the selected interval.
    pub fn sample_at(&self, cutoff: i64, u: i64) -> (r: i64)
        requires
            self.wf(),
            0 <= cutoff,
            -SCALE < u < SCALE,
        ensures
            r == self.sample_spec(cutoff as int, u as int),
            ({
                let k = self.pick_spec(cutoff as int);
                self.cuds@[k].a <= r <= self.cuds@[k].b
            }),
    {
        proof {
            lemma_sum_bounds(ints_of(self.weights@), 0, SCALE as int);
            assert(self.weights@.len() * (SCALE as int) <= 1024 * 65536) by (nonlinear_arith)
                requires 0 <= self.weights@.len() <= 1024, SCALE == 65536;
        }
        let k: usize = pick_index(&self.weights, cutoff);
        self.cuds[k].sample_at(u)
    }

    /// Draws a sample with fresh randomness; the result lies inside one of
    /// the member intervals.
    pub fn sample(&self, rng: &mut rand::rngs::ThreadRng) -> (r: i64)
        requires
            self.wf(),
        ensures
            exists|k: int|
                0 <= k < self.cuds@.len() && (#[trigger] self.cuds@[k]).a <= r <= self.cuds@[k].b,
    {
        let total: i64 = self.total_weight();
        let cutoff: i64 = crate::rng::draw_cutoff(rng, total);
        let u: i64 = crate::rng::draw_unit(rng);
        let r: i64 = self.sample_at(cutoff, u);
        proof {
            crate::scan::lemma_pick_in_range(ints_of(self.weights@), cutoff as int);
        }
        r
    }
}

} // verus!
