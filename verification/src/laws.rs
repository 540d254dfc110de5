//! Laws of the blend strategies, stated over the same spec functions their
//! contracts use.

use vstd::prelude::*;
use crate::fixed::SCALE;
use crate::scan::{
    sum_int, ints_of, prefix_sum, lemma_pick_band, lemma_pick_band_exists, lemma_pick_in_range,
};
use crate::distribution::{AvgCUD, lens_of, evals_of};
use crate::blend::{
    WeightedCud, WeightedAvgCUD, WeightedCUDs, pair_all, flatten_spec, normalize_spec,
    flat_keys_of, flat_terms_of, cat_terms_of,
};

verus! {

/// The cumulative-length scan gives each member interval of a mixture a band
/// of cutoffs exactly as long as the interval: member `i` is selected
/// precisely for the cutoffs in `[prefix_i, prefix_i + length_i)`. The
/// chance of a member under a uniform cutoff is therefore proportional to
/// its length.
pub proof fn lemma_mixture_selection_band(m: AvgCUD, i: int, c: int)
    requires
        m.wf(),
        0 <= i < m.cuds@.len(),
        0 <= c < m.total_len_spec(),
    ensures
        m.pick_spec(c) == i <==> (prefix_sum(lens_of(m.cuds@), i) <= c < prefix_sum(
            lens_of(m.cuds@), i) + m.cuds@[i].len_spec()),
{
    let keys = lens_of(m.cuds@);
    if prefix_sum(keys, i) <= c < prefix_sum(keys, i) + m.cuds@[i].len_spec() {
        lemma_pick_band(keys, c, i);
    }
    if m.pick_spec(c) == i {
        lemma_pick_band_exists(keys, c);
    }
}

/// The raw-weight scan of a categorical blend gives each entry a band of
/// cutoffs exactly as long as its weight: entry `i` is selected precisely
/// for the cutoffs in `[prefix_i, prefix_i + weight_i)`. The chance of an
/// entry under a uniform cutoff is therefore proportional to its raw
/// weight.
pub proof fn lemma_categorical_selection_band(b: WeightedCUDs, i: int, c: int)
    requires
        b.wf(),
        0 <= i < b.weights@.len(),
        0 <= c < sum_int(ints_of(b.weights@)),
    ensures
        b.pick_spec(c) == i <==> (prefix_sum(ints_of(b.weights@), i) <= c < prefix_sum(
            ints_of(b.weights@), i) + b.weights@[i]),
{
    let keys = ints_of(b.weights@);
    if prefix_sum(keys, i) <= c < prefix_sum(keys, i) + b.weights@[i] {
        lemma_pick_band(keys, c, i);
    }
    if b.pick_spec(c) == i {
        lemma_pick_band_exists(keys, c);
    }
}

/// A Flat-Interval blend built from a single mixture normalizes that
/// mixture's weight to exactly one unit, and then samples exactly as the
/// mixture itself does: for every cutoff and unit draw, the blend's draw
/// equals the mixture's own draw.
pub proof fn lemma_single_entry_flat_sample(b: WeightedAvgCUD, m: AvgCUD, w: i64, c: int, u: int)
    requires
        m.wf(),
        1 <= w <= SCALE,
        b.items@ == flatten_spec(seq![m], normalize_spec(seq![w], w as int)),
    ensures
        b.sample_spec(c, u) == m.sample_spec(c, u),
        b.pick_spec(c) == m.pick_spec(c),
{
    assert((w * SCALE) / (w as int) == SCALE) by (nonlinear_arith)
        requires 1 <= w <= SCALE, SCALE == 65536;
    assert(normalize_spec(seq![w], w as int) =~= seq![SCALE]);
    assert(seq![m].drop_last() =~= Seq::<AvgCUD>::empty());
    assert(seq![SCALE].drop_last() =~= Seq::<i64>::empty());
    assert(flatten_spec(Seq::<AvgCUD>::empty(), Seq::<i64>::empty())
        =~= Seq::<WeightedCud>::empty());
    assert(b.items@ =~= pair_all(m.cuds@, SCALE));
    assert(flat_keys_of(b.items@) =~= lens_of(m.cuds@)) by {
        assert forall|j: int| 0 <= j < m.cuds@.len() implies flat_keys_of(b.items@)[j] == lens_of(
            m.cuds@)[j] by {
            let l = m.cuds@[j].len_spec();
            assert((l * SCALE) / (SCALE as int) == l) by (nonlinear_arith)
                requires SCALE == 65536;
        }
    }
    lemma_pick_in_range(lens_of(m.cuds@), c);
    let p = m.pick_spec(c);
    assert(b.items@[p].cud == m.cuds@[p]);
}

/// A Flat-Interval blend built from a single mixture evaluates to the plain
/// sum of the member densities (where the mixture's own `evaluate` is their
/// mean); for a single-interval mixture the two coincide exactly.
pub proof fn lemma_single_entry_flat_evaluate(b: WeightedAvgCUD, m: AvgCUD, w: i64, x: int)
    requires
        m.wf(),
        1 <= w <= SCALE,
        b.items@ == flatten_spec(seq![m], normalize_spec(seq![w], w as int)),
    ensures
        b.eval_spec(x) == sum_int(evals_of(m.cuds@, x)),
        m.cuds@.len() == 1 ==> b.eval_spec(x) == m.eval_spec(x),
{
    assert((w * SCALE) / (w as int) == SCALE) by (nonlinear_arith)
        requires 1 <= w <= SCALE, SCALE == 65536;
    assert(normalize_spec(seq![w], w as int) =~= seq![SCALE]);
    assert(seq![m].drop_last() =~= Seq::<AvgCUD>::empty());
    assert(seq![SCALE].drop_last() =~= Seq::<i64>::empty());
    assert(flatten_spec(Seq::<AvgCUD>::empty(), Seq::<i64>::empty())
        =~= Seq::<WeightedCud>::empty());
    assert(b.items@ =~= pair_all(m.cuds@, SCALE));
    assert(flat_terms_of(b.items@, x) =~= evals_of(m.cuds@, x)) by {
        assert forall|j: int| 0 <= j < m.cuds@.len() implies flat_terms_of(b.items@, x)[j]
            == evals_of(m.cuds@, x)[j] by {
            let e = m.cuds@[j].eval_spec(x);
            assert((e * SCALE) / (SCALE as int) == e) by (nonlinear_arith)
                requires SCALE == 65536;
        }
    }
    if m.cuds@.len() == 1 {
        let evs = evals_of(m.cuds@, x);
        assert(evs.drop_last() =~= Seq::<int>::empty());
        assert(sum_int(Seq::<int>::empty()) == 0);
        assert(sum_int(evs) == evs[0]);
        assert(evs[0] / 1int == evs[0]);
    }
}

/// A categorical blend with a single entry reproduces that entry exactly:
/// its density is the entry's density (the weight cancels), and every draw
/// delegates to the entry's own sampler.
pub proof fn lemma_single_entry_categorical(b: WeightedCUDs, x: int, c: int, u: int)
    requires
        b.wf(),
        b.cuds@.len() == 1,
    ensures
        b.eval_spec(x) == b.cuds@[0].eval_spec(x),
        b.sample_spec(c, u) == b.cuds@[0].sample_spec(u),
{
    let w = b.weights@[0];
    assert(ints_of(b.weights@).drop_last() =~= Seq::<int>::empty());
    assert(sum_int(Seq::<int>::empty()) == 0);
    assert(sum_int(ints_of(b.weights@)) == w);
    let k = choose|k: int|
        0 <= k < ints_of(b.weights@).len() && ints_of(b.weights@)[k] > 0;
    assert(k == 0);
    assert(w >= 1);
    let terms = cat_terms_of(b.cuds@, b.weights@, x);
    assert(terms.drop_last() =~= Seq::<int>::empty());
    assert(sum_int(terms) == (w as int) * b.cuds@[0].eval_spec(x));
    let e = b.cuds@[0].eval_spec(x);
    assert(((w as int) * e) / (w as int) == e) by (nonlinear_arith)
        requires w >= 1;
}

} // verus!
