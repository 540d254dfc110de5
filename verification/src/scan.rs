//! Cumulative-sum machinery shared by the samplers: summation of a ghost
//! sequence, prefix sums, and the index that a front-to-back cumulative scan
//! selects for a given cutoff.

use vstd::prelude::*;

verus! {

/// Sum of a sequence of mathematical integers.
pub open spec fn sum_int(s: Seq<int>) -> int
    decreases s.len(),
{
    if s.len() == 0 {
        0
    } else {
        sum_int(s.drop_last()) + s.last()
    }
}

/// The entries of a fixed-point vector as mathematical integers.
pub open spec fn ints_of(s: Seq<i64>) -> Seq<int> {
    s.map_values(|k: i64| k as int)
}

/// Sum of the first `i` entries of `s`.
pub open spec fn prefix_sum(s: Seq<int>, i: int) -> int {
    sum_int(s.take(i))
}

/// The index at which a cumulative scan of `keys` first exceeds `cutoff`,
/// falling back to the last entry when the scan runs out.
pub open spec fn pick_spec(keys: Seq<int>, cutoff: int) -> int
    decreases keys.len(),
{
    if keys.len() <= 1 {
        0
    } else if keys[0] > cutoff {
        0
    } else {
        1 + pick_spec(keys.subrange(1, keys.len() as int), cutoff - keys[0])
    }
}

/// Extending a prefix by one entry adds that entry to its sum.
pub proof fn lemma_sum_take_step(s: Seq<int>, i: int)
    requires
        0 <= i < s.len(),
    ensures
        prefix_sum(s, i + 1) == prefix_sum(s, i) + s[i],
{
    assert(s.take(i + 1).drop_last() =~= s.take(i));
}

/// The whole sequence is its own `len`-prefix.
pub proof fn lemma_sum_take_all(s: Seq<int>)
    ensures
        prefix_sum(s, s.len() as int) == sum_int(s),
{
    assert(s.take(s.len() as int) =~= s);
}

/// A sum of bounded entries is bounded by `len` times the bounds.
pub proof fn lemma_sum_bounds(s: Seq<int>, lo: int, hi: int)
    requires
        forall|i: int| 0 <= i < s.len() ==> lo <= #[trigger] s[i] <= hi,
    ensures
        s.len() * lo <= sum_int(s) <= s.len() * hi,
    decreases s.len(),
{
    if s.len() > 0 {
        lemma_sum_bounds(s.drop_last(), lo, hi);
        assert((s.len() - 1) * lo + lo == s.len() * lo) by (nonlinear_arith);
        assert((s.len() - 1) * hi + hi == s.len() * hi) by (nonlinear_arith);
    }
}

/// A sum of non-negative entries is non-negative.
pub proof fn lemma_sum_nonneg(s: Seq<int>)
    requires
        forall|i: int| 0 <= i < s.len() ==> #[trigger] s[i] >= 0,
    ensures
        sum_int(s) >= 0,
    decreases s.len(),
{
    if s.len() > 0 {
        lemma_sum_nonneg(s.drop_last());
    }
}

/// Prefix sums of a non-negative sequence grow with the prefix length.
pub proof fn lemma_prefix_mono(s: Seq<int>, i: int, j: int)
    requires
        forall|k: int| 0 <= k < s.len() ==> #[trigger] s[k] >= 0,
        0 <= i <= j <= s.len(),
    ensures
        prefix_sum(s, i) <= prefix_sum(s, j),
    decreases j - i,
{
    if i < j {
        lemma_sum_take_step(s, j - 1);
        lemma_prefix_mono(s, i, j - 1);
    }
}

/// Each entry of a non-negative sequence is at most the whole sum.
pub proof fn lemma_elem_le_sum(s: Seq<int>, i: int)
    requires
        forall|k: int| 0 <= k < s.len() ==> #[trigger] s[k] >= 0,
        0 <= i < s.len(),
    ensures
        s[i] <= sum_int(s),
{
    lemma_prefix_mono(s, 0, i);
    lemma_sum_take_step(s, i);
    lemma_prefix_mono(s, i + 1, s.len() as int);
    lemma_sum_take_all(s);
    assert(s.take(0) =~= Seq::<int>::empty());
}

/// Peeling the first entry off a sum.
pub proof fn lemma_sum_front(s: Seq<int>)
    requires
        s.len() >= 1,
    ensures
        sum_int(s) == s[0] + sum_int(s.subrange(1, s.len() as int)),
    decreases s.len(),
{
    if s.len() == 1 {
        assert(s.subrange(1, 1) =~= Seq::<int>::empty());
        assert(s.drop_last() =~= Seq::<int>::empty());
    } else {
        let t = s.drop_last();
        lemma_sum_front(t);
        assert(t.subrange(1, t.len() as int) =~= s.subrange(1, s.len() as int).drop_last());
    }
}

/// The scan index always lands inside the sequence.
pub proof fn lemma_pick_in_range(keys: Seq<int>, cutoff: int)
    requires
        keys.len() >= 1,
    ensures
        0 <= pick_spec(keys, cutoff) < keys.len(),
    decreases keys.len(),
{
    if keys.len() > 1 && !(keys[0] > cutoff) {
        lemma_pick_in_range(keys.subrange(1, keys.len() as int), cutoff - keys[0]);
    }
}

/// A cutoff that falls inside the band of entry `i` makes the scan select `i`.
pub proof fn lemma_pick_band(keys: Seq<int>, cutoff: int, i: int)
    requires
        keys.len() >= 1,
        forall|k: int| 0 <= k < keys.len() ==> #[trigger] keys[k] >= 0,
        0 <= i < keys.len(),
        prefix_sum(keys, i) <= cutoff < prefix_sum(keys, i) + keys[i],
    ensures
        pick_spec(keys, cutoff) == i,
    decreases keys.len(),
{
    assert(keys.take(0) =~= Seq::<int>::empty());
    if i == 0 {
    } else {
        let tail = keys.subrange(1, keys.len() as int);
        lemma_prefix_mono(keys, 1, i);
        lemma_sum_take_step(keys, 0);
        assert(keys[0] <= cutoff);
        lemma_sum_front(keys.take(i));
        assert(keys.take(i).subrange(1, i) =~= tail.take(i - 1));
        lemma_sum_front(keys.take(i + 1));
        assert(keys.take(i + 1).subrange(1, i + 1) =~= tail.take(i));
        lemma_sum_take_step(tail, i - 1);
        lemma_sum_take_step(keys, i);
        lemma_pick_band(tail, cutoff - keys[0], i - 1);
    }
}

/// A cutoff below the total always lands in the band of the selected entry.
pub proof fn lemma_pick_band_exists(keys: Seq<int>, cutoff: int)
    requires
        keys.len() >= 1,
        forall|k: int| 0 <= k < keys.len() ==> #[trigger] keys[k] >= 0,
        0 <= cutoff < sum_int(keys),
    ensures
        ({
            let p = pick_spec(keys, cutoff);
            &&& 0 <= p < keys.len()
            &&& prefix_sum(keys, p) <= cutoff < prefix_sum(keys, p) + keys[p]
        }),
    decreases keys.len(),
{
    assert(keys.take(0) =~= Seq::<int>::empty());
    lemma_sum_take_all(keys);
    if keys.len() == 1 {
        lemma_sum_take_step(keys, 0);
    } else if keys[0] > cutoff {
    } else {
        let tail = keys.subrange(1, keys.len() as int);
        lemma_sum_front(keys);
        lemma_pick_band_exists(tail, cutoff - keys[0]);
        let p = pick_spec(keys, cutoff);
        let pt = pick_spec(tail, cutoff - keys[0]);
        lemma_sum_front(keys.take(p));
        assert(keys.take(p).subrange(1, p) =~= tail.take(p - 1));
        lemma_sum_take_step(keys, p);
        lemma_sum_take_step(tail, pt);
    }
}

/// A cutoff at or past the total makes the scan fall back to the last entry.
pub proof fn lemma_pick_fallback(keys: Seq<int>, cutoff: int)
    requires
        keys.len() >= 1,
        forall|k: int| 0 <= k < keys.len() ==> #[trigger] keys[k] >= 0,
        cutoff >= sum_int(keys),
    ensures
        pick_spec(keys, cutoff) == keys.len() - 1,
    decreases keys.len(),
{
    if keys.len() > 1 {
        let tail = keys.subrange(1, keys.len() as int);
        lemma_sum_front(keys);
        lemma_sum_nonneg(tail);
        lemma_pick_fallback(tail, cutoff - keys[0]);
    }
}

/// Sum a vector of non-negative fixed-point values.
pub fn sum_vec(v: &Vec<i64>) -> (r: i64)
    requires
        forall|i: int| 0 <= i < v@.len() ==> 0 <= #[trigger] v@[i],
        sum_int(ints_of(v@)) <= i64::MAX,
    ensures
        r == sum_int(ints_of(v@)),
        r >= 0,
{
    let ghost m = ints_of(v@);
    let mut total: i64 = 0;
    let mut i: usize = 0;
    proof {
        assert(m.take(0) =~= Seq::<int>::empty());
    }
    while i < v.len()
        invariant
            0 <= i <= v@.len(),
            m == ints_of(v@),
            forall|j: int| 0 <= j < v@.len() ==> 0 <= #[trigger] v@[j],
            sum_int(m) <= i64::MAX,
            total == prefix_sum(m, i as int),
            total >= 0,
        decreases v@.len() - i,
    {
        proof {
            lemma_sum_take_step(m, i as int);
            lemma_prefix_mono(m, i + 1, m.len() as int);
            lemma_sum_take_all(m);
        }
        total = total + v[i];
        i = i + 1;
    }
    proof {
        lemma_sum_take_all(m);
    }
    total
}

/// Walk the cumulative scan and return the selected index.
pub fn pick_index(keys: &Vec<i64>, cutoff: i64) -> (r: usize)
    requires
        keys@.len() >= 1,
        forall|i: int| 0 <= i < keys@.len() ==> 0 <= #[trigger] keys@[i],
        sum_int(ints_of(keys@)) <= i64::MAX,
        0 <= cutoff,
    ensures
        r == pick_spec(ints_of(keys@), cutoff as int),
        r < keys@.len(),
{
    let ghost m = ints_of(keys@);
    let n: usize = keys.len();
    let mut bar: i64 = 0;
    let mut i: usize = 0;
    proof {
        assert(m.take(0) =~= Seq::<int>::empty());
    }
    while i + 1 < n
        invariant
            0 <= i < keys@.len(),
            keys@.len() == n,
            m == ints_of(keys@),
            forall|j: int| 0 <= j < keys@.len() ==> 0 <= #[trigger] keys@[j],
            sum_int(m) <= i64::MAX,
            0 <= cutoff,
            bar == prefix_sum(m, i as int),
            bar <= cutoff,
            bar >= 0,
        decreases keys@.len() - i,
    {
        proof {
            lemma_sum_take_step(m, i as int);
            lemma_prefix_mono(m, i + 1, m.len() as int);
            lemma_sum_take_all(m);
        }
        let next: i64 = bar + keys[i];
        if next > cutoff {
            proof {
                lemma_pick_band(m, cutoff as int, i as int);
            }
            return i;
        }
        bar = next;
        i = i + 1;
    }
    proof {
        lemma_sum_take_step(m, i as int);
        lemma_sum_take_all(m);
        if cutoff < sum_int(m) {
            lemma_pick_band(m, cutoff as int, i as int);
        } else {
            lemma_pick_fallback(m, cutoff as int);
        }
    }
    n - 1
}

} // verus!
