use bmd::kernel::{similarity, Lookback12, RExp};
use bmd::spike::{SpikeDist, WeightedSpikes};
use bmd::DistError;

fn fp(x: f64) -> i64 {
    (x * 65536.0).round() as i64
}

#[test]
fn similarity_is_one_unit_on_equal_vectors() {
    let a = vec![fp(1.0), fp(2.0), fp(3.0)];
    let b = vec![fp(1.0), fp(2.0), fp(3.0)];
    assert_eq!(similarity(&a, &b, 3277, false), 65536);
    assert_eq!(similarity(&a, &b, 3277, true), 65536);
}

#[test]
fn similarity_at_one_wideness_distance_is_inverse_e() {
    // Distance exactly one wideness: the weight is 1/e in fixed point.
    let a = vec![0];
    let b = vec![3277];
    assert_eq!(similarity(&a, &b, 3277, false), 24112);
}

#[test]
fn similarity_decreases_with_distance_and_is_symmetric() {
    let a = vec![fp(1.0), fp(1.0)];
    let near = vec![fp(1.1), fp(1.0)];
    let far = vec![fp(2.0), fp(1.5)];
    let s_near = similarity(&a, &near, 3277, false);
    let s_far = similarity(&a, &far, 3277, false);
    assert!(s_near > s_far);
    assert!(s_near < 65536);
    assert_eq!(s_near, similarity(&near, &a, 3277, false));
    assert_eq!(s_far, similarity(&far, &a, 3277, false));
}

#[test]
fn recency_weighting_counts_late_components_more() {
    let a = vec![0, 0, 0, 0];
    let early = vec![fp(0.1), 0, 0, 0];
    let late = vec![0, 0, 0, fp(0.1)];
    // The same difference placed later in the vector scores as more distant.
    assert!(similarity(&a, &early, 6554, true) > similarity(&a, &late, 6554, true));
    assert_eq!(similarity(&a, &early, 6554, false), similarity(&a, &late, 6554, false));
}

#[test]
fn lookback12_and_rexp_similarity() {
    let x = Lookback12(vec![fp(0.5); 12]);
    let y = Lookback12(vec![fp(0.5); 12]);
    assert_eq!(x.similarity(&y), 65536);
    let p = RExp(fp(1.0));
    let q = RExp(fp(1.0));
    assert_eq!(p.similarity(&q), 65536);
    let r = RExp(fp(3.0));
    assert!(p.similarity(&r) < 65536);
    assert_eq!(p.similarity(&r), r.similarity(&p));
}

#[test]
fn spike_rejects_bad_configuration() {
    assert_eq!(
        SpikeDist::new(vec![], fp(0.1)).err(),
        Some(DistError::ConfigurationError)
    );
    assert_eq!(
        SpikeDist::new(vec![fp(1.0)], fp(-0.1)).err(),
        Some(DistError::ConfigurationError)
    );
}

#[test]
fn spike_samples_stay_within_half_width_per_axis() {
    let s = SpikeDist::new(vec![fp(1.0), fp(2.0), fp(3.0)], fp(0.2)).unwrap();
    let mut rng = rand::thread_rng();
    let centers = [fp(1.0), fp(2.0), fp(3.0)];
    for _ in 0..2000 {
        let v = s.sample(&mut rng);
        assert_eq!(v.len(), 3);
        for i in 0..3 {
            assert!((v[i] - centers[i]).abs() <= fp(0.1));
        }
    }
}

#[test]
fn spike_evaluate_is_unsupported() {
    let s = SpikeDist::new(vec![fp(1.0)], fp(0.2)).unwrap();
    assert_eq!(s.evaluate(&vec![fp(1.0)]), Err(DistError::UnsupportedOperation));
    let b = WeightedSpikes::from_weighted(vec![s], vec![65536]).unwrap();
    assert_eq!(b.evaluate(&vec![fp(1.0)]), Err(DistError::UnsupportedOperation));
}

#[test]
fn weighted_spikes_reject_empty_weight_set() {
    let s1 = SpikeDist::new(vec![fp(1.0)], fp(0.2)).unwrap();
    let s2 = SpikeDist::new(vec![fp(5.0)], fp(0.2)).unwrap();
    assert_eq!(
        WeightedSpikes::from_weighted(vec![s1.copied(), s2.copied()], vec![0, 0]).err(),
        Some(DistError::EmptyWeightSet)
    );
    assert_eq!(
        WeightedSpikes::from_weighted(vec![s1, s2], vec![-1, -2]).err(),
        Some(DistError::EmptyWeightSet)
    );
}

#[test]
fn weighted_spikes_zero_weight_entry_is_never_picked() {
    let s1 = SpikeDist::new(vec![fp(1.0)], fp(0.2)).unwrap();
    let s2 = SpikeDist::new(vec![fp(50.0)], fp(0.2)).unwrap();
    let b = WeightedSpikes::from_weighted(vec![s1, s2], vec![65536, 0]).unwrap();
    let mut rng = rand::thread_rng();
    for _ in 0..1000 {
        let v = b.sample(&mut rng);
        assert_eq!(v.len(), 1);
        assert!((v[0] - fp(1.0)).abs() <= fp(0.1));
    }
}
