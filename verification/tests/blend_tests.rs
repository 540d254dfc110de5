use bmd::blend::{WeightedAvgCUD, WeightedCUDs};
use bmd::distribution::{AvgCUD, CUD};
use bmd::DistError;

fn fp(x: f64) -> i64 {
    (x * 65536.0).round() as i64
}

fn to_f(x: i64) -> f64 {
    x as f64 / 65536.0
}

#[test]
fn flat_blend_weighted_density() {
    let a = AvgCUD::new(vec![CUD::new(fp(2.0), fp(3.0)).unwrap()]).unwrap();
    let b = AvgCUD::new(vec![CUD::new(fp(10.0), fp(11.0)).unwrap()]).unwrap();
    // Raw weights 0.8 and 0.2 in fixed point; they already sum to one unit,
    // so normalization keeps them.
    let blend = WeightedAvgCUD::from_weighted(&vec![a, b], &vec![52429, 13107]).unwrap();
    let d1 = blend.evaluate(fp(2.5));
    let d2 = blend.evaluate(fp(10.5));
    assert!((to_f(d1) - 0.8).abs() < 0.01);
    assert!((to_f(d2) - 0.2).abs() < 0.01);
    assert_eq!(blend.evaluate(fp(5.0)), 0);
}

#[test]
fn flat_blend_rejects_zero_total_weight() {
    let a = AvgCUD::new(vec![CUD::new(fp(2.0), fp(3.0)).unwrap()]).unwrap();
    let b = AvgCUD::new(vec![CUD::new(fp(10.0), fp(11.0)).unwrap()]).unwrap();
    let r = WeightedAvgCUD::from_weighted(&vec![a, b], &vec![0, 0]);
    assert_eq!(r.err(), Some(DistError::NumericDegeneracy));
}

#[test]
fn flat_blend_samples_stay_inside_member_intervals() {
    let a = AvgCUD::new(vec![CUD::new(fp(2.0), fp(3.0)).unwrap()]).unwrap();
    let b = AvgCUD::new(vec![CUD::new(fp(10.0), fp(11.0)).unwrap()]).unwrap();
    let blend = WeightedAvgCUD::from_weighted(&vec![a, b], &vec![52429, 13107]).unwrap();
    let mut rng = rand::thread_rng();
    let mut high: u32 = 0;
    let n: u32 = 5000;
    for _ in 0..n {
        let s = blend.sample(&mut rng);
        let in_a = s >= fp(2.0) && s <= fp(3.0);
        let in_b = s >= fp(10.0) && s <= fp(11.0);
        assert!(in_a || in_b);
        if in_a {
            high += 1;
        }
    }
    // Equal lengths, so selection follows the 0.8 / 0.2 weights.
    let freq = high as f64 / n as f64;
    assert!((freq - 0.8).abs() <= 0.05);
}

#[test]
fn categorical_blend_density_normalizes_at_evaluation() {
    let c1 = CUD::new(0, fp(1.0)).unwrap();
    let c2 = CUD::new(fp(10.0), fp(11.0)).unwrap();
    let blend = WeightedCUDs::from_weighted(vec![c1, c2], vec![49152, 16384]).unwrap();
    // (0.75 * 1.0 + 0.25 * 0) = 0.75 density at a point covered only by c1.
    let d = blend.evaluate(fp(0.5));
    assert_eq!(d, 49152);
    assert!((to_f(d) - 0.75).abs() < 0.001);
}

#[test]
fn categorical_blend_picks_in_weight_proportion() {
    let c1 = CUD::new(0, fp(1.0)).unwrap();
    let c2 = CUD::new(fp(10.0), fp(11.0)).unwrap();
    // Raw weights in ratio 3:1.
    let blend = WeightedCUDs::from_weighted(vec![c1, c2], vec![49152, 16384]).unwrap();
    let mut rng = rand::thread_rng();
    let mut first: u32 = 0;
    let n: u32 = 10000;
    for _ in 0..n {
        let s = blend.sample(&mut rng);
        let in_first = s >= 0 && s <= fp(1.0);
        let in_second = s >= fp(10.0) && s <= fp(11.0);
        assert!(in_first || in_second);
        if in_first {
            first += 1;
        }
    }
    let freq = first as f64 / n as f64;
    assert!((freq - 0.75).abs() <= 0.03);
}

#[test]
fn categorical_blend_rejects_all_zero_weights() {
    let c1 = CUD::new(0, fp(1.0)).unwrap();
    let c2 = CUD::new(fp(10.0), fp(11.0)).unwrap();
    let r = WeightedCUDs::from_weighted(vec![c1, c2], vec![0, 0]);
    assert_eq!(r.err(), Some(DistError::EmptyWeightSet));
}

#[test]
fn categorical_blend_rejects_negative_weights() {
    let c1 = CUD::new(0, fp(1.0)).unwrap();
    let c2 = CUD::new(fp(10.0), fp(11.0)).unwrap();
    let r = WeightedCUDs::from_weighted(vec![c1, c2], vec![-1, -2]);
    assert_eq!(r.err(), Some(DistError::EmptyWeightSet));
}

#[test]
fn flat_blend_flattening_keeps_full_mixture_weight() {
    // One mixture with two intervals: each flattened interval carries the
    // whole (normalized) mixture weight, so the blended density is the sum,
    // not the mean, of the member densities.
    let m = AvgCUD::new(vec![
        CUD::new(0, fp(1.0)).unwrap(),
        CUD::new(0, fp(1.0)).unwrap(),
    ])
    .unwrap();
    let blend = WeightedAvgCUD::from_weighted(&vec![m.copied()], &vec![65536]).unwrap();
    let d = blend.evaluate(fp(0.5));
    assert!((to_f(d) - 2.0).abs() < 0.01);
    assert!((to_f(m.evaluate(fp(0.5))) - 1.0).abs() < 0.01);
}
