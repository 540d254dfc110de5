use bmd::distribution::{AvgCUD, CUD};
use bmd::DistError;

fn fp(x: f64) -> i64 {
    (x * 65536.0).round() as i64
}

fn to_f(x: i64) -> f64 {
    x as f64 / 65536.0
}

#[test]
fn interval_evaluate_exact_formula() {
    let c = CUD::new(0, fp(10.0)).unwrap();
    let d = c.evaluate(fp(5.0));
    assert_eq!(d, (65536i64 * 65536) / fp(10.0));
    assert!((to_f(d) - 0.1).abs() < 0.001);
    assert_eq!(c.evaluate(fp(10.5)), 0);
    assert_eq!(c.evaluate(fp(-0.1)), 0);
    assert_eq!(c.evaluate(0), d);
    assert_eq!(c.evaluate(fp(10.0)), d);
}

#[test]
fn interval_evaluate_many_random_inputs() {
    let mut rng = rand::thread_rng();
    for _ in 0..500 {
        let low: f64 = rand::Rng::gen_range(&mut rng, -20.0..20.0);
        let len: f64 = rand::Rng::gen_range(&mut rng, 0.5..10.0);
        let x: f64 = rand::Rng::gen_range(&mut rng, -40.0..40.0);
        let a = fp(low);
        let b = fp(low + len);
        let c = CUD::new(a, b).unwrap();
        let d = c.evaluate(fp(x));
        if fp(x) >= a && fp(x) <= b {
            assert_eq!(d, (65536i64 * 65536) / (b - a));
        } else {
            assert_eq!(d, 0);
        }
    }
}

#[test]
fn interval_rejects_degenerate_and_inverted() {
    assert_eq!(CUD::new(fp(1.0), fp(1.0)), Err(DistError::ConfigurationError));
    assert_eq!(CUD::new(fp(2.0), fp(1.0)), Err(DistError::ConfigurationError));
    assert!(CUD::new(fp(1.0), fp(2.0)).is_ok());
}

#[test]
fn interval_samples_in_range_with_cubic_bias() {
    let c = CUD::new(0, fp(10.0)).unwrap();
    let mut rng = rand::thread_rng();
    let mut middle: u32 = 0;
    let mut edges: u32 = 0;
    for _ in 0..10000 {
        let s = c.sample(&mut rng);
        assert!(s >= 0 && s <= fp(10.0));
        let v = to_f(s);
        if v >= 4.0 && v <= 6.0 {
            middle += 1;
        }
        if v <= 2.0 || v >= 8.0 {
            edges += 1;
        }
    }
    assert!(middle > 2 * edges);
}

#[test]
fn mixture_rejects_empty_list() {
    assert_eq!(AvgCUD::new(vec![]).err(), Some(DistError::ConfigurationError));
}

#[test]
fn mixture_evaluate_is_mean_of_members() {
    let m = AvgCUD::new(vec![
        CUD::new(0, fp(1.0)).unwrap(),
        CUD::new(fp(10.0), fp(11.0)).unwrap(),
    ])
    .unwrap();
    let d = m.evaluate(fp(0.5));
    assert_eq!(d, (65536i64 * 65536 / 65536) / 2);
    assert!((to_f(d) - 0.5).abs() < 0.001);
    assert_eq!(m.evaluate(fp(5.0)), 0);
}

#[test]
fn mixture_sample_selects_equal_length_members_evenly() {
    let m = AvgCUD::new(vec![
        CUD::new(0, fp(1.0)).unwrap(),
        CUD::new(fp(10.0), fp(11.0)).unwrap(),
    ])
    .unwrap();
    let mut rng = rand::thread_rng();
    let mut first: u32 = 0;
    let n: u32 = 10000;
    for _ in 0..n {
        let s = m.sample(&mut rng);
        let in_first = s >= 0 && s <= fp(1.0);
        let in_second = s >= fp(10.0) && s <= fp(11.0);
        assert!(in_first || in_second);
        if in_first {
            first += 1;
        }
    }
    let freq = first as f64 / n as f64;
    assert!((freq - 0.5).abs() <= 0.05);
}

#[test]
fn mixture_sample_at_is_deterministic_given_draws() {
    let m = AvgCUD::new(vec![
        CUD::new(0, fp(1.0)).unwrap(),
        CUD::new(fp(10.0), fp(11.0)).unwrap(),
    ])
    .unwrap();
    // Total length is 2.0: a cutoff below one unit selects the first member,
    // one at or above it selects the second.
    let s1 = m.sample_at(0, 0);
    assert!(s1 >= 0 && s1 <= fp(1.0));
    let s2 = m.sample_at(fp(1.5), 0);
    assert!(s2 >= fp(10.0) && s2 <= fp(11.0));
    assert_eq!(m.sample_at(100, 500), m.sample_at(100, 500));
}
