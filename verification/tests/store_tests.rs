use bmd::bmd::BMD;
use bmd::distribution::{AvgCUD, CUD};
use bmd::spike::SpikeDist;
use bmd::DistError;

fn fp(x: f64) -> i64 {
    (x * 65536.0).round() as i64
}

#[test]
fn single_entry_store_reproduces_mixture_density() {
    let m = AvgCUD::new(vec![CUD::new(fp(2.0), fp(3.0)).unwrap()]).unwrap();
    let store: BMD<AvgCUD> = BMD {
        distributions: vec![(vec![fp(1.0)], m.copied())],
    };
    let blend = store.interpolate(&vec![fp(1.0)], 3277, false).unwrap();
    // The kernel weight of the matching context normalizes to one unit, so
    // the blend's density equals the stored mixture's own density.
    for x in [fp(1.9), fp(2.0), fp(2.25), fp(2.5), fp(2.75), fp(3.0), fp(3.1)] {
        assert_eq!(blend.evaluate(x), m.evaluate(x));
    }
}

#[test]
fn single_entry_store_reproduces_mixture_sampling() {
    let m = AvgCUD::new(vec![
        CUD::new(fp(2.0), fp(3.0)).unwrap(),
        CUD::new(fp(5.0), fp(6.5)).unwrap(),
    ])
    .unwrap();
    let store: BMD<AvgCUD> = BMD {
        distributions: vec![(vec![fp(1.0)], m.copied())],
    };
    let blend = store.interpolate(&vec![fp(1.0)], 3277, false).unwrap();
    // With the single weight normalized to one unit, the blend's scan keys
    // equal the mixture's member lengths: every (cutoff, draw) pair gives
    // the same sample from both.
    for c in [0, fp(0.5), fp(1.0), fp(1.7), fp(2.4)] {
        for u in [-40000, -1, 0, 1, 30000, 65535] {
            assert_eq!(blend.sample_at(c, u), m.sample_at(c, u));
        }
    }
}

#[test]
fn single_entry_store_reproduces_interval_behavior() {
    let c = CUD::new(fp(2.0), fp(3.0)).unwrap();
    let store: BMD<CUD> = BMD {
        distributions: vec![(vec![fp(1.0), fp(4.0)], c)],
    };
    let blend = store.interpolate(&vec![fp(1.0), fp(4.0)], 3277, false).unwrap();
    for x in [fp(1.9), fp(2.5), fp(3.1)] {
        assert_eq!(blend.evaluate(x), c.evaluate(x));
    }
    for u in [-50000, 0, 50000] {
        assert_eq!(blend.sample_at(0, u), c.sample_at(u));
    }
}

#[test]
fn interpolate_far_query_reports_degenerate_weights() {
    // Far from every stored context the kernel underflows to zero weight.
    let m = AvgCUD::new(vec![CUD::new(fp(2.0), fp(3.0)).unwrap()]).unwrap();
    let store: BMD<AvgCUD> = BMD {
        distributions: vec![(vec![fp(1.0)], m)],
    };
    let r = store.interpolate(&vec![fp(60.0)], 3277, false);
    assert_eq!(r.err(), Some(DistError::NumericDegeneracy));

    let c = CUD::new(fp(2.0), fp(3.0)).unwrap();
    let store2: BMD<CUD> = BMD {
        distributions: vec![(vec![fp(1.0)], c)],
    };
    let r2 = store2.interpolate(&vec![fp(60.0)], 3277, false);
    assert_eq!(r2.err(), Some(DistError::EmptyWeightSet));
}

#[test]
fn spike_store_interpolates_and_samples_near_center() {
    let s1 = SpikeDist::new(vec![fp(1.0), fp(2.0)], fp(0.2)).unwrap();
    let s2 = SpikeDist::new(vec![fp(30.0), fp(40.0)], fp(0.2)).unwrap();
    let store: BMD<SpikeDist> = BMD {
        distributions: vec![
            (vec![fp(0.0), fp(0.0)], s1),
            (vec![fp(20.0), fp(20.0)], s2),
        ],
    };
    let blend = store.interpolate(&vec![fp(0.0), fp(0.0)], 3277, false).unwrap();
    let mut rng = rand::thread_rng();
    // The matching context keeps full weight; the far one underflows to
    // zero, so every draw comes from the first spike.
    for _ in 0..500 {
        let v = blend.sample(&mut rng);
        assert_eq!(v.len(), 2);
        assert!((v[0] - fp(1.0)).abs() <= fp(0.1));
        assert!((v[1] - fp(2.0)).abs() <= fp(0.1));
    }
}

#[test]
fn end_to_end_trajectory_regeneration() {
    // A bouncing, decaying trajectory: y starts at 10, gravity pulls it
    // down, the floor at 0 halves the velocity.
    let mut y: f64 = 10.0;
    let mut dy: f64 = 0.0;
    let ddy: f64 = -9.8;
    let frametime: f64 = 1.0 / 24.0;
    let mut frames: Vec<f64> = Vec::new();
    for _ in 0..120 {
        dy += ddy * frametime;
        y += dy * frametime;
        if y < 0.0 {
            y = 0.0;
            dy = 0.5 * dy.abs();
        }
        frames.push(y);
    }

    // Window the trajectory into (12-frame context, target interval) pairs.
    let delta: f64 = 0.2;
    let mut distributions: Vec<(Vec<i64>, AvgCUD)> = Vec::new();
    for w in frames.windows(13) {
        let ctx: Vec<i64> = w[0..12].iter().map(|v| fp(*v)).collect();
        let target = w[12];
        let m = AvgCUD::new(vec![
            CUD::new(fp(target - delta), fp(target + delta)).unwrap(),
        ])
        .unwrap();
        distributions.push((ctx, m));
    }
    let store: BMD<AvgCUD> = BMD { distributions };

    // Querying at each training context and sampling must land within the
    // configured half-width of that context's training target almost
    // always.
    let mut rng = rand::thread_rng();
    let mut trials: u32 = 0;
    let mut hits: u32 = 0;
    for w in frames.windows(13) {
        let ctx: Vec<i64> = w[0..12].iter().map(|v| fp(*v)).collect();
        let target = w[12];
        let blend = store.interpolate(&ctx, 3277, false).unwrap();
        for _ in 0..3 {
            let s = blend.sample(&mut rng);
            trials += 1;
            if (s - fp(target)).abs() <= fp(delta) + 2 {
                hits += 1;
            }
        }
    }
    assert!(trials > 0);
    assert!(hits as f64 >= 0.95 * trials as f64);
}

#[test]
fn store_well_formedness_checkers() {
    let m = AvgCUD::new(vec![CUD::new(fp(2.0), fp(3.0)).unwrap()]).unwrap();
    let good: BMD<AvgCUD> = BMD {
        distributions: vec![(vec![fp(1.0)], m.copied())],
    };
    assert!(good.is_wf());
    assert!(good.query_ok(&vec![fp(0.5)]));
    assert!(!good.query_ok(&vec![fp(0.5), fp(0.5)]));

    let empty: BMD<AvgCUD> = BMD { distributions: vec![] };
    assert!(!empty.is_wf());

    // A mismatched context dimension breaks well-formedness.
    let ragged: BMD<AvgCUD> = BMD {
        distributions: vec![
            (vec![fp(1.0)], m.copied()),
            (vec![fp(1.0), fp(2.0)], m.copied()),
        ],
    };
    assert!(!ragged.is_wf());

    // An ill-formed member interval breaks well-formedness.
    let bad: BMD<CUD> = BMD {
        distributions: vec![(vec![fp(1.0)], CUD { a: fp(3.0), b: fp(2.0) })],
    };
    assert!(!bad.is_wf());

    let spikes: BMD<SpikeDist> = BMD {
        distributions: vec![
            (vec![fp(0.0)], SpikeDist::new(vec![fp(1.0), fp(2.0)], fp(0.2)).unwrap()),
            (vec![fp(1.0)], SpikeDist::new(vec![fp(3.0)], fp(0.2)).unwrap()),
        ],
    };
    // Spikes of different dimensions cannot share one store.
    assert!(!spikes.is_wf());
}
