use azure_gateway::binary64::{Binary64, EXACT_WHOLE};
use azure_gateway::types::{
    FrameTime, Moments, ReadingEnvelope, SensorStats,
};

fn bits(x: f64) -> Binary64 {
    Binary64::from_bits(x.to_bits())
}

fn double(d: Binary64) -> f64 {
    f64::from_bits(d.bits)
}

/// Adds a reading, with its share of the moments.
fn add_reading(s: &mut SensorStats, x: f64) {
    let count = s.count as f64 + 1.0;
    let delta = x - double(s.mean);
    let mean = double(s.mean) + delta / count;
    let m2 = double(s.m2) + delta * (x - mean);
    s.update(bits(x), Moments { mean: bits(mean), m2: bits(m2) });
}

fn sample(xs: &[f64]) -> SensorStats {
    let mut s = SensorStats::default();
    for x in xs {
        add_reading(&mut s, *x);
    }
    s
}

fn join(a: SensorStats, b: SensorStats) -> SensorStats {
    let n_a = a.count as f64;
    let n_b = b.count as f64;
    let n = n_a + n_b;
    let delta = double(b.mean) - double(a.mean);
    let mean = double(a.mean) + delta * (n_b / n);
    let m2 = double(a.m2) + double(b.m2) + delta * delta * (n_a * n_b / n);
    a.merge(b, Moments { mean: bits(mean), m2: bits(m2) })
}

fn variance(s: &SensorStats) -> f64 {
    double(s.variance_sample(bits(double(s.m2) / (s.count as f64 - 1.0))))
}

fn stddev(s: &SensorStats) -> f64 {
    double(s.stddev_sample(bits((double(s.m2) / (s.count as f64 - 1.0)).sqrt())))
}

#[test]
fn empty_statistics_have_no_extremes() {
    let s = SensorStats::default();
    assert_eq!(s.count, 0);
    assert_eq!(double(s.min), f64::INFINITY);
    assert_eq!(double(s.max), f64::NEG_INFINITY);
    assert_eq!(double(s.mean), 0.0);
    assert_eq!(double(s.m2), 0.0);
    assert_eq!(variance(&s), 0.0);
    assert_eq!(stddev(&s), 0.0);
}

#[test]
fn the_first_reading_is_taken_as_it_is() {
    let mut s = SensorStats::default();
    s.update(bits(3.5), Moments { mean: bits(99.0), m2: bits(99.0) });
    assert_eq!(s.count, 1);
    assert_eq!(double(s.min), 3.5);
    assert_eq!(double(s.max), 3.5);
    assert_eq!(double(s.mean), 3.5);
    assert_eq!(double(s.m2), 0.0);
    assert_eq!(double(s.variance_sample(bits(99.0))), 0.0);
    assert_eq!(double(s.stddev_sample(bits(99.0))), 0.0);
}

#[test]
fn readings_add_up() {
    let s = sample(&[2.0, 4.0, 4.0, 4.0, 5.0, 5.0, 7.0, 9.0]);
    assert_eq!(s.count, 8);
    assert_eq!(double(s.min), 2.0);
    assert_eq!(double(s.max), 9.0);
    assert!((double(s.mean) - 5.0).abs() < 1e-12);
    assert!((variance(&s) - 32.0 / 7.0).abs() < 1e-12);
    assert!((stddev(&s) - (32.0f64 / 7.0).sqrt()).abs() < 1e-12);
}

#[test]
fn a_reading_that_is_no_number_leaves_the_extremes() {
    let s = sample(&[1.0, f64::NAN, -2.0]);
    assert_eq!(s.count, 3);
    assert_eq!(double(s.min), -2.0);
    assert_eq!(double(s.max), 1.0);
    assert!(double(s.mean).is_nan());
}

#[test]
fn joined_samples_are_the_sample_of_all() {
    let a = [1.0, 8.0, -3.0];
    let b = [4.0, 20.0];
    let joined = join(sample(&a), sample(&b));
    let all = sample(&[1.0, 8.0, -3.0, 4.0, 20.0]);
    assert_eq!(joined.count, 5);
    assert_eq!(joined.min, all.min);
    assert_eq!(joined.max, all.max);
    assert!((double(joined.mean) - double(all.mean)).abs() < 1e-12);
    assert!((double(joined.m2) - double(all.m2)).abs() < 1e-9);
}

#[test]
fn moments_that_need_no_rounding_are_exact() {
    // Every mean on the way is a whole number, and so is every sum of squares.
    let xs = [2.0, 4.0, 9.0, -11.0, 16.0, 10.0];
    for n in 1..=xs.len() {
        let s = sample(&xs[..n]);
        let mean = xs[..n].iter().sum::<f64>() / n as f64;
        let m2: f64 = xs[..n].iter().map(|x| (x - mean) * (x - mean)).sum();
        assert_eq!(double(s.mean), mean);
        assert_eq!(double(s.m2), m2);
        assert!(double(s.min) <= mean && mean <= double(s.max));
    }
    let all = join(sample(&xs[..2]), sample(&[7.0, 7.0]));
    assert_eq!(double(all.mean), 5.0);
    assert_eq!(double(all.m2), 18.0);
}

#[test]
fn an_empty_sample_joins_without_a_trace() {
    let s = sample(&[1.0, 2.0]);
    let wrong = Moments { mean: bits(0.5), m2: bits(0.5) };
    assert_eq!(s.merge(SensorStats::default(), wrong), s);
    assert_eq!(SensorStats::default().merge(s, wrong), s);
}

#[test]
fn counts_past_what_a_double_holds_are_those_of_doubles() {
    let mut a = sample(&[1.0]);
    let mut b = sample(&[2.0]);
    a.count = EXACT_WHOLE;
    b.count = 1;
    assert_eq!(join(a, b).count, EXACT_WHOLE);
    a.count = EXACT_WHOLE - 1;
    assert_eq!(join(a, b).count, EXACT_WHOLE);
    let counts = [
        1u64, 2, 3, EXACT_WHOLE - 1, EXACT_WHOLE + 1, EXACT_WHOLE + 3, 1u64 << 62, 1u64 << 63,
        (1u64 << 63) + 1024, (1u64 << 63) + 1025, (1u64 << 63) + 3072, u64::MAX - 1024, u64::MAX,
    ];
    for x in counts {
        for y in counts {
            a.count = x;
            b.count = y;
            assert_eq!(join(a, b).count, (x as f64 + y as f64) as u64, "{x} {y}");
        }
    }
}

#[test]
fn an_envelope_holds_what_it_was_given() {
    let t = FrameTime::SinceEpoch { secs: 5, nanos: 6 };
    let e = ReadingEnvelope::new("thermo-1".to_string(), t, bits(21.5));
    assert_eq!(e.sensor_id, "thermo-1");
    assert_eq!(e.ts, t);
    assert_eq!(double(e.value), 21.5);
}
