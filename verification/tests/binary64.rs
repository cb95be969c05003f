use azure_gateway::binary64::{
    nearest_whole, Binary64, INFINITY_BITS, NEG_INFINITY_BITS, ONE_BITS, SIGN_BIT,
};

const DOUBLES: [f64; 16] = [
    0.0,
    -0.0,
    1.0,
    -1.0,
    1.5,
    -1.5,
    f64::MIN_POSITIVE,
    -5e-324,
    5e-324,
    f64::MAX,
    f64::MIN,
    f64::INFINITY,
    f64::NEG_INFINITY,
    f64::NAN,
    0.03,
    1e300,
];

fn bits(x: f64) -> Binary64 {
    Binary64::from_bits(x.to_bits())
}

fn double(d: Binary64) -> f64 {
    f64::from_bits(d.bits)
}

#[test]
fn order_is_that_of_doubles() {
    for a in DOUBLES {
        assert_eq!(bits(a).is_nan(), a.is_nan());
        for b in DOUBLES {
            assert_eq!(bits(a).lt(&bits(b)), a < b, "{a} < {b}");
            assert_eq!(bits(a).le(&bits(b)), a <= b, "{a} <= {b}");
        }
    }
}

#[test]
fn extremes_are_those_of_doubles() {
    for a in DOUBLES {
        for b in DOUBLES {
            let low = double(bits(a).min(bits(b)));
            let high = double(bits(a).max(bits(b)));
            if a.is_nan() && b.is_nan() {
                assert!(low.is_nan() && high.is_nan());
            } else {
                assert_eq!(low, a.min(b), "{a} {b}");
                assert_eq!(high, a.max(b), "{a} {b}");
            }
        }
    }
}

#[test]
fn whole_parts_are_those_of_casts() {
    for x in DOUBLES {
        assert_eq!(bits(x).to_whole(), x as u64, "{x}");
    }
    let mut x = 1.7f64;
    for _ in 0..70 {
        assert_eq!(bits(x).to_whole(), x as u64, "{x}");
        assert_eq!(bits(-x).to_whole(), 0);
        x *= 1.9;
    }
}

#[test]
fn nearest_doubles_are_those_of_casts() {
    let mut n: u128 = 1;
    while n < 1u128 << 64 {
        for d in 0..6u128 {
            for m in [n + d, 3 * n + d, n * 2 - 1 + d] {
                if m <= 1u128 << 65 {
                    assert_eq!(nearest_whole(m), (m as f64) as u128, "{m}");
                }
            }
        }
        n = n * 2 + 1;
    }
}

#[test]
fn constants_are_the_bits_they_name() {
    assert_eq!(INFINITY_BITS, f64::INFINITY.to_bits());
    assert_eq!(NEG_INFINITY_BITS, f64::NEG_INFINITY.to_bits());
    assert_eq!(ONE_BITS, 1.0f64.to_bits());
    assert_eq!(SIGN_BIT, (-0.0f64).to_bits());
    assert_eq!(double(Binary64::zero()).to_bits(), 0.0f64.to_bits());
    let negative_nan = Binary64::from_bits(0xFFF8_0000_0000_0001);
    assert!(negative_nan.is_nan());
}
