use lethe::binary64::{
    distance, over_whole, product, round_whole, sum, times_whole, Binary64, INFINITY,
};

/// Numbers of all sizes, the smallest and largest among them.
fn numbers() -> Vec<f64> {
    let mut all = vec![
        0.0,
        f64::from_bits(1),
        f64::from_bits(0xf_ffff_ffff_ffff),
        f64::MIN_POSITIVE,
        0.1,
        0.5,
        1.0,
        1.0 / 3.0,
        100.0,
        1e-6,
        9_007_199_254_740_993.0,
        1.3e154,
        1e300,
        f64::MAX,
    ];
    let mut seed = 0x9e37_79b9_7f4a_7c15u64;
    for _ in 0..60 {
        seed ^= seed << 13;
        seed ^= seed >> 7;
        seed ^= seed << 17;
        let bits = seed % INFINITY;
        all.push(f64::from_bits(bits));
        // The same digits near one.
        all.push(f64::from_bits(bits % (1 << 56) + 0x3fa0_0000_0000_0000));
    }
    all
}

#[test]
fn sums_and_products_are_those_of_the_machine() {
    for a in numbers() {
        for b in numbers() {
            let (x, y) = (a.to_bits(), b.to_bits());
            assert_eq!(sum(x, y), (a + b).to_bits(), "{a} + {b}");
            assert_eq!(distance(x, y), (a - b).abs().to_bits(), "{a} - {b}");
            assert_eq!(product(x, y), (a * b).to_bits(), "{a} * {b}");
        }
    }
}

#[test]
fn whole_factors_are_those_of_the_machine() {
    for a in numbers() {
        for k in [1u64, 2, 3, 10, 100, 1920, 1_000_000, 1_048_576] {
            assert_eq!(times_whole(a.to_bits(), k), (a * k as f64).to_bits(), "{a} * {k}");
            assert_eq!(over_whole(a.to_bits(), k), (a / k as f64).to_bits(), "{a} / {k}");
        }
        if a < 9e15 {
            assert_eq!(round_whole(a.to_bits()), a.round() as u64, "{a}");
        }
    }
    assert_eq!(round_whole(2.5f64.to_bits()), 3);
    assert_eq!(round_whole(0.49999999999999994f64.to_bits()), 0);
}

#[test]
fn signs_and_ends_are_told() {
    let negative = Binary64 { bits: (-2.5f64).to_bits() };
    assert!(negative.is_negative() && negative.is_finite());
    assert_eq!(negative.absolute(), 2.5f64.to_bits());
    assert!(!Binary64 { bits: f64::INFINITY.to_bits() }.is_finite());
    assert!(!Binary64 { bits: f64::NAN.to_bits() }.is_finite());
}
