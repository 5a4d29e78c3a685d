use orca_pools::binary64::Binary64;

fn native(numerator: u64, denominator: u64, factor: u16) -> f64 {
    (numerator as f64 / denominator as f64) * factor as f64
}

fn value(x: Binary64) -> f64 {
    match x {
        Binary64::Finite { mantissa, exponent } => mantissa as f64 * 2f64.powi(exponent),
        Binary64::Infinity => f64::INFINITY,
        Binary64::NotANumber => f64::NAN,
    }
}

fn agrees(numerator: u64, denominator: u64, factor: u16) {
    let ours = Binary64::from_ratio(numerator, denominator, factor);
    let theirs = native(numerator, denominator, factor);
    assert_eq!(value(ours).to_bits(), theirs.to_bits(), "{} / {}", numerator, denominator);
    assert_eq!(ours.to_u128(), theirs as u128, "{} / {}", numerator, denominator);
    assert_eq!(ours.to_u64(), theirs as u64, "{} / {}", numerator, denominator);
}

#[test]
fn ratios_agree_with_the_machine_at_the_edges() {
    let edges: Vec<u64> = vec![
        0,
        1,
        2,
        3,
        7,
        25,
        9999,
        10000,
        (1 << 52) - 1,
        1 << 52,
        (1 << 52) + 1,
        (1 << 53) - 1,
        1 << 53,
        (1 << 53) + 1,
        (1 << 53) + 2,
        (1 << 53) + 3,
        (1 << 54) + 2,
        (1 << 54) + 6,
        (1 << 63) - 1,
        1 << 63,
        (1 << 63) + 1024,
        (1 << 63) + 3072,
        u64::MAX - 2048,
        u64::MAX - 1024,
        u64::MAX - 1023,
        u64::MAX - 1,
        u64::MAX,
    ];
    for &n in edges.iter() {
        for &d in edges.iter() {
            if d != 0 {
                agrees(n, d, 10000);
                agrees(n, d, 100);
                agrees(n, d, 1);
            }
        }
    }
}

#[test]
fn ratios_agree_with_the_machine_at_random() {
    let mut state: u64 = 0x9E37_79B9_7F4A_7C15;
    let mut next = || {
        state ^= state << 13;
        state ^= state >> 7;
        state ^= state << 17;
        state
    };
    for _ in 0..20000 {
        let n = next() >> (next() % 64);
        let d = (next() >> (next() % 64)).max(1);
        agrees(n, d, 10000);
        agrees(n, d, 100);
    }
}

#[test]
fn small_fees_agree_with_the_machine() {
    for n in 0..2000 {
        agrees(n, 10000, 10000);
        agrees(n, 1000, 10000);
    }
}

#[test]
fn a_third_in_basis_points() {
    let third = Binary64::from_ratio(1, 3, 10000);
    assert_eq!(third, Binary64::Finite { mantissa: 7330077518506666, exponent: -41 });
    assert_eq!(third.to_u128(), 3333);
}

#[test]
fn rounding_may_lose_a_basis_point() {
    assert_eq!(Binary64::from_ratio(25, 10000, 10000).to_u64(), 25);
    assert_eq!(Binary64::from_ratio(3, 10000, 10000).to_u64(), 2);
    assert_eq!(Binary64::from_ratio(29, 10000, 10000).to_u64(), 28);
}

#[test]
fn a_large_rate_fills_the_short_integer() {
    let rate = Binary64::from_ratio(u64::MAX, 1, 10000);
    assert_eq!(rate.to_u128(), 184467440737095516160000);
    assert_eq!(rate.to_u64(), u64::MAX);
}

#[test]
fn division_by_zero() {
    let infinite = Binary64::from_ratio(5, 0, 10000);
    assert_eq!(infinite, Binary64::Infinity);
    assert_eq!(infinite.to_u128(), u128::MAX);
    assert_eq!(infinite.to_u64(), u64::MAX);
    let nothing = Binary64::from_ratio(0, 0, 10000);
    assert_eq!(nothing, Binary64::NotANumber);
    assert_eq!(nothing.to_u128(), 0);
    assert_eq!(nothing.to_u64(), 0);
}

#[test]
fn a_proper_fraction_stays_within_the_whole() {
    for d in 1..300u64 {
        for n in 0..=d {
            assert!(Binary64::from_ratio(n, d, 10000).to_u128() <= 10000);
        }
    }
    assert_eq!(Binary64::from_ratio(u64::MAX - 1, u64::MAX, 10000).to_u128(), 10000);
}
