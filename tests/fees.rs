use rococo_fees::currency::{deposit, Balance, CENTS, DOLLARS, MILLICENTS, ROC, UNITS_PER_ROC};
use rococo_fees::fee::{
    ConfigError, FeePolynomial, PolynomialTerm, RationalCoefficient, WeightToFee, BALANCE_MAX,
    EXTRINSIC_BASE_FEE, EXTRINSIC_BASE_WEIGHT, MAXIMUM_BLOCK_WEIGHT, TARGET_BLOCK_FULLNESS,
};
use rococo_fees::time::{blocks_in_millis, DAYS, EPOCH_DURATION_IN_BLOCKS, HOURS, MINUTES, SLOT_DURATION};

fn term(degree: u8, integer: Balance, fraction: u32, negative: bool) -> PolynomialTerm {
    PolynomialTerm { degree, coefficient: RationalCoefficient { integer, fraction, negative } }
}

fn poly(terms: Vec<PolynomialTerm>) -> FeePolynomial {
    FeePolynomial::new(terms).unwrap()
}

#[test]
// This function tests that the fee for `MaximumBlockWeight` of weight is correct
fn full_block_fee_is_correct() {
    // A full block should cost 16 DOLLARS
    println!("Base: {}", EXTRINSIC_BASE_WEIGHT);
    let x = WeightToFee::calc(&MAXIMUM_BLOCK_WEIGHT);
    let y = 16 * DOLLARS;
    assert!(x.max(y) - x.min(y) < MILLICENTS);
}

#[test]
// This function tests that the fee for `ExtrinsicBaseWeight` of weight is correct
fn extrinsic_base_fee_is_correct() {
    // `ExtrinsicBaseWeight` should cost 1/10 of a CENT
    let base_weight = EXTRINSIC_BASE_WEIGHT;
    println!("Base: {}", base_weight);
    let x = WeightToFee::calc(&base_weight);
    let y = CENTS / 10;
    assert!(x.max(y) - x.min(y) < MILLICENTS);
}

#[test]
fn currency_units() {
    assert_eq!(ROC, 1_000_000_000_000);
    assert_eq!(UNITS_PER_ROC, ROC);
    assert_eq!(MILLICENTS, 10_000_000);
    assert_eq!(CENTS, 10_000_000_000);
    assert_eq!(DOLLARS, 1_000_000_000_000);
    assert_eq!(EXTRINSIC_BASE_FEE, 1_000_000_000);
    assert_eq!(TARGET_BLOCK_FULLNESS, 250_000_000);
}

#[test]
fn deposit_values() {
    assert_eq!(deposit(0, 0), 0);
    assert_eq!(deposit(1, 0), 20 * DOLLARS);
    assert_eq!(deposit(0, 1), 100 * MILLICENTS);
    assert_eq!(deposit(2, 10), 40 * DOLLARS + 1000 * MILLICENTS);
    assert_eq!(
        deposit(u32::MAX, u32::MAX),
        u32::MAX as Balance * 20 * DOLLARS + u32::MAX as Balance * 100 * MILLICENTS
    );
}

#[test]
fn deposit_is_additive() {
    let (a, b, c, d) = (3u32, 70u32, 5u32, 1_000u32);
    assert_eq!(deposit(a + c, b + d), deposit(a, b) + deposit(c, d));
}

#[test]
fn time_units() {
    assert_eq!(SLOT_DURATION, 6000);
    assert_eq!(MINUTES, 10);
    assert_eq!(HOURS, 600);
    assert_eq!(DAYS, 14_400);
    assert_eq!(EPOCH_DURATION_IN_BLOCKS, 100);
    assert_eq!(blocks_in_millis(60_000) as u32, MINUTES);
    assert_eq!(blocks_in_millis(5_999), 0);
}

#[test]
fn network_polynomial_is_linear() {
    let p = WeightToFee::polynomial();
    assert_eq!(p.terms(), &[term(1, 8, 0, false)][..]);
    assert_eq!(WeightToFee::calc(&0), 0);
    assert_eq!(WeightToFee::calc(&EXTRINSIC_BASE_WEIGHT), CENTS / 10);
    assert_eq!(WeightToFee::calc(&MAXIMUM_BLOCK_WEIGHT), 16 * DOLLARS);
}

#[test]
fn empty_polynomial_is_refused() {
    assert_eq!(FeePolynomial::new(vec![]).err(), Some(ConfigError::EmptyPolynomial));
}

#[test]
fn improper_fraction_is_refused() {
    let r = FeePolynomial::new(vec![term(1, 1, 0, false), term(0, 0, 1_000_000_000, false)]);
    assert_eq!(r.err(), Some(ConfigError::FractionOutOfRange));
    let ok = FeePolynomial::new(vec![term(0, 0, 999_999_999, false)]);
    assert!(ok.is_ok());
}

#[test]
fn zero_reference_weight_is_refused() {
    assert_eq!(
        FeePolynomial::linear_from_reference(0, 1_000).err(),
        Some(ConfigError::ZeroReferenceWeight)
    );
}

#[test]
fn reference_fraction_rounds_down() {
    let p = FeePolynomial::linear_from_reference(3, 7).unwrap();
    assert_eq!(p.terms(), &[term(1, 2, 333_333_333, false)][..]);
    // 3 * 2 + floor(3 * 0.333333333) = 6 + 0
    assert_eq!(p.calc(3), 6);
    assert_eq!(p.calc(3_000_000_000), 6_999_999_999);
}

#[test]
fn reference_point_accuracy() {
    let b = 125_000_000u64;
    let f = 123_456_789_012u128;
    let p = FeePolynomial::linear_from_reference(b, f).unwrap();
    let x = p.calc(b);
    assert!(x <= f);
    assert!((f - x) * 1_000_000_000 < b as u128 + 1_000_000_000);
}

#[test]
fn degree_zero_at_weight_zero() {
    let p = poly(vec![term(0, 5, 500_000_000, false), term(1, 100, 0, false), term(2, 1, 0, false)]);
    assert_eq!(p.calc(0), 5);
    assert_eq!(p.calc(2), 5 + 200 + 4);
}

#[test]
fn fractional_part_floors() {
    let p = poly(vec![term(1, 0, 500_000_000, false)]);
    assert_eq!(p.calc(1), 0);
    assert_eq!(p.calc(3), 1);
    assert_eq!(p.calc(4), 2);
}

#[test]
fn negative_terms_are_subtracted() {
    let p = poly(vec![term(1, 10, 0, false), term(0, 15, 0, true)]);
    assert_eq!(p.calc(2), 5);
    assert_eq!(p.calc(1), 0);
    // order does not matter: a negative term first does not stick at zero
    let q = poly(vec![term(0, 15, 0, true), term(1, 10, 0, false)]);
    assert_eq!(q.calc(2), 5);
}

#[test]
fn all_negative_is_zero() {
    let p = poly(vec![term(1, 3, 0, true), term(2, 1, 250_000_000, true)]);
    assert_eq!(p.calc(0), 0);
    assert_eq!(p.calc(1_000), 0);
    assert_eq!(p.calc(u64::MAX), 0);
}

#[test]
fn saturates_at_balance_max() {
    let p = poly(vec![term(3, BALANCE_MAX, 999_999_999, false)]);
    assert_eq!(p.calc(u64::MAX), u128::MAX);
    let q = poly(vec![term(1, BALANCE_MAX, 0, false), term(1, BALANCE_MAX, 0, false)]);
    assert_eq!(q.calc(1), u128::MAX);
    // two saturated terms minus one saturated term still leave the maximum
    let r = poly(vec![
        term(1, BALANCE_MAX, 0, false),
        term(1, BALANCE_MAX, 0, false),
        term(1, BALANCE_MAX, 0, true),
    ]);
    assert_eq!(r.calc(1), u128::MAX);
}

#[test]
fn large_power_fraction_is_exact() {
    // (2^64 - 1)^2 with a half coefficient: floor((2^128 - 2^65 + 1) / 2)
    let p = poly(vec![term(2, 0, 500_000_000, false)]);
    let w = u64::MAX as u128;
    assert_eq!(p.calc(u64::MAX), w * w / 2);
}

#[test]
fn single_term_is_monotone() {
    let p = poly(vec![term(2, 3, 700_000_000, false)]);
    let mut last = 0u128;
    for w in [0u64, 1, 2, 10, 1_000, 1_000_000, u32::MAX as u64, u64::MAX] {
        let x = p.calc(w);
        assert!(x >= last);
        last = x;
    }
}

#[test]
fn evaluation_is_deterministic() {
    let p = poly(vec![term(1, 7, 123_456_789, false), term(2, 0, 1, true)]);
    let q = poly(vec![term(1, 7, 123_456_789, false), term(2, 0, 1, true)]);
    assert_eq!(p.calc(98_765), p.calc(98_765));
    assert_eq!(p.calc(98_765), q.calc(98_765));
}
