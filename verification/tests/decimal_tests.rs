use payment_hub::decimal::{DecimalError, EDs};

fn mag(d: &EDs) -> u64 {
    d.magnitude_u64().unwrap()
}

#[test]
fn add_and_sub_exact() {
    let a = EDs::from_u64(150, 2);
    let b = EDs::from_u64(25, 2);
    let sum = a.add(&b).unwrap();
    assert_eq!(mag(&sum), 175);
    assert_eq!(sum.decimals, 2);
    let diff = sum.sub(&b).unwrap();
    assert_eq!(mag(&diff), 150);
}

#[test]
fn add_sub_round_trip_returns_original() {
    // (a + b) - b == a, exactly.
    let a = EDs::from_u64(123_456_789, 8);
    let b = EDs::from_u64(987_654_321, 8);
    let r = a.add(&b).unwrap().sub(&b).unwrap();
    assert!(r.eq_val(&a));
}

#[test]
fn mul_truncates_to_scale() {
    // 1.50 * 0.25 = 0.375, truncated to 0.37 at two decimals.
    let a = EDs::from_u64(150, 2);
    let b = EDs::from_u64(25, 2);
    let p = a.mul(&b).unwrap();
    assert_eq!(mag(&p), 37);
}

#[test]
fn div_widens_before_dividing() {
    // 1.00 / 0.30 = 3.33 at two decimals.
    let a = EDs::from_u64(100, 2);
    let b = EDs::from_u64(30, 2);
    let q = a.div(&b).unwrap();
    assert_eq!(mag(&q), 333);
}

#[test]
fn mul_div_round_trip_within_one_unit() {
    // (a * b) / b returns a up to truncation of the last unit when b >= 1.
    let a = EDs::from_u64(123_456_7, 4);
    let b = EDs::from_u64(3_0000, 4);
    let r = a.mul(&b).unwrap().div(&b).unwrap();
    let m = mag(&r);
    assert!(m <= 123_456_7);
    assert!(123_456_7 - m <= 1);
}

#[test]
fn mismatched_scales_are_rejected() {
    let a = EDs::from_u64(1, 2);
    let b = EDs::from_u64(1, 3);
    assert_eq!(a.add(&b).unwrap_err(), DecimalError::IncompatibleScale);
    assert_eq!(a.sub(&b).unwrap_err(), DecimalError::IncompatibleScale);
    assert_eq!(a.mul(&b).unwrap_err(), DecimalError::IncompatibleScale);
    assert_eq!(a.div(&b).unwrap_err(), DecimalError::IncompatibleScale);
}

#[test]
fn scale_above_thirty_one_is_rejected() {
    let r = EDs::new(num_bigint::BigUint::from(5u64), 32);
    assert_eq!(r.unwrap_err(), DecimalError::InvalidScale);
    let a = EDs::from_u64(5, 0);
    assert_eq!(a.to_decimals(32).unwrap_err(), DecimalError::InvalidScale);
}

#[test]
fn rescale_widens_exactly_and_narrows_by_truncation() {
    let a = EDs::from_u64(123, 2);
    let wide = a.to_decimals(5).unwrap();
    assert_eq!(mag(&wide), 123_000);
    let back = wide.to_decimals(2).unwrap();
    assert_eq!(mag(&back), 123);
    // Narrowing first loses the dropped digits for good.
    let b = EDs::from_u64(129, 2);
    let narrow = b.to_decimals(1).unwrap();
    assert_eq!(mag(&narrow), 12);
    let again = narrow.to_decimals(2).unwrap();
    assert_eq!(mag(&again), 120);
    assert!(mag(&again) <= 129);
}

#[test]
fn sqrt_drops_the_fraction_first() {
    // sqrt(9.61) with the whole part only: sqrt(9) = 3.
    let a = EDs::from_u64(961, 2);
    let r = a.sqrt();
    assert_eq!(mag(&r), 300);
}

#[test]
fn fraction_constructors() {
    assert_eq!(mag(&EDs::zero(4)), 0);
    assert_eq!(mag(&EDs::one(4)), 10_000);
    assert_eq!(mag(&EDs::two(4)), 20_000);
    assert_eq!(mag(&EDs::f0_1(4)), 1_000);
    assert_eq!(mag(&EDs::f0_2(4)), 2_000);
    assert_eq!(mag(&EDs::f0_25(4)), 2_500);
    assert_eq!(mag(&EDs::f0_3(4)), 3_000);
    assert_eq!(mag(&EDs::f0_33(4)), 3_333);
    assert_eq!(mag(&EDs::f0_4(4)), 4_000);
    assert_eq!(mag(&EDs::f0_5(4)), 5_000);
    assert_eq!(mag(&EDs::f0_6(4)), 6_000);
    assert_eq!(mag(&EDs::f0_67(4)), 6_666);
    assert_eq!(mag(&EDs::f0_7(4)), 7_000);
    assert_eq!(mag(&EDs::f0_75(4)), 7_500);
    assert_eq!(mag(&EDs::f0_8(4)), 8_000);
    assert_eq!(mag(&EDs::f0_9(4)), 9_000);
}

#[test]
fn magnitude_too_big_for_u64_reports_none() {
    let huge = num_bigint::BigUint::from(u64::MAX) + num_bigint::BigUint::from(1u64);
    let d = EDs::new(huge, 0).unwrap();
    assert!(d.magnitude_u64().is_none());
}
