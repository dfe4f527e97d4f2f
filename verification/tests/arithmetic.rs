//! Tests of the 256-bit arithmetic: checked addition at the overflow
//! boundary, borrowing subtraction, and cross-limb comparison.

use erc6909::u256::U256;

#[test]
fn checked_add_carries_across_limbs() {
    let a = U256::new(0, u128::MAX);
    let b = U256::from_u128(1);
    let sum = a.checked_add(&b).expect("should fit");
    assert_eq!(sum, U256::new(1, 0));
}

#[test]
fn checked_add_reports_overflow() {
    let max = U256::max_value();
    assert_eq!(max.checked_add(&U256::from_u128(1)), None);
    assert_eq!(max.checked_add(&U256::zero()), Some(max));
    let high = U256::new(u128::MAX, 0);
    assert_eq!(high.checked_add(&high), None);
}

#[test]
fn sub_borrows_across_limbs() {
    let a = U256::new(1, 0);
    let b = U256::from_u128(1);
    assert_eq!(a.sub_unchecked(&b), U256::new(0, u128::MAX));

    let c = U256::new(5, 10);
    let d = U256::new(2, 3);
    assert_eq!(c.sub_unchecked(&d), U256::new(3, 7));
}

#[test]
fn comparison_orders_by_value() {
    let small = U256::new(0, u128::MAX);
    let big = U256::new(1, 0);
    assert!(small.lt(&big));
    assert!(!big.lt(&small));
    assert!(small.le(&small));
    assert!(big.le(&big));
    assert!(!big.le(&small));
}

#[test]
fn embeddings_agree() {
    assert_eq!(U256::from_usize(12), U256::from_u128(12));
    assert_eq!(U256::zero(), U256::from_u128(0));
    assert_eq!(U256::max_value(), U256::new(u128::MAX, u128::MAX));
}
