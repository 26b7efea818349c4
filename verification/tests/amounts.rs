//! Checked fixed-point amount arithmetic: boundary constructions fail
//! cleanly, and subtraction never wraps.

use token_ledger::{AmountError, TOKENs, USDTs, TOKEN_SUBDIVIDABLE_BY, USDT_SUBDIVIDABLE_BY};

#[test]
fn new_rejects_too_many_whole_tokens() {
    // u64::MAX / 10^17 == 184, so 185 whole tokens overflow
    assert_eq!(TOKENs::new(185, 0), Err(AmountError::Overflow));
    assert!(TOKENs::new(184, 0).is_ok());
}

#[test]
fn new_rejects_subunits_at_the_base() {
    assert_eq!(TOKENs::new(1, TOKEN_SUBDIVIDABLE_BY), Err(AmountError::TooManySubunits));
    assert!(TOKENs::new(1, TOKEN_SUBDIVIDABLE_BY - 1).is_ok());
}

#[test]
fn new_rejects_combined_overflow() {
    // 184 * 10^17 + 46_744_073_709_551_615 is exactly u64::MAX
    let max = TOKENs::new(184, 46_744_073_709_551_615).unwrap();
    assert_eq!(max.get_e8s(), u64::MAX);
    assert_eq!(TOKENs::new(184, 46_744_073_709_551_616), Err(AmountError::Overflow));
}

#[test]
fn max_minus_max_is_zero() {
    let r = TOKENs::max_value().checked_sub(TOKENs::max_value()).unwrap();
    assert_eq!(r, TOKENs::zero());
}

#[test]
fn zero_minus_one_subunit_fails() {
    assert_eq!(
        TOKENs::zero().checked_sub(TOKENs::from_e8s(1)),
        Err(AmountError::Underflow)
    );
}

#[test]
fn addition_overflow_fails() {
    assert_eq!(
        TOKENs::max_value().checked_add(TOKENs::from_e8s(1)),
        Err(AmountError::Overflow)
    );
    let sum = TOKENs::from_e8s(2).checked_add(TOKENs::from_e8s(3)).unwrap();
    assert_eq!(sum.get_e8s(), 5);
}

#[test]
fn unpack_splits_whole_and_remainder() {
    let t = TOKENs::new(3, 5).unwrap();
    assert_eq!(t.get_tokens(), 3);
    assert_eq!(t.get_remainder_e8s(), 5);
    assert_eq!(t.unpack(), (3, 5));
    assert_eq!(t.get_e8s(), 3 * TOKEN_SUBDIVIDABLE_BY + 5);
}

#[test]
fn default_amount_is_zero() {
    assert_eq!(TOKENs::default(), TOKENs::zero());
}

#[test]
fn usdt_mirrors_token_arithmetic() {
    assert_eq!(USDTs::new(185, 0), Err(AmountError::Overflow));
    assert_eq!(USDTs::new(1, USDT_SUBDIVIDABLE_BY), Err(AmountError::TooManySubunits));
    let r = USDTs::max_value().checked_sub(USDTs::max_value()).unwrap();
    assert_eq!(r, USDTs::zero());
    assert_eq!(
        USDTs::zero().checked_sub(USDTs::from_e8s(1)),
        Err(AmountError::Underflow)
    );
    let t = USDTs::new(2, 7).unwrap();
    assert_eq!(t.unpack(), (2, 7));
    assert_eq!(USDTs::from_usdts(2).unwrap().get_usdts(), 2);
}
