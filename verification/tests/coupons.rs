use std::time::{SystemTime, UNIX_EPOCH};

use stores::coupons::{
    code_from_uuid, generate_coupon_code, instant_of_reading, validate_coupon, validate_coupon_at, Coupon, CouponScope, CouponValidate, UsedCoupon,
    INFINITE, MIN_GENERATE_LENGTH_CODE,
};
use stores::types::{CouponId, StoreId, UserId};
use stores::validation_rules::{validate_coupon_code, CouponCode};

const MOCK_USER_ID: UserId = UserId(1);
const MOCK_COUPON_ID: CouponId = CouponId(1);
const MOCK_COUPON_CODE: &str = "CODE1234";
const MOCK_USER_ID_PLUS1: UserId = UserId(MOCK_USER_ID.0 + 1);
const MOCK_USER_ID_PLUS2: UserId = UserId(MOCK_USER_ID.0 + 2);

fn now_nanos() -> i128 {
    SystemTime::now().duration_since(UNIX_EPOCH).unwrap().as_nanos() as i128
}

fn create_test_coupon() -> Coupon {
    Coupon {
        id: MOCK_COUPON_ID,
        code: CouponCode(MOCK_COUPON_CODE.to_string()),
        title: "title".to_string(),
        store_id: StoreId(1),
        scope: CouponScope::BaseProducts,
        percent: 0,
        quantity: 0,
        expired_at: None,
        is_active: true,
        created_at: now_nanos(),
        updated_at: now_nanos(),
    }
}

fn create_used_coupons() -> Vec<UsedCoupon> {
    vec![UsedCoupon { coupon_id: MOCK_COUPON_ID, user_id: MOCK_USER_ID }]
}

#[test]
fn test_generate_coupon_code() {
    let result = generate_coupon_code();
    assert_eq!(result.len(), MIN_GENERATE_LENGTH_CODE);
}

#[test]
fn test_validate_infinity_coupon() {
    let test_coupon = create_test_coupon();
    let used_coupons = create_used_coupons();

    let mut infinity_coupon = test_coupon;
    infinity_coupon.quantity = INFINITE;
    assert_eq!(CouponValidate::Valid, validate_coupon(infinity_coupon, MOCK_USER_ID_PLUS1, used_coupons));
}

#[test]
fn test_validate_not_active_coupon() {
    let test_coupon = create_test_coupon();
    let used_coupons = create_used_coupons();

    let mut not_active_coupon = test_coupon;
    not_active_coupon.is_active = false;
    assert_eq!(CouponValidate::NotActive, validate_coupon(not_active_coupon, MOCK_USER_ID, used_coupons));
}

#[test]
fn test_validate_already_activated_coupon() {
    let test_coupon = create_test_coupon();
    let used_coupons = create_used_coupons();

    let already_activated_coupon = test_coupon;
    assert_eq!(CouponValidate::AlreadyActivated, validate_coupon(already_activated_coupon, MOCK_USER_ID, used_coupons));
}

#[test]
fn test_validate_has_expired_coupon() {
    let test_coupon = create_test_coupon();
    let used_coupons = create_used_coupons();

    let mut has_expired_coupon = test_coupon;
    has_expired_coupon.expired_at = Some(now_nanos() - 86400 * 1_000_000_000);
    assert_eq!(CouponValidate::HasExpired, validate_coupon(has_expired_coupon, MOCK_USER_ID_PLUS1, used_coupons));
}

#[test]
fn test_validate_activations_available_coupon() {
    let test_coupon = create_test_coupon();
    let mut used_coupons = create_used_coupons();
    used_coupons.clear();

    let mut activations_available_coupon = test_coupon;
    activations_available_coupon.quantity = 1;
    assert_eq!(CouponValidate::Valid, validate_coupon(activations_available_coupon, MOCK_USER_ID_PLUS1, used_coupons));
}

#[test]
fn test_validate_no_activations_available_coupon() {
    let test_coupon = create_test_coupon();
    let mut used_coupons = create_used_coupons();

    used_coupons.push(UsedCoupon { coupon_id: MOCK_COUPON_ID, user_id: MOCK_USER_ID_PLUS2 });

    assert!(used_coupons.len() == 2);

    let mut no_activations_available_coupon = test_coupon;
    no_activations_available_coupon.quantity = 1;
    assert_eq!(
        CouponValidate::NoActivationsAvailable,
        validate_coupon(no_activations_available_coupon, MOCK_USER_ID_PLUS1, used_coupons)
    );
}

#[test]
fn verdict_order_at_a_given_time() {
    // Not active comes before expiry.
    let mut c = create_test_coupon();
    c.is_active = false;
    c.expired_at = Some(10);
    assert_eq!(validate_coupon_at(c, MOCK_USER_ID, create_used_coupons(), 20), CouponValidate::NotActive);

    // Expiry comes before an earlier activation.
    let mut c = create_test_coupon();
    c.expired_at = Some(10);
    assert_eq!(validate_coupon_at(c, MOCK_USER_ID, create_used_coupons(), 11), CouponValidate::HasExpired);

    // The expiry instant itself is still valid.
    let mut c = create_test_coupon();
    c.expired_at = Some(10);
    c.quantity = INFINITE;
    assert_eq!(validate_coupon_at(c, MOCK_USER_ID_PLUS1, create_used_coupons(), 10), CouponValidate::Valid);

    // A negative quantity other than the unlimited one allows nothing.
    let mut c = create_test_coupon();
    c.quantity = -5;
    assert_eq!(validate_coupon_at(c, MOCK_USER_ID_PLUS1, vec![], 0), CouponValidate::NoActivationsAvailable);

    // Activations left.
    let mut c = create_test_coupon();
    c.quantity = 3;
    assert_eq!(validate_coupon_at(c, MOCK_USER_ID_PLUS2, create_used_coupons(), 0), CouponValidate::Valid);

    // Quantity zero.
    let c = create_test_coupon();
    assert_eq!(validate_coupon_at(c, MOCK_USER_ID_PLUS2, vec![], 0), CouponValidate::NoActivationsAvailable);
}

#[test]
fn generated_codes_are_upper_hex_and_valid() {
    for _ in 0..20 {
        let code = generate_coupon_code();
        assert_eq!(code.chars().count(), 8);
        assert!(code.chars().all(|c| c.is_ascii_digit() || ('A'..='F').contains(&c)));
        assert_eq!(validate_coupon_code(&CouponCode(code)), Ok(()));
    }
}

#[test]
fn generated_codes_differ() {
    let a = generate_coupon_code();
    let b = generate_coupon_code();
    let c = generate_coupon_code();
    assert!(a != b || b != c);
}

#[test]
fn no_second_activation_whatever_the_quantity() {
    for quantity in [INFINITE, 0, 1, 100] {
        let mut c = create_test_coupon();
        c.quantity = quantity;
        assert_eq!(validate_coupon_at(c, MOCK_USER_ID, create_used_coupons(), 0), CouponValidate::AlreadyActivated);
    }
}

#[test]
fn expiry_is_final() {
    for later in [11i128, 1_000, i128::MAX] {
        let mut c = create_test_coupon();
        c.expired_at = Some(10);
        assert_eq!(validate_coupon_at(c, MOCK_USER_ID_PLUS1, vec![], later), CouponValidate::HasExpired);
    }
}

#[test]
fn fewer_activations_keep_valid() {
    let mut c = create_test_coupon();
    c.quantity = 2;
    let used = vec![
        UsedCoupon { coupon_id: MOCK_COUPON_ID, user_id: MOCK_USER_ID },
    ];
    assert_eq!(validate_coupon_at(c, MOCK_USER_ID_PLUS1, used, 0), CouponValidate::Valid);
    let mut c = create_test_coupon();
    c.quantity = 2;
    assert_eq!(validate_coupon_at(c, MOCK_USER_ID_PLUS1, vec![], 0), CouponValidate::Valid);
}

#[test]
fn code_is_the_uuid_prefix() {
    assert_eq!(code_from_uuid("0123456789ABCDEF0123456789ABCDEF"), "01234567");
    assert_eq!(code_from_uuid("ABC"), "ABC");
    assert_eq!(code_from_uuid(""), "");
    assert_eq!(code_from_uuid("äöüßéèêëXYZ"), "äöüßéèêë");
}

#[test]
fn clock_readings_before_and_after_the_epoch() {
    assert_eq!(instant_of_reading(Ok(5)), 5);
    assert_eq!(instant_of_reading(Err(5)), -5);
    assert_eq!(instant_of_reading(Ok(0)), 0);
    assert_eq!(instant_of_reading(Ok(u128::MAX)), i128::MAX);
    assert_eq!(instant_of_reading(Err(u128::MAX)), -i128::MAX);
}

#[test]
fn expiry_before_the_epoch() {
    let mut c = create_test_coupon();
    c.expired_at = Some(-10);
    assert_eq!(validate_coupon_at(c, MOCK_USER_ID_PLUS1, vec![], -20), CouponValidate::NoActivationsAvailable);
    let mut c = create_test_coupon();
    c.expired_at = Some(-10);
    assert_eq!(validate_coupon_at(c, MOCK_USER_ID_PLUS1, vec![], -5), CouponValidate::HasExpired);
    let mut c = create_test_coupon();
    c.expired_at = Some(-10);
    assert_eq!(validate_coupon(c, MOCK_USER_ID_PLUS1, vec![]), CouponValidate::HasExpired);
}
