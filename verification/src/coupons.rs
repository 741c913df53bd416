//! Coupons: whether a user may activate one, and fresh coupon codes.
use vstd::prelude::*;

use crate::types::{CouponId, StoreId, UserId};
use crate::validation_rules::{is_ascii_alnum, is_ascii_alnum_text, CouponCode, MAX_LENGTH_CODE, MIN_LENGTH_CODE};

verus! {

/// What a coupon's discount applies to.
#[derive(Debug, PartialEq, Eq, Structural, Clone, Copy)]
pub enum CouponScope {
    BaseProducts,
    Categories,
}

/// A store's discount coupon. Times are nanoseconds since the Unix epoch
/// (negative before it).
#[derive(Debug, PartialEq, Eq)]
pub struct Coupon {
    pub id: CouponId,
    pub code: CouponCode,
    pub title: String,
    pub store_id: StoreId,
    pub scope: CouponScope,
    pub percent: i32,
    /// How many users may activate the coupon; [`INFINITE`] for no limit.
    pub quantity: i32,
    pub expired_at: Option<i128>,
    pub is_active: bool,
    pub created_at: i128,
    pub updated_at: i128,
}

/// The quantity of a coupon that any number of users may activate.
pub const INFINITE: i32 = -1;

/// Length of a generated coupon code.
pub const MIN_GENERATE_LENGTH_CODE: usize = 8;

/// A user's activation of a coupon.
#[derive(Debug, PartialEq, Eq, Structural, Clone, Copy)]
pub struct UsedCoupon {
    pub coupon_id: CouponId,
    pub user_id: UserId,
}

/// Outcome of checking whether a user may activate a coupon.
#[derive(Debug, PartialEq, Eq, Structural, Clone, Copy)]
pub enum CouponValidate {
    NotActive,
    HasExpired,
    NoActivationsAvailable,
    AlreadyActivated,
    Valid,
}

/// Whether `user_id` has activated the coupon already.
pub open spec fn used_by(used_coupons: Seq<UsedCoupon>, user_id: UserId) -> bool {
    exists|i: int| 0 <= i < used_coupons.len() && (#[trigger] used_coupons[i]).user_id == user_id
}

/// The verdict on activating `coupon` for `user_id` at time `now`, given the
/// coupon's earlier activations: first whether it is active, then whether it
/// has expired, then whether the user used it already, then whether
/// activations are left.
pub open spec fn coupon_verdict(coupon: Coupon, user_id: UserId, used_coupons: Seq<UsedCoupon>, now: i128) -> CouponValidate {
    if !coupon.is_active {
        CouponValidate::NotActive
    } else if coupon.expired_at matches Some(expired_at) && expired_at < now {
        CouponValidate::HasExpired
    } else if used_by(used_coupons, user_id) {
        CouponValidate::AlreadyActivated
    } else if coupon.quantity == INFINITE {
        CouponValidate::Valid
    } else if coupon.quantity < 0 {
        CouponValidate::NoActivationsAvailable
    } else if used_coupons.len() >= coupon.quantity {
        CouponValidate::NoActivationsAvailable
    } else {
        CouponValidate::Valid
    }
}

/// Checks, at time `now`, whether `user_id` may activate `coupon`.
pub fn validate_coupon_at(coupon: Coupon, user_id: UserId, used_coupons: Vec<UsedCoupon>, now: i128) -> (r:
    CouponValidate)
    ensures
        r == coupon_verdict(coupon, user_id, used_coupons@, now),
{
    if !coupon.is_active {
        return CouponValidate::NotActive;
    }
    if let Some(expired_at) = coupon.expired_at {
        if expired_at < now {
            return CouponValidate::HasExpired;
        }
    }
    let n = used_coupons.len();
    let mut i: usize = 0;
    while i < n
        invariant
            n == used_coupons@.len(),
            i <= n,
            coupon.is_active,
            coupon.expired_at is Some ==> now <= coupon.expired_at->0,
            forall|j: int| 0 <= j < i ==> (#[trigger] used_coupons@[j]).user_id != user_id,
        decreases n - i,
    {
        if used_coupons[i].user_id == user_id {
            assert(used_coupons@[i as int].user_id == user_id);
            return CouponValidate::AlreadyActivated;
        }
        i = i + 1;
    }
    if coupon.quantity == INFINITE {
        return CouponValidate::Valid;
    }
    if coupon.quantity < 0 {
        return CouponValidate::NoActivationsAvailable;
    }
    if used_coupons.len() >= coupon.quantity as usize {
        CouponValidate::NoActivationsAvailable
    } else {
        CouponValidate::Valid
    }
}

/// The current time read by `std::time::SystemTime::now`, measured against
/// the Unix epoch with `SystemTime::duration_since`: `Ok` with the
/// nanoseconds since the epoch, or `Err` with the nanoseconds before it for
/// a clock set earlier. Nothing is stated of the value: it depends on the
/// machine's clock.
#[verifier::external_body]
fn clock_reading() -> (r: Result<u128, u128>) {
    match std::time::SystemTime::now().duration_since(std::time::UNIX_EPOCH) {
        Ok(d) => Ok(d.as_nanos()),
        Err(e) => Err(e.duration().as_nanos()),
    }
}

/// The signed nanoseconds since the Unix epoch of a clock reading (negative
/// before the epoch), held within `i128`.
pub fn instant_of_reading(reading: Result<u128, u128>) -> (t: i128)
    ensures
        match reading {
            Ok(n) => t == if n <= i128::MAX { n as int } else { i128::MAX as int },
            Err(n) => t == if n <= i128::MAX { -n } else { -i128::MAX },
        },
{
    match reading {
        Ok(n) => if n <= i128::MAX as u128 {
            n as i128
        } else {
            i128::MAX
        },
        Err(n) => if n <= i128::MAX as u128 {
            -(n as i128)
        } else {
            -i128::MAX
        },
    }
}

/// Checks, at the current time, whether `user_id` may activate `coupon`.
/// The clock is read only for a coupon with an expiry time.
pub fn validate_coupon(coupon: Coupon, user_id: UserId, used_coupons: Vec<UsedCoupon>) -> (r: CouponValidate)
    ensures
        exists|now: i128| r == coupon_verdict(coupon, user_id, used_coupons@, now),
        coupon.expired_at is None ==> r == coupon_verdict(coupon, user_id, used_coupons@, 0),
{
    let now = match coupon.expired_at {
        Some(_) => instant_of_reading(clock_reading()),
        None => 0,
    };
    let ghost c = coupon;
    let ghost u = used_coupons@;
    let r = validate_coupon_at(coupon, user_id, used_coupons, now);
    assert(r == coupon_verdict(c, user_id, u, now));
    r
}

/// An upper-case hexadecimal digit.
pub open spec fn is_upper_hex(c: char) -> bool {
    ('0' <= c && c <= '9') || ('A' <= c && c <= 'F')
}

/// A fresh random (version 4) UUID from `uuid::Uuid::new_v4`, written in
/// its simple form with upper-case digits (`Simple`'s `UpperHex`
/// formatting): 32 characters, each an upper-case hexadecimal digit. Which
/// digits come out is left open: they are random.
#[verifier::external_body]
fn new_uuid_upper_hex() -> (s: String)
    ensures
        s@.len() == 32,
        forall|i: int| 0 <= i < s@.len() ==> is_upper_hex(#[trigger] s@[i]),
{
    format!("{:X}", uuid::Uuid::new_v4().simple())
}

/// The coupon code taken from a UUID text: its first
/// [`MIN_GENERATE_LENGTH_CODE`] characters (all of it when shorter).
pub fn code_from_uuid(uuid: &str) -> (code: String)
    ensures
        code@ == uuid@.take(if uuid@.len() < MIN_GENERATE_LENGTH_CODE { uuid@.len() as int } else {
            MIN_GENERATE_LENGTH_CODE as int
        }),
{
    let n = uuid.unicode_len();
    let k = if n < MIN_GENERATE_LENGTH_CODE {
        n
    } else {
        MIN_GENERATE_LENGTH_CODE
    };
    let prefix = uuid.substring_char(0, k);
    assert(prefix@ =~= uuid@.take(k as int));
    prefix.to_owned()
}

/// A fresh coupon code: the first [`MIN_GENERATE_LENGTH_CODE`] characters of
/// a random UUID in upper-case hexadecimal.
pub fn generate_coupon_code() -> (code: String)
    ensures
        code@.len() == MIN_GENERATE_LENGTH_CODE,
        forall|i: int| 0 <= i < code@.len() ==> is_upper_hex(#[trigger] code@[i]),
{
    let uuid = new_uuid_upper_hex();
    let code = code_from_uuid(uuid.as_str());
    assert forall|i: int| 0 <= i < code@.len() implies is_upper_hex(#[trigger] code@[i]) by {
        assert(code@[i] == uuid@[i]);
    }
    code
}

/// A code that [`generate_coupon_code`] hands out passes
/// [`crate::validation_rules::validate_coupon_code`]: eight upper-case hexadecimal digits lie within
/// the allowed length and are ASCII letters and digits.
pub proof fn lemma_generated_code_is_valid(code: Seq<char>)
    requires
        code.len() == MIN_GENERATE_LENGTH_CODE,
        forall|i: int| 0 <= i < code.len() ==> is_upper_hex(#[trigger] code[i]),
    ensures
        MIN_LENGTH_CODE <= code.len() <= MAX_LENGTH_CODE,
        is_ascii_alnum_text(code),
{
    assert forall|i: int| 0 <= i < code.len() implies is_ascii_alnum(#[trigger] code[i]) by {
        assert(is_upper_hex(code[i]));
    }
}

/// A user who has activated a coupon is never cleared to activate it again.
pub proof fn lemma_no_second_activation(coupon: Coupon, user_id: UserId, used_coupons: Seq<UsedCoupon>, now: i128)
    requires
        used_by(used_coupons, user_id),
    ensures
        coupon_verdict(coupon, user_id, used_coupons, now) != CouponValidate::Valid,
{
}

/// A coupon of unlimited quantity never runs out of activations.
pub proof fn lemma_infinite_never_runs_out(coupon: Coupon, user_id: UserId, used_coupons: Seq<UsedCoupon>, now: i128)
    requires
        coupon.quantity == INFINITE,
    ensures
        coupon_verdict(coupon, user_id, used_coupons, now) != CouponValidate::NoActivationsAvailable,
{
}

/// Once a coupon has expired it stays expired: a later check gives the same
/// verdict.
pub proof fn lemma_expiry_is_final(
    coupon: Coupon,
    user_id: UserId,
    used_coupons: Seq<UsedCoupon>,
    now: i128,
    later: i128,
)
    requires
        now <= later,
        coupon_verdict(coupon, user_id, used_coupons, now) == CouponValidate::HasExpired,
    ensures
        coupon_verdict(coupon, user_id, used_coupons, later) == CouponValidate::HasExpired,
{
}

/// A coupon that is valid for a user stays valid for them while fewer
/// earlier activations are counted: removing an activation of another user
/// cannot turn the verdict against them.
pub proof fn lemma_fewer_activations_keep_valid(
    coupon: Coupon,
    user_id: UserId,
    used_coupons: Seq<UsedCoupon>,
    now: i128,
)
    requires
        used_coupons.len() > 0,
        coupon_verdict(coupon, user_id, used_coupons, now) == CouponValidate::Valid,
    ensures
        coupon_verdict(coupon, user_id, used_coupons.drop_last(), now) == CouponValidate::Valid,
{
    if used_by(used_coupons.drop_last(), user_id) {
        let i = choose|i: int| 0 <= i < used_coupons.drop_last().len() && (#[trigger] used_coupons.drop_last()[i]).user_id == user_id;
        assert(used_coupons[i] == used_coupons.drop_last()[i]);
    }
}

/// The verdict, case by case:
/// - an inactive coupon is refused as not active;
/// - an active coupon whose expiry time lies before `now` has expired;
/// - otherwise a user who has activated it already is refused;
/// - otherwise a coupon of unlimited quantity is valid;
/// - otherwise a coupon of limited quantity `q` is valid exactly when fewer
///   than `q` users have activated it, and has no activations left when `q`
///   or more have (any negative quantity but the unlimited one leaves none).
pub proof fn lemma_coupon_verdict_cases(coupon: Coupon, user_id: UserId, used_coupons: Seq<UsedCoupon>, now: i128)
    ensures
        !coupon.is_active ==> coupon_verdict(coupon, user_id, used_coupons, now) == CouponValidate::NotActive,
        coupon.is_active && (coupon.expired_at matches Some(e) && e < now) ==> coupon_verdict(
            coupon,
            user_id,
            used_coupons,
            now,
        ) == CouponValidate::HasExpired,
        coupon.is_active && !(coupon.expired_at matches Some(e) && e < now) && (exists|i: int|
            0 <= i < used_coupons.len() && (#[trigger] used_coupons[i]).user_id == user_id) ==> coupon_verdict(
            coupon,
            user_id,
            used_coupons,
            now,
        ) == CouponValidate::AlreadyActivated,
        coupon.is_active && !(coupon.expired_at matches Some(e) && e < now) && (forall|i: int|
            0 <= i < used_coupons.len() ==> (#[trigger] used_coupons[i]).user_id != user_id) ==> {
            &&& coupon.quantity == INFINITE ==> coupon_verdict(coupon, user_id, used_coupons, now)
                == CouponValidate::Valid
            &&& coupon.quantity != INFINITE && coupon.quantity < 0 ==> coupon_verdict(
                coupon,
                user_id,
                used_coupons,
                now,
            ) == CouponValidate::NoActivationsAvailable
            &&& coupon.quantity >= 0 && used_coupons.len() < coupon.quantity ==> coupon_verdict(
                coupon,
                user_id,
                used_coupons,
                now,
            ) == CouponValidate::Valid
            &&& coupon.quantity >= 0 && used_coupons.len() >= coupon.quantity ==> coupon_verdict(
                coupon,
                user_id,
                used_coupons,
                now,
            ) == CouponValidate::NoActivationsAvailable
        },
{
}

} // verus!
