//! Identifiers of the service's entities.
use vstd::prelude::*;

verus! {

/// Identifier of a user.
#[derive(Debug, PartialEq, Eq, Structural, Clone, Copy, Hash)]
pub struct UserId(pub i32);

/// Identifier of a store.
#[derive(Debug, PartialEq, Eq, Structural, Clone, Copy, Hash)]
pub struct StoreId(pub i32);

/// Identifier of a category.
#[derive(Debug, PartialEq, Eq, Structural, Clone, Copy, Hash)]
pub struct CategoryId(pub i32);

/// Identifier of an attribute.
#[derive(Debug, PartialEq, Eq, Structural, Clone, Copy, Hash)]
pub struct AttributeId(pub i32);

/// Identifier of a base product (the listing that variants belong to).
#[derive(Debug, PartialEq, Eq, Structural, Clone, Copy, Hash)]
pub struct BaseProductId(pub i32);

/// Identifier of a product (a variant of a base product).
#[derive(Debug, PartialEq, Eq, Structural, Clone, Copy, Hash)]
pub struct ProductId(pub i32);

/// Identifier of a coupon.
#[derive(Debug, PartialEq, Eq, Structural, Clone, Copy, Hash)]
pub struct CouponId(pub i32);

/// Moderation state of a store or a base product.
#[derive(Debug, PartialEq, Eq, Structural, Clone, Copy, Hash)]
pub enum ModerationStatus {
    Draft,
    Moderation,
    Decline,
    Blocked,
    Published,
}

/// A role a user holds in the stores service.
#[derive(Debug, PartialEq, Eq, Structural, Clone, Copy, Hash)]
pub enum StoresRole {
    Superuser,
    User,
    Moderator,
    PlatformAdmin,
}

impl StoreId {
    /// The number of the id.
    pub open spec fn num(self) -> i32 {
        self.0
    }
}

impl BaseProductId {
    /// The number of the id.
    pub open spec fn num(self) -> i32 {
        self.0
    }
}

} // verus!
