//! Verified core of the stores service: status and language codecs, field
//! validation rules, the access-control table, the category tree, the
//! per-store product category counters and coupon validation.

pub mod text;
pub mod status;
pub mod errors;
pub mod translation;
pub mod visibility;
pub mod types;
pub mod acl;
pub mod categories;
pub mod product_categories;
pub mod validation_rules;
pub mod coupons;
pub mod catalogue;
pub mod roles_cache;
pub mod product_attributes;
pub mod base_products;
pub mod cart;
