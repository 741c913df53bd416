# stores

The verified core of a microservice that manages store profiles, their
catalogue categories, product attributes and discount coupons.

- `src/` is the library, written in Verus: every function carries a
  contract that Verus proves, and the laws of the library (what the access
  table grants, how the category tree is pruned, what the counters of a
  store give back after an add and a delete, what the roles cache hands
  out after a write) are stated as proof functions.
- `tests/` runs the library on concrete values.
- `app/` is the plain-Rust edge: the JSON forms of the library's types,
  parsing of JSON fields into the library's inputs, the `validator` error
  type and the checks on floating-point prices.

Modules of the library:

| module | contents |
|---|---|
| `acl` | the permission table of each role, the policies for users and visitors, the checks |
| `roles_cache` | roles of users cached by user id |
| `categories` | the category tree: building it from rows, searches, prunings, attributes of leaves |
| `product_categories` | per-store counters of products in each category |
| `base_products` | base products with their variants after a read: search order, matched variants, discount pairs, attribute rows per variant, the vendor code check decision |
| `cart` | the products of a cart grouped by store and base product |
| `product_attributes` | uniqueness of a variant's attribute values, custom attribute list changes |
| `coupons` | whether a user may activate a coupon, fresh coupon codes |
| `validation_rules` | field validators (phone, slug, language, coupon code, translated texts) |
| `status`, `translation`, `visibility` | the enums of the service and their text codes |
| `catalogue` | the catalogue reader over a database connection |
