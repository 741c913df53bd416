//! The attribute values of a base product's variants: whether a new
//! variant's values are already taken, and how the base product's custom
//! attribute list follows a change of attributes.
use vstd::prelude::*;

use crate::errors::FieldError;
use crate::text::str_equals;
use crate::types::{AttributeId, ProductId};

verus! {

/// A stored attribute value of one variant.
#[derive(Debug, PartialEq, Eq)]
pub struct ProdAttr {
    pub prod_id: ProductId,
    pub attr_id: AttributeId,
    pub value: String,
}

/// A requested attribute value of a variant.
#[derive(Debug, PartialEq, Eq)]
pub struct AttrValue {
    pub attr_id: AttributeId,
    pub value: String,
}

/// The value variant `p` has for attribute `a`, given the stored rows in
/// order (a later row for the same pair replaces an earlier one): the
/// value of the last such row; without one, the empty value when `a` is
/// among the base product's `available` attributes; else none.
pub open spec fn stored_value(rows: Seq<ProdAttr>, p: ProductId, a: AttributeId, available: Seq<AttributeId>) -> Option<
    Seq<char>,
>
    decreases rows.len(),
{
    if rows.len() == 0 {
        if available.contains(a) {
            Some(Seq::empty())
        } else {
            None
        }
    } else if rows.last().prod_id == p && rows.last().attr_id == a {
        Some(rows.last().value@)
    } else {
        stored_value(rows.drop_last(), p, a, available)
    }
}

/// Whether variant `p` has every requested value.
pub open spec fn has_all_values(
    rows: Seq<ProdAttr>,
    p: ProductId,
    available: Seq<AttributeId>,
    wanted: Seq<AttrValue>,
) -> bool {
    forall|k: int| 0 <= k < wanted.len() ==> stored_value(rows, p, (#[trigger] wanted[k]).attr_id, available) == Some(
        wanted[k].value@,
    )
}

/// Whether some variant with stored rows already has every requested value.
pub open spec fn values_taken(rows: Seq<ProdAttr>, available: Seq<AttributeId>, wanted: Seq<AttrValue>) -> bool {
    exists|i: int| 0 <= i < rows.len() && has_all_values(rows, (#[trigger] rows[i]).prod_id, available, wanted)
}

/// The error for a variant whose attribute values another variant has.
pub open spec fn is_duplicate_error(e: FieldError) -> bool {
    e.code@ == "attributes"@ && e.message@ == "Product with this attributes already exists"@
}

/// Whether `id` is among `ids`.
fn contains_attribute(ids: &Vec<AttributeId>, id: AttributeId) -> (r: bool)
    ensures
        r == ids@.contains(id),
{
    for i in 0..ids.len()
        invariant
            forall|j: int| 0 <= j < i ==> ids@[j] != id,
    {
        if ids[i] == id {
            return true;
        }
    }
    false
}

/// Whether variant `p` has `value` for attribute `a`.
fn has_value(rows: &Vec<ProdAttr>, p: ProductId, a: AttributeId, available: &Vec<AttributeId>, value: &String) -> (r:
    bool)
    ensures
        r == (stored_value(rows@, p, a, available@) == Some(value@)),
{
    let mut i: usize = rows.len();
    assert(rows@.take(i as int) =~= rows@);
    while i > 0
        invariant
            i <= rows@.len(),
            stored_value(rows@, p, a, available@) == stored_value(rows@.take(i as int), p, a, available@),
        decreases i,
    {
        let row = &rows[i - 1];
        assert(rows@.take(i as int).last() == rows@[i - 1]);
        assert(rows@.take(i as int).drop_last() =~= rows@.take(i - 1));
        if row.prod_id == p && row.attr_id == a {
            return str_equals(row.value.as_str(), value.as_str());
        }
        i = i - 1;
    }
    assert(rows@.take(0) =~= Seq::<ProdAttr>::empty());
    let known = contains_attribute(available, a);
    let empty = value.as_str().is_empty();
    assert(empty == (value@ == Seq::<char>::empty())) by {
        if value@.len() == 0 {
            assert(value@ =~= Seq::<char>::empty());
        }
    }
    known && empty
}

/// Refuses a new variant's attribute values when a variant of the base
/// product already has all of them. `base_attrs` are the stored rows of the
/// base product's variants and `available_attributes` its custom
/// attributes, which a variant without a row for them has empty.
pub fn check_products_attribute_values_are_unique(
    base_attrs: &Vec<ProdAttr>,
    available_attributes: &Vec<AttributeId>,
    new_product_attributes: &Vec<AttrValue>,
) -> (r: Result<(), FieldError>)
    ensures
        r is Err <==> values_taken(base_attrs@, available_attributes@, new_product_attributes@),
        r matches Err(e) ==> is_duplicate_error(e),
{
    let ghost rows = base_attrs@;
    let ghost avail = available_attributes@;
    let ghost wanted = new_product_attributes@;
    for i in 0..base_attrs.len()
        invariant
            rows == base_attrs@,
            avail == available_attributes@,
            wanted == new_product_attributes@,
            forall|j: int| 0 <= j < i ==> !has_all_values(rows, (#[trigger] rows[j]).prod_id, avail, wanted),
    {
        let p = base_attrs[i].prod_id;
        let mut all = true;
        for k in 0..new_product_attributes.len()
            invariant
                rows == base_attrs@,
                avail == available_attributes@,
                wanted == new_product_attributes@,
                all == (forall|m: int|
                    0 <= m < k ==> stored_value(rows, p, (#[trigger] wanted[m]).attr_id, avail) == Some(
                        wanted[m].value@,
                    )),
        {
            let attr = &new_product_attributes[k];
            if !has_value(base_attrs, p, attr.attr_id, available_attributes, &attr.value) {
                all = false;
            }
        }
        if all {
            assert(has_all_values(rows, rows[i as int].prod_id, avail, wanted));
            return Err(FieldError::new("attributes", "Product with this attributes already exists"));
        }
    }
    Ok(())
}

/// The attribute ids of requested values, in order.
pub open spec fn requested_ids(wanted: Seq<AttrValue>) -> Seq<AttributeId> {
    wanted.map_values(|v: AttrValue| v.attr_id)
}

/// Whether the set of the base product's custom attributes differs from the
/// set of attributes the new values name, so that the list must be
/// rewritten.
pub fn custom_attributes_changed(old_attribute_ids: &Vec<AttributeId>, new_product_attributes: &Vec<AttrValue>) -> (r:
    bool)
    ensures
        r == (old_attribute_ids@.to_set() != requested_ids(new_product_attributes@).to_set()),
{
    let ghost olds = old_attribute_ids@.to_set();
    let ghost news = requested_ids(new_product_attributes@).to_set();
    let mut new_ids: Vec<AttributeId> = Vec::new();
    for k in 0..new_product_attributes.len()
        invariant
            new_ids@ == requested_ids(new_product_attributes@).take(k as int),
    {
        new_ids.push(new_product_attributes[k].attr_id);
        assert(new_ids@ =~= requested_ids(new_product_attributes@).take(k + 1));
    }
    assert(new_ids@ =~= requested_ids(new_product_attributes@));
    for i in 0..old_attribute_ids.len()
        invariant
            new_ids@ == requested_ids(new_product_attributes@),
            olds == old_attribute_ids@.to_set(),
            news == new_ids@.to_set(),
            news == requested_ids(new_product_attributes@).to_set(),
            forall|j: int| 0 <= j < i ==> news.contains(#[trigger] old_attribute_ids@[j]),
    {
        if !contains_attribute(&new_ids, old_attribute_ids[i]) {
            assert(olds.contains(old_attribute_ids@[i as int]));
            return true;
        }
    }
    for k in 0..new_ids.len()
        invariant
            olds == old_attribute_ids@.to_set(),
            news == new_ids@.to_set(),
            news == requested_ids(new_product_attributes@).to_set(),
            forall|j: int| 0 <= j < old_attribute_ids@.len() ==> news.contains(#[trigger] old_attribute_ids@[j]),
            forall|j: int| 0 <= j < k ==> olds.contains(#[trigger] new_ids@[j]),
    {
        if !contains_attribute(old_attribute_ids, new_ids[k]) {
            assert(news.contains(new_ids@[k as int]));
            assert(!olds.contains(new_ids@[k as int]));
            return true;
        }
    }
    assert(olds =~= news) by {
        assert forall|x: AttributeId| olds.contains(x) implies news.contains(x) by {
            let j = choose|j: int| 0 <= j < old_attribute_ids@.len() && old_attribute_ids@[j] == x;
            assert(news.contains(old_attribute_ids@[j]));
        }
        assert forall|x: AttributeId| news.contains(x) implies olds.contains(x) by {
            let j = choose|j: int| 0 <= j < new_ids@.len() && new_ids@[j] == x;
            assert(olds.contains(new_ids@[j]));
        }
    }
    false
}

/// The error for a changed attribute list of a base product with several
/// variants.
pub open spec fn is_too_many_variants_error(e: FieldError) -> bool {
    e.code@ == "attributes"@ && e.message@ == "Too many variants."@
}

/// Once the attribute list changed: the custom attributes to store, one per
/// requested value in order, or a refusal when the base product has more
/// than one variant.
pub fn custom_attributes_to_create(new_product_attributes: &Vec<AttrValue>, variants_count: usize) -> (r: Result<
    Vec<AttributeId>,
    FieldError,
>)
    ensures
        variants_count > 1 ==> (r matches Err(e) && is_too_many_variants_error(e)),
        variants_count <= 1 ==> (r matches Ok(ids) && ids@ == requested_ids(new_product_attributes@)),
{
    if variants_count > 1 {
        return Err(FieldError::new("attributes", "Too many variants."));
    }
    let mut ids: Vec<AttributeId> = Vec::new();
    for k in 0..new_product_attributes.len()
        invariant
            ids@ == requested_ids(new_product_attributes@).take(k as int),
    {
        ids.push(new_product_attributes[k].attr_id);
        assert(ids@ =~= requested_ids(new_product_attributes@).take(k + 1));
    }
    assert(ids@ =~= requested_ids(new_product_attributes@));
    Ok(ids)
}

} // verus!
