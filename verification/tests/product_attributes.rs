use stores::errors::FieldError;
use stores::product_attributes::{
    check_products_attribute_values_are_unique, custom_attributes_changed, custom_attributes_to_create, AttrValue,
    ProdAttr,
};
use stores::types::{AttributeId, ProductId};

fn row(p: i32, a: i32, v: &str) -> ProdAttr {
    ProdAttr { prod_id: ProductId(p), attr_id: AttributeId(a), value: v.to_string() }
}

fn val(a: i32, v: &str) -> AttrValue {
    AttrValue { attr_id: AttributeId(a), value: v.to_string() }
}

fn duplicate() -> Result<(), FieldError> {
    Err(FieldError {
        code: "attributes".to_string(),
        message: "Product with this attributes already exists".to_string(),
    })
}

#[test]
fn distinct_values_are_accepted() {
    let rows = vec![row(1, 10, "red"), row(1, 11, "xl"), row(2, 10, "blue"), row(2, 11, "xl")];
    let available = vec![AttributeId(10), AttributeId(11)];
    assert_eq!(check_products_attribute_values_are_unique(&rows, &available, &vec![val(10, "red"), val(11, "m")]), Ok(()));
    assert_eq!(check_products_attribute_values_are_unique(&rows, &available, &vec![val(10, "green"), val(11, "xl")]), Ok(()));
}

#[test]
fn taken_values_are_refused() {
    let rows = vec![row(1, 10, "red"), row(1, 11, "xl"), row(2, 10, "blue"), row(2, 11, "xl")];
    let available = vec![AttributeId(10), AttributeId(11)];
    assert_eq!(check_products_attribute_values_are_unique(&rows, &available, &vec![val(11, "xl"), val(10, "blue")]), duplicate());
}

#[test]
fn later_row_replaces_earlier() {
    let rows = vec![row(1, 10, "red"), row(1, 10, "blue")];
    let available = vec![AttributeId(10)];
    assert_eq!(check_products_attribute_values_are_unique(&rows, &available, &vec![val(10, "red")]), Ok(()));
    assert_eq!(check_products_attribute_values_are_unique(&rows, &available, &vec![val(10, "blue")]), duplicate());
}

#[test]
fn missing_available_attribute_counts_as_empty() {
    let rows = vec![row(1, 10, "red")];
    let available = vec![AttributeId(10), AttributeId(11)];
    assert_eq!(check_products_attribute_values_are_unique(&rows, &available, &vec![val(10, "red"), val(11, "")]), duplicate());
    assert_eq!(check_products_attribute_values_are_unique(&rows, &vec![AttributeId(10)], &vec![val(10, "red"), val(11, "")]), Ok(()));
}

#[test]
fn no_variants_nothing_taken() {
    assert_eq!(check_products_attribute_values_are_unique(&vec![], &vec![AttributeId(10)], &vec![val(10, "")]), Ok(()));
    assert_eq!(check_products_attribute_values_are_unique(&vec![], &vec![], &vec![]), Ok(()));
    // With stored variants and no requested values, every variant matches.
    assert_eq!(check_products_attribute_values_are_unique(&vec![row(1, 10, "a")], &vec![], &vec![]), duplicate());
}

#[test]
fn attribute_list_changes() {
    let old = vec![AttributeId(10), AttributeId(11)];
    assert!(!custom_attributes_changed(&old, &vec![val(11, "x"), val(10, "y")]));
    assert!(!custom_attributes_changed(&old, &vec![val(11, "x"), val(10, "y"), val(10, "z")]));
    assert!(custom_attributes_changed(&old, &vec![val(10, "y")]));
    assert!(custom_attributes_changed(&old, &vec![val(10, "y"), val(11, "x"), val(12, "z")]));
    assert!(!custom_attributes_changed(&vec![], &vec![]));
}

#[test]
fn attributes_to_create() {
    let new = vec![val(11, "x"), val(10, "y")];
    assert_eq!(custom_attributes_to_create(&new, 0), Ok(vec![AttributeId(11), AttributeId(10)]));
    assert_eq!(custom_attributes_to_create(&new, 1), Ok(vec![AttributeId(11), AttributeId(10)]));
    assert_eq!(
        custom_attributes_to_create(&new, 2),
        Err(FieldError { code: "attributes".to_string(), message: "Too many variants.".to_string() })
    );
}
