use stores::product_categories::{ProductCategories, ServiceUpdateStore};
use stores::types::CategoryId;

fn pc(id: i32, count: i32) -> ProductCategories {
    ProductCategories { category_id: CategoryId(id), count }
}

#[test]
fn new_counter_starts_at_one() {
    assert_eq!(ProductCategories::new(CategoryId(4)), pc(4, 1));
}

#[test]
fn moving_a_product_between_counted_categories() {
    let r = ServiceUpdateStore::update_product_categories(Some(vec![pc(1, 2), pc(2, 5)]), CategoryId(1), CategoryId(2));
    assert_eq!(r.product_categories, Some(vec![pc(1, 1), pc(2, 6)]));
}

#[test]
fn moving_keeps_an_emptied_counter() {
    let r = ServiceUpdateStore::update_product_categories(Some(vec![pc(1, 1)]), CategoryId(1), CategoryId(3));
    assert_eq!(r.product_categories, Some(vec![pc(1, 0), pc(3, 1)]));
}

#[test]
fn moving_within_one_category_changes_nothing() {
    let r = ServiceUpdateStore::update_product_categories(Some(vec![pc(1, 4)]), CategoryId(1), CategoryId(1));
    assert_eq!(r.product_categories, Some(vec![pc(1, 4)]));
}

#[test]
fn moving_without_counters() {
    let r = ServiceUpdateStore::update_product_categories(None, CategoryId(1), CategoryId(7));
    assert_eq!(r.product_categories, Some(vec![pc(7, 1)]));
}

#[test]
fn adding_products() {
    let r = ServiceUpdateStore::add_category_to_product_categories(Some(vec![pc(1, 2), pc(2, 5)]), CategoryId(2));
    assert_eq!(r.product_categories, Some(vec![pc(1, 2), pc(2, 6)]));
    let r = ServiceUpdateStore::add_category_to_product_categories(Some(vec![pc(1, 2)]), CategoryId(9));
    assert_eq!(r.product_categories, Some(vec![pc(1, 2), pc(9, 1)]));
    let r = ServiceUpdateStore::add_category_to_product_categories(None, CategoryId(9));
    assert_eq!(r.product_categories, Some(vec![pc(9, 1)]));
}

#[test]
fn deleting_products() {
    let r = ServiceUpdateStore::delete_category_from_product_categories(Some(vec![pc(1, 2), pc(2, 5)]), CategoryId(1));
    assert_eq!(r.product_categories, Some(vec![pc(1, 1), pc(2, 5)]));
    let r = ServiceUpdateStore::delete_category_from_product_categories(Some(vec![pc(1, 1), pc(2, 5)]), CategoryId(1));
    assert_eq!(r.product_categories, Some(vec![pc(2, 5)]));
    let r = ServiceUpdateStore::delete_category_from_product_categories(Some(vec![pc(2, 5)]), CategoryId(3));
    assert_eq!(r.product_categories, Some(vec![pc(2, 5)]));
    let r = ServiceUpdateStore::delete_category_from_product_categories(None, CategoryId(3));
    assert_eq!(r.product_categories, Some(vec![]));
}

#[test]
fn add_then_delete_restores() {
    for start in [vec![pc(1, 2), pc(2, 5)], vec![pc(2, 5)], vec![]] {
        let added = ServiceUpdateStore::add_category_to_product_categories(Some(start.clone()), CategoryId(1));
        let back =
            ServiceUpdateStore::delete_category_from_product_categories(added.product_categories, CategoryId(1));
        assert_eq!(back.product_categories, Some(start));
    }
}

#[test]
fn counters_stay_distinct_and_positive() {
    let start = vec![pc(1, 1), pc(2, 3)];
    let added = ServiceUpdateStore::add_category_to_product_categories(Some(start.clone()), CategoryId(3))
        .product_categories
        .unwrap();
    let removed = ServiceUpdateStore::delete_category_from_product_categories(Some(added.clone()), CategoryId(1))
        .product_categories
        .unwrap();
    for list in [&added, &removed] {
        for (i, a) in list.iter().enumerate() {
            assert!(a.count >= 1);
            for b in &list[i + 1..] {
                assert_ne!(a.category_id, b.category_id);
            }
        }
    }
    assert_eq!(removed, vec![pc(2, 3), pc(3, 1)]);
}
