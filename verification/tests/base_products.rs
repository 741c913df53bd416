use stores::base_products::{
    attributes_per_variant, needs_vendor_code_check, order_by, pair_variants, search_variant_ids, select_variants,
};
use stores::types::{BaseProductId, ModerationStatus, ProductId, StoreId};

fn b(i: i32) -> BaseProductId {
    BaseProductId(i)
}

fn p(i: i32) -> ProductId {
    ProductId(i)
}

#[test]
fn rows_follow_search_order() {
    let el_ids = vec![b(3), b(1), b(2)];
    let rows = vec![b(1), b(2), b(3)];
    assert_eq!(order_by(&el_ids, &rows), vec![2, 0, 1]);
}

#[test]
fn missing_rows_are_skipped_and_later_rows_replace_earlier() {
    let el_ids = vec![b(3), b(1), b(2)];
    assert_eq!(order_by(&el_ids, &vec![b(2), b(3)]), vec![1, 0]);
    assert_eq!(order_by(&el_ids, &vec![b(2), b(2)]), vec![1]);
    assert_eq!(order_by(&el_ids, &vec![]), Vec::<usize>::new());
}

#[test]
fn repeated_search_ids_count_by_last_position() {
    let el_ids = vec![b(1), b(2), b(1)];
    assert_eq!(order_by(&el_ids, &vec![b(1), b(2)]), vec![1, 0]);
}

#[test]
fn matched_variants_only() {
    let variants = vec![p(1), p(2), p(3)];
    assert_eq!(select_variants(&vec![p(1), p(2), p(3)], &variants), vec![p(1), p(2), p(3)]);
    assert_eq!(select_variants(&vec![p(3), p(1)], &variants), vec![p(1), p(3)]);
    assert_eq!(select_variants(&vec![], &variants), vec![]);
    assert_eq!(select_variants(&vec![p(9)], &variants), vec![]);
}

#[test]
fn variant_ids_of_all_hits() {
    // The first hit names matched variants; the second names none, so all
    // its variants count.
    let hits = vec![(Some(vec![p(2)]), vec![p(1), p(2)]), (None, vec![p(5), p(6)])];
    let ids = search_variant_ids(&hits);
    assert_eq!(ids, vec![p(2), p(5), p(6)]);
    assert_eq!(select_variants(&ids, &vec![p(1), p(2)]), vec![p(2)]);
    assert_eq!(select_variants(&ids, &vec![p(5), p(6)]), vec![p(5), p(6)]);
    // A hit that lists another base product's variant widens the selection
    // for every base product, as the ids are joined over the whole search.
    let hits = vec![(Some(vec![p(2), p(6)]), vec![p(1), p(2)]), (Some(vec![p(5)]), vec![p(5), p(6)])];
    let ids = search_variant_ids(&hits);
    assert_eq!(select_variants(&ids, &vec![p(5), p(6)]), vec![p(5), p(6)]);
    assert_eq!(search_variant_ids(&vec![]), vec![]);
}

#[test]
fn attribute_rows_per_variant() {
    let variants = vec![p(1), p(2), p(3)];
    let attrs = vec![p(2), p(1), p(2), p(7)];
    assert_eq!(attributes_per_variant(&variants, &attrs), vec![vec![1], vec![0, 2], vec![]]);
    assert_eq!(attributes_per_variant(&vec![], &attrs), Vec::<Vec<usize>>::new());
}

#[test]
fn vendor_code_check_only_for_a_new_code() {
    assert!(!needs_vendor_code_check("A-1", None));
    assert!(!needs_vendor_code_check("A-1", Some("A-1")));
    assert!(needs_vendor_code_check("A-1", Some("A-2")));
    assert!(needs_vendor_code_check("", Some("a")));
}

#[test]
fn discount_pairs_one_variant_per_base() {
    let published = ModerationStatus::Published;
    // Variants in discount order: base 20, then 10, then 30.
    let variants = vec![(p(1), b(20)), (p(2), b(10)), (p(3), b(30))];
    let bases = vec![(b(10), published, StoreId(1)), (b(20), published, StoreId(1)), (b(30), published, StoreId(2))];
    let pairs = pair_variants(&bases, &variants, None);
    assert_eq!(pairs, vec![(1, 0), (0, 1), (2, 2)]);
    for (i, j) in &pairs {
        assert_eq!(variants[*j].1, bases[*i].0);
    }
    assert_eq!(pair_variants(&bases, &variants, Some(StoreId(1))), vec![(1, 0), (0, 1)]);
}

#[test]
fn discount_pairs_skip_unpublished_by_position() {
    let variants = vec![(p(1), b(20)), (p(2), b(10))];
    let bases = vec![(b(10), ModerationStatus::Published, StoreId(1)), (b(20), ModerationStatus::Draft, StoreId(1))];
    // Only base 10 is kept; it is paired with the first variant, as the
    // listing pairs rows and variants by position.
    assert_eq!(pair_variants(&bases, &variants, None), vec![(0, 0)]);
    assert_eq!(pair_variants(&vec![], &variants, None), vec![]);
}
