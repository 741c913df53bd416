use stores::cart::group_cart;
use stores::types::{BaseProductId, ProductId, StoreId};

fn item(p: i32, b: i32, s: i32) -> (ProductId, BaseProductId, StoreId) {
    (ProductId(p), BaseProductId(b), StoreId(s))
}

#[test]
fn cart_grouped_by_store_and_base_product() {
    let cart = vec![item(5, 30, 2), item(1, 10, 1), item(7, 20, 2), item(2, 10, 1), item(9, 30, 2)];
    let groups = group_cart(&cart);
    assert_eq!(
        groups,
        vec![
            (StoreId(1), vec![(BaseProductId(10), vec![ProductId(1), ProductId(2)])]),
            (
                StoreId(2),
                vec![
                    (BaseProductId(20), vec![ProductId(7)]),
                    (BaseProductId(30), vec![ProductId(5), ProductId(9)]),
                ]
            ),
        ]
    );
}

#[test]
fn empty_cart() {
    assert_eq!(group_cart(&vec![]), vec![]);
}

#[test]
fn base_product_store_is_that_of_its_first_product() {
    let cart = vec![item(1, 10, 3), item(2, 10, 4)];
    assert_eq!(group_cart(&cart), vec![(StoreId(3), vec![(BaseProductId(10), vec![ProductId(1), ProductId(2)])])]);
}

#[test]
fn negative_ids_sort_first() {
    let cart = vec![item(1, 5, 0), item(2, -5, -1)];
    assert_eq!(
        group_cart(&cart),
        vec![
            (StoreId(-1), vec![(BaseProductId(-5), vec![ProductId(2)])]),
            (StoreId(0), vec![(BaseProductId(5), vec![ProductId(1)])]),
        ]
    );
}
