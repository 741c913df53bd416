use std::collections::HashMap;

use stores::categories::{
    category_and_children_ids, clear_child_categories, create_tree, get_all_children_till_the_end, get_category,
    get_category_by_slug, get_child_category_level, get_first_level_category, get_parent_category,
    get_path_to_searched_category, leaf_category_ids, parent_links_are_acyclic, remove_empty_children_categories, remove_unused_categories,
    set_attributes, third_level_category_ids, Attribute, AttributeType, Category, CategoryNotFound, LeafCategoryError,
    RawCategory,
};
use stores::types::{AttributeId, CategoryId};

fn create_mock_category(id_: CategoryId, parent_id_: CategoryId, level_: i32) -> Category {
    Category {
        id: id_,
        is_active: true,
        name: "{}".to_string(),
        meta_field: None,
        children: vec![],
        level: level_,
        parent_id: Some(parent_id_),
        attributes: vec![],
        slug: "1".to_string(),
    }
}

fn create_mock_category_level1(id_: CategoryId, parent_id_: CategoryId) -> Category {
    create_mock_category(id_, parent_id_, 1)
}

fn create_mock_category_level2(id_: CategoryId, parent_id_: CategoryId) -> Category {
    create_mock_category(id_, parent_id_, 2)
}

fn create_mock_category_level3(id_: CategoryId, parent_id_: CategoryId) -> Category {
    create_mock_category(id_, parent_id_, 3)
}

const CATEGORY_ID_LEVEL1_WITH_2CHILDREN: CategoryId = CategoryId(200);
const CATEGORY_ID_LEVEL2_WITH_2CHILDREN: CategoryId = CategoryId(301);
const CATEGORY_ID_LEVEL3_FOR_TEST: CategoryId = CategoryId(402);

fn create_mock_categories() -> Category {
    let root_id = CategoryId(100);

    let mut cat_1 = create_mock_category_level1(CATEGORY_ID_LEVEL1_WITH_2CHILDREN, root_id);

    let mut cat_2 = create_mock_category_level2(CategoryId(300), cat_1.id);
    let mut cat_2_1 = create_mock_category_level2(CATEGORY_ID_LEVEL2_WITH_2CHILDREN, cat_1.id);

    let cat_3 = create_mock_category_level3(CategoryId(400), cat_2.id);
    let cat_3_1 = create_mock_category_level3(CategoryId(401), cat_2_1.id);
    let cat_3_2 = create_mock_category_level3(CATEGORY_ID_LEVEL3_FOR_TEST, cat_2_1.id);

    cat_2.children = vec![cat_3];

    cat_2_1.children = vec![cat_3_1, cat_3_2];

    cat_1.children = vec![cat_2, cat_2_1];

    Category {
        id: root_id,
        is_active: true,
        name: "{}".to_string(),
        meta_field: None,
        children: vec![cat_1],
        level: 0,
        parent_id: None,
        attributes: vec![],
        slug: "1".to_string(),
    }
}

fn ids(cats: &[Category]) -> Vec<i32> {
    cats.iter().map(|c| c.id.0).collect()
}

#[test]
fn test_get_intermediate_category_child_level() {
    let lvl1_category = Category {
        id: CategoryId(1000),
        is_active: true,
        name: "{}".to_string(),
        meta_field: None,
        children: vec![],
        level: 1,
        parent_id: None,
        attributes: vec![],
        slug: "1".to_string(),
    };
    let level_ = get_child_category_level(&lvl1_category);
    assert_eq!(Some(2), level_.ok());
}

#[test]
fn test_get_leaf_category_child_level() {
    let lvl3_category = Category {
        id: CategoryId(1000),
        is_active: true,
        name: "{}".to_string(),
        meta_field: None,
        children: vec![],
        level: 3,
        parent_id: None,
        attributes: vec![],
        slug: "1".to_string(),
    };
    let level_ = get_child_category_level(&lvl3_category);
    assert!(level_.is_err());
    assert_eq!(level_, Err(LeafCategoryError { parent_id: CategoryId(1000), max_level: 3 }));
}

#[test]
fn test_unused_categories() {
    let mut cat = Category::default();
    cat.id = CategoryId(1);
    for i in 2..4 {
        let mut cat_child = Category::default();
        cat_child.id = CategoryId(i);
        cat_child.parent_id = Some(CategoryId(1));
        for j in 1..3 {
            let mut cat_child_child = Category::default();
            cat_child_child.id = CategoryId(2 * i + j);
            cat_child_child.parent_id = Some(CategoryId(i));
            cat_child.children.push(cat_child_child);
        }
        cat.children.push(cat_child);
    }

    let used = vec![CategoryId(5), CategoryId(6)];
    let new_cat = remove_unused_categories(cat, &used);
    assert_eq!(new_cat.children[0].children[0].id, CategoryId(5));
    assert_eq!(new_cat.children[0].children[1].id, CategoryId(6));
}

#[test]
fn test_used_only_one_category_from_parent_category_level2() {
    let mut category = create_mock_categories();
    let parent_category_code = CATEGORY_ID_LEVEL2_WITH_2CHILDREN;
    let category_code = CATEGORY_ID_LEVEL3_FOR_TEST;
    let used_codes = vec![category_code];

    {
        let parent_category = get_category(&category, parent_category_code)
            .expect(&format!("Not found parent with code {:?} before run test", parent_category_code));

        assert_eq!(parent_category.children.len(), 2, "Mock categories not contains 2 children categories");
    }

    category = remove_unused_categories(category, &used_codes);
    let parent_category = get_category(&category, parent_category_code)
        .expect(&format!("Not found parent_category with code {:?} after test", parent_category_code));

    assert_eq!(parent_category.children.len(), 1);
    assert_eq!(parent_category.children[0].id, category_code);
}

#[test]
fn test_used_only_one_category_level2() {
    let mut category = create_mock_categories();
    let select_category_code = CATEGORY_ID_LEVEL2_WITH_2CHILDREN;
    let used_codes = vec![select_category_code];

    let parent_category = get_category(&category, CATEGORY_ID_LEVEL1_WITH_2CHILDREN).expect(&format!(
        "Not found parent with code {:?} before run test",
        CATEGORY_ID_LEVEL1_WITH_2CHILDREN
    ));

    assert_eq!(parent_category.children.len(), 2, "Mock categories not contains 2 categories level 2");

    category = remove_unused_categories(category, &used_codes);

    let parent_category = get_category(&category, CATEGORY_ID_LEVEL1_WITH_2CHILDREN)
        .expect(&format!("Not found parent_category with code {:?} after test", select_category_code));

    assert_eq!(parent_category.children.len(), 1);
    assert_eq!(parent_category.children[0].id, select_category_code);
}

#[test]
fn test_parent_categories() {
    let cat = create_mock_categories();
    let child_id = CategoryId(400);
    let new_cat = cat
        .children
        .into_iter()
        .find(|cat_child| get_parent_category(&cat_child, child_id, 2).is_some())
        .unwrap();
    assert_eq!(new_cat.id, CategoryId(200));
}

#[test]
fn test_get_category() {
    let cat = create_mock_categories();
    let child_id = CategoryId(300);
    let new_cat = get_category(&cat, child_id).unwrap();
    assert_eq!(new_cat.id, child_id);
}

#[test]
fn test_get_category_not_found() {
    let cat = create_mock_categories();
    let child_id = CategoryId(0);
    let new_cat = get_category(&cat, child_id);
    assert!(new_cat.is_none());
}

#[test]
fn found_category_keeps_its_subtree() {
    let cat = create_mock_categories();
    let found = get_category(&cat, CATEGORY_ID_LEVEL2_WITH_2CHILDREN).unwrap();
    assert_eq!(ids(&found.children), vec![401, 402]);
    assert_eq!(found.level, 2);
}

#[test]
fn category_by_slug_finds_first_in_preorder() {
    let mut cat = create_mock_categories();
    cat.slug = "root".to_string();
    cat.children[0].children[1].slug = "phones".to_string();
    let found = get_category_by_slug(&cat, &"phones".to_string()).unwrap();
    assert_eq!(found.id, CATEGORY_ID_LEVEL2_WITH_2CHILDREN);
    let first = get_category_by_slug(&cat, &"1".to_string()).unwrap();
    assert_eq!(first.id, CATEGORY_ID_LEVEL1_WITH_2CHILDREN);
    assert!(get_category_by_slug(&cat, &"none".to_string()).is_none());
}

#[test]
fn ids_of_category_and_children_in_preorder() {
    let cat = create_mock_categories();
    let all: Vec<i32> = category_and_children_ids(&cat).iter().map(|c| c.0).collect();
    assert_eq!(all, vec![100, 200, 300, 400, 301, 401, 402]);
}

#[test]
fn leaves_left_to_right() {
    let cat = create_mock_categories();
    let leaves = get_all_children_till_the_end(cat);
    assert_eq!(ids(&leaves), vec![400, 401, 402]);
    let single = create_mock_category(CategoryId(7), CategoryId(1), 3);
    assert_eq!(ids(&get_all_children_till_the_end(single)), vec![7]);
}

#[test]
fn empty_branches_are_removed() {
    let mut cat = create_mock_categories();
    cat.children[0].children[0].children.clear();
    let pruned = remove_empty_children_categories(cat);
    assert_eq!(ids(&pruned.children), vec![200]);
    assert_eq!(ids(&pruned.children[0].children), vec![301]);
    assert_eq!(ids(&pruned.children[0].children[0].children), vec![401, 402]);
}

#[test]
fn clearing_cuts_below_a_level() {
    let cat = create_mock_categories();
    let cut = clear_child_categories(cat, 2);
    assert_eq!(ids(&cut.children), vec![200]);
    assert_eq!(ids(&cut.children[0].children), vec![300, 301]);
    assert!(cut.children[0].children[0].children.is_empty());
    assert!(cut.children[0].children[1].children.is_empty());
}

#[test]
fn parent_category_within_levels() {
    let cat = create_mock_categories();
    let level1 = &cat.children[0];
    assert_eq!(get_parent_category(level1, CategoryId(402), 2).map(|c| c.id), Some(CategoryId(200)));
    assert!(get_parent_category(level1, CategoryId(999), 2).is_none());
}

#[test]
fn first_level_category_of_a_leaf() {
    let cat = create_mock_categories();
    assert_eq!(get_first_level_category(CategoryId(401), create_mock_categories()).map(|c| c.id), Ok(CategoryId(200)));
    assert_eq!(
        get_first_level_category(CategoryId(999), cat).map(|c| c.id),
        Err(CategoryNotFound { id: CategoryId(999) })
    );
}

#[test]
fn path_to_searched_leaf_and_inner_category() {
    let root = create_mock_categories();
    let leaf = get_category(&root, CategoryId(402)).unwrap();
    let path = get_path_to_searched_category(Some(leaf), root);
    assert_eq!(ids(&path.children), vec![200]);
    assert_eq!(ids(&path.children[0].children), vec![301]);
    assert_eq!(ids(&path.children[0].children[0].children), vec![401, 402]);

    let root = create_mock_categories();
    let inner = get_category(&root, CategoryId(200)).unwrap();
    let path = get_path_to_searched_category(Some(inner), root);
    assert_eq!(ids(&path.children), vec![200]);
    assert_eq!(ids(&path.children[0].children), vec![300, 301]);
    assert!(path.children[0].children[0].children.is_empty());

    let root = create_mock_categories();
    let same = get_path_to_searched_category(None, root);
    assert_eq!(ids(&same.children), vec![200]);
}

#[test]
fn search_category_ids() {
    let cat = create_mock_categories();
    let leaf = get_category(&cat, CategoryId(400)).unwrap();
    let inner = get_category(&cat, CategoryId(301)).unwrap();
    assert_eq!(leaf_category_ids(leaf, CategoryId(400)), vec![CategoryId(400)]);
    assert_eq!(leaf_category_ids(inner, CategoryId(301)), vec![CategoryId(401), CategoryId(402)]);
    let leaf = get_category(&cat, CategoryId(400)).unwrap();
    let inner = get_category(&cat, CategoryId(301)).unwrap();
    assert_eq!(third_level_category_ids(&leaf, CategoryId(400)), Some(vec![CategoryId(400)]));
    assert_eq!(third_level_category_ids(&inner, CategoryId(301)), None);
}

fn raw(id: i32, parent: Option<i32>, level: i32) -> RawCategory {
    RawCategory {
        id: CategoryId(id),
        name: "{}".to_string(),
        parent_id: parent.map(CategoryId),
        level,
        meta_field: None,
        is_active: true,
        slug: format!("c{}", id),
    }
}

#[test]
fn tree_from_rows() {
    let rows = vec![raw(1, None, 1), raw(2, Some(1), 2), raw(3, Some(1), 2), raw(4, Some(3), 3), raw(5, None, 1)];
    let roots = create_tree(&rows, None);
    assert_eq!(ids(&roots), vec![1, 5]);
    assert_eq!(ids(&roots[0].children), vec![2, 3]);
    assert_eq!(ids(&roots[0].children[1].children), vec![4]);
    assert_eq!(roots[0].children[1].children[0].slug, "c4");
    let below = create_tree(&rows, Some(CategoryId(3)));
    assert_eq!(ids(&below), vec![4]);
}

#[test]
fn attributes_go_to_leaves() {
    let mut cat = create_mock_categories();
    let mut table = HashMap::new();
    table.insert(
        400,
        vec![Attribute { id: AttributeId(9), name: "{}".to_string(), value_type: AttributeType::Str, meta_field: None }],
    );
    table.insert(
        200,
        vec![Attribute { id: AttributeId(8), name: "{}".to_string(), value_type: AttributeType::Float, meta_field: None }],
    );
    set_attributes(&mut cat, &table);
    let leaf = &cat.children[0].children[0].children[0];
    assert_eq!(leaf.id, CategoryId(400));
    assert_eq!(leaf.attributes.len(), 1);
    assert_eq!(leaf.attributes[0].id, AttributeId(9));
    assert!(cat.children[0].attributes.is_empty());
    assert!(cat.children[0].children[1].children[0].attributes.is_empty());
}

#[test]
fn clearing_twice_is_clearing_once() {
    let once = clear_child_categories(create_mock_categories(), 2);
    let twice = clear_child_categories(clear_child_categories(create_mock_categories(), 2), 2);
    assert_eq!(ids(&twice.children), ids(&once.children));
    assert_eq!(ids(&twice.children[0].children), ids(&once.children[0].children));
    assert!(twice.children[0].children.iter().all(|c| c.children.is_empty()));
}

#[test]
fn acyclic_rows_are_recognised() {
    let rows = vec![raw(4, Some(3), 3), raw(3, Some(1), 2), raw(1, None, 1), raw(2, Some(1), 2), raw(5, None, 1)];
    assert!(parent_links_are_acyclic(&rows));
    assert!(parent_links_are_acyclic(&vec![]));
    let roots = create_tree(&rows, None);
    assert_eq!(ids(&roots), vec![1, 5]);
}

#[test]
fn circular_rows_are_refused() {
    assert!(!parent_links_are_acyclic(&vec![raw(1, Some(2), 1), raw(2, Some(1), 1)]));
    assert!(!parent_links_are_acyclic(&vec![raw(7, Some(7), 1)]));
    assert!(!parent_links_are_acyclic(&vec![raw(1, None, 1), raw(2, Some(3), 2), raw(3, Some(4), 2), raw(4, Some(2), 2)]));
}
