//! The category tree: building it from database rows and the queries and
//! prunings the catalogue performs on it.
use std::collections::HashMap;

use vstd::prelude::*;

use crate::types::{AttributeId, CategoryId};

verus! {

broadcast use vstd::std_specs::hash::group_hash_axioms;

/// Kind of value an attribute takes.
#[derive(Debug, PartialEq, Eq, Structural, Clone, Copy)]
pub enum AttributeType {
    Str,
    Float,
}

/// A product attribute attached to leaf categories.
#[derive(Debug, Clone, PartialEq)]
pub struct Attribute {
    pub id: AttributeId,
    /// Translated names, as JSON text.
    pub name: String,
    pub value_type: AttributeType,
    /// Free-form metadata, as JSON text.
    pub meta_field: Option<String>,
}

/// Mathematical value of an [`Attribute`].
pub ghost struct AttributeView {
    pub id: AttributeId,
    pub name: Seq<char>,
    pub value_type: AttributeType,
    pub meta_field: Option<Seq<char>>,
}

/// The view of an optional text.
pub open spec fn opt_text(s: Option<String>) -> Option<Seq<char>> {
    match s {
        Some(t) => Some(t@),
        None => None,
    }
}

impl View for Attribute {
    type V = AttributeView;

    open spec fn view(&self) -> AttributeView {
        AttributeView {
            id: self.id,
            name: self.name@,
            value_type: self.value_type,
            meta_field: opt_text(self.meta_field),
        }
    }
}

/// A category row as stored in the database, without its subtree.
#[derive(Debug, Clone, PartialEq)]
pub struct RawCategory {
    pub id: CategoryId,
    /// Translated names, as JSON text.
    pub name: String,
    pub parent_id: Option<CategoryId>,
    pub level: i32,
    /// Free-form metadata, as JSON text.
    pub meta_field: Option<String>,
    pub is_active: bool,
    pub slug: String,
}

/// A category with its subtree and, for leaves, its attributes.
#[derive(Debug)]
pub struct Category {
    pub id: CategoryId,
    pub is_active: bool,
    /// Translated names, as JSON text.
    pub name: String,
    /// Free-form metadata, as JSON text.
    pub meta_field: Option<String>,
    pub children: Vec<Category>,
    pub level: i32,
    pub parent_id: Option<CategoryId>,
    pub attributes: Vec<Attribute>,
    pub slug: String,
}

/// Mathematical value of a [`Category`]: the whole subtree.
#[verifier::ext_equal]
pub ghost struct CategoryNode {
    pub id: CategoryId,
    pub is_active: bool,
    pub name: Seq<char>,
    pub meta_field: Option<Seq<char>>,
    pub children: Seq<CategoryNode>,
    pub level: i32,
    pub parent_id: Option<CategoryId>,
    pub attributes: Seq<AttributeView>,
    pub slug: Seq<char>,
}

/// The views of a sequence of attributes.
pub open spec fn attribute_views(s: Seq<Attribute>) -> Seq<AttributeView> {
    s.map_values(|a: Attribute| a@)
}

/// The view of a category, recursively.
pub open spec fn node_of(c: Category) -> CategoryNode
    decreases c,
{
    CategoryNode {
        id: c.id,
        is_active: c.is_active,
        name: c.name@,
        meta_field: opt_text(c.meta_field),
        children: Seq::new(
            c.children@.len(),
            |i: int|
                if 0 <= i < c.children@.len() {
                    node_of(c.children@[i])
                } else {
                    arbitrary()
                },
        ),
        level: c.level,
        parent_id: c.parent_id,
        attributes: attribute_views(c.attributes@),
        slug: c.slug@,
    }
}

impl View for Category {
    type V = CategoryNode;

    open spec fn view(&self) -> CategoryNode {
        node_of(*self)
    }
}

/// The views of a sequence of categories.
pub open spec fn node_views(s: Seq<Category>) -> Seq<CategoryNode> {
    s.map_values(|c: Category| node_of(c))
}

/// The children of a category have the views the category's view lists.
pub proof fn lemma_children_views(c: Category)
    ensures
        node_of(c).children == node_views(c.children@),
        node_of(c).children.len() == c.children@.len(),
        forall|i: int| 0 <= i < c.children@.len() ==> #[trigger] node_of(c).children[i] == node_of(c.children@[i]),
{
    assert(node_of(c).children =~= node_views(c.children@));
}

/// Greatest depth of nesting allowed in the tree; categories at this level
/// are leaves that products belong to.
pub const MAX_LEVEL_NESTING: i32 = 3;

/// A copy of an optional text.
pub fn copy_opt_text(s: &Option<String>) -> (r: Option<String>)
    ensures
        opt_text(r) == opt_text(*s),
{
    match s {
        Some(t) => Some(t.clone()),
        None => None,
    }
}

/// A copy of an attribute.
pub fn copy_attribute(a: &Attribute) -> (r: Attribute)
    ensures
        r@ == a@,
{
    Attribute { id: a.id, name: a.name.clone(), value_type: a.value_type, meta_field: copy_opt_text(&a.meta_field) }
}

/// A copy of a list of attributes.
pub fn copy_attributes(v: &Vec<Attribute>) -> (r: Vec<Attribute>)
    ensures
        attribute_views(r@) == attribute_views(v@),
{
    let mut r: Vec<Attribute> = Vec::new();
    let n = v.len();
    let mut i: usize = 0;
    while i < n
        invariant
            n == v@.len(),
            i <= n,
            r@.len() == i,
            forall|j: int| 0 <= j < i ==> (#[trigger] r@[j])@ == v@[j]@,
        decreases n - i,
    {
        r.push(copy_attribute(&v[i]));
        i = i + 1;
    }
    assert(attribute_views(r@) =~= attribute_views(v@));
    r
}

/// A copy of a category with its whole subtree.
pub fn copy_category(c: &Category) -> (r: Category)
    ensures
        r@ == c@,
    decreases c,
{
    let mut kids: Vec<Category> = Vec::new();
    let n = c.children.len();
    let mut i: usize = 0;
    while i < n
        invariant
            n == c.children@.len(),
            i <= n,
            kids@.len() == i,
            forall|j: int| 0 <= j < i ==> node_of(#[trigger] kids@[j]) == node_of(c.children@[j]),
        decreases n - i,
    {
        let k = copy_category(&c.children[i]);
        kids.push(k);
        i = i + 1;
    }
    let r = Category {
        id: c.id,
        is_active: c.is_active,
        name: c.name.clone(),
        meta_field: copy_opt_text(&c.meta_field),
        children: kids,
        level: c.level,
        parent_id: c.parent_id,
        attributes: copy_attributes(&c.attributes),
        slug: c.slug.clone(),
    };
    assert(node_of(r).children =~= node_of(*c).children);
    r
}

impl Category {
    /// The root placeholder: id 0, level 0, no parent, no subtree, empty
    /// texts.
    pub fn default() -> (c: Category)
        ensures
            c.id == CategoryId(0),
            !c.is_active,
            c.name@ == Seq::<char>::empty(),
            c.meta_field is None,
            c.children@.len() == 0,
            c.level == 0,
            c.parent_id is None,
            c.attributes@.len() == 0,
            c.slug@ == Seq::<char>::empty(),
    {
        Category {
            id: CategoryId(0),
            is_active: false,
            name: String::new(),
            meta_field: None,
            children: Vec::new(),
            level: 0,
            parent_id: None,
            attributes: Vec::new(),
            slug: String::new(),
        }
    }

    /// The category of a database row, without subtree or attributes.
    pub fn from_raw(raw: &RawCategory) -> (c: Category)
        ensures
            c@ == raw_node(*raw),
    {
        let c = Category {
            id: raw.id,
            is_active: raw.is_active,
            name: raw.name.clone(),
            meta_field: copy_opt_text(&raw.meta_field),
            children: Vec::new(),
            level: raw.level,
            parent_id: raw.parent_id,
            attributes: Vec::new(),
            slug: raw.slug.clone(),
        };
        assert(c@.children =~= Seq::<CategoryNode>::empty());
        assert(c@.attributes =~= Seq::<AttributeView>::empty());
        c
    }
}

/// The view of a database row as a category without subtree or attributes.
pub open spec fn raw_node(raw: RawCategory) -> CategoryNode {
    CategoryNode {
        id: raw.id,
        is_active: raw.is_active,
        name: raw.name@,
        meta_field: opt_text(raw.meta_field),
        children: Seq::empty(),
        level: raw.level,
        parent_id: raw.parent_id,
        attributes: Seq::empty(),
        slug: raw.slug@,
    }
}

/// Why a child cannot be placed under a category.
#[derive(Debug, PartialEq, Eq, Structural, Clone, Copy)]
pub struct LeafCategoryError {
    /// The category that was meant to be the parent.
    pub parent_id: CategoryId,
    /// The greatest level, which the parent already has.
    pub max_level: i32,
}

/// The level a new child of `parent_cat` gets, refused when the parent is
/// already at the deepest level.
pub fn get_child_category_level(parent_cat: &Category) -> (r: Result<i32, LeafCategoryError>)
    ensures
        parent_cat.level < MAX_LEVEL_NESTING ==> (r matches Ok(l) && l == parent_cat.level + 1),
        parent_cat.level >= MAX_LEVEL_NESTING ==> r == Err::<i32, LeafCategoryError>(
            LeafCategoryError { parent_id: parent_cat.id, max_level: MAX_LEVEL_NESTING },
        ),
{
    if parent_cat.level < MAX_LEVEL_NESTING {
        Ok(parent_cat.level + 1)
    } else {
        Err(LeafCategoryError { parent_id: parent_cat.id, max_level: MAX_LEVEL_NESTING })
    }
}

/// The first node, in pre-order, of the tree rooted at `node` that
/// satisfies `p`.
pub open spec fn find_first(node: CategoryNode, p: spec_fn(CategoryNode) -> bool) -> Option<CategoryNode>
    decreases node,
{
    if p(node) {
        Some(node)
    } else {
        find_first_list(node.children, p)
    }
}

/// The first node, in pre-order, satisfying `p` in a list of trees.
pub open spec fn find_first_list(s: Seq<CategoryNode>, p: spec_fn(CategoryNode) -> bool) -> Option<CategoryNode>
    decreases s,
{
    if s.len() == 0 {
        None
    } else {
        match find_first_list(s.drop_last(), p) {
            Some(n) => Some(n),
            None => find_first(s.last(), p),
        }
    }
}

/// If the search finds a node within the first `k` trees of a list, it
/// finds that node in the whole list.
pub proof fn lemma_find_first_list_prefix(s: Seq<CategoryNode>, k: int, p: spec_fn(CategoryNode) -> bool)
    requires
        0 <= k <= s.len(),
        find_first_list(s.take(k), p) is Some,
    ensures
        find_first_list(s, p) == find_first_list(s.take(k), p),
    decreases s.len() - k,
{
    if k < s.len() {
        assert(s.take(k + 1).drop_last() =~= s.take(k));
        lemma_find_first_list_prefix(s, k + 1, p);
    } else {
        assert(s.take(k) =~= s);
    }
}

/// Nodes with a given id.
pub open spec fn has_id(id: CategoryId) -> spec_fn(CategoryNode) -> bool {
    |n: CategoryNode| n.id == id
}

/// Nodes with a given slug.
pub open spec fn has_slug(slug: Seq<char>) -> spec_fn(CategoryNode) -> bool {
    |n: CategoryNode| n.slug == slug
}

/// Finds the first category, in pre-order, with id `cat_id` in the tree
/// rooted at `cat`.
pub fn get_category(cat: &Category, cat_id: CategoryId) -> (r: Option<Category>)
    ensures
        match r {
            Some(c) => find_first(cat@, has_id(cat_id)) == Some(c@),
            None => find_first(cat@, has_id(cat_id)) is None,
        },
    decreases cat,
{
    let ghost p = has_id(cat_id);
    if cat.id == cat_id {
        return Some(copy_category(cat));
    }
    proof {
        lemma_children_views(*cat);
    }
    let ghost kids = cat@.children;
    assert(find_first(cat@, p) == find_first_list(kids, p));
    let n = cat.children.len();
    let mut i: usize = 0;
    while i < n
        invariant
            p == has_id(cat_id),
            n == cat.children@.len(),
            kids == cat@.children,
            kids.len() == n,
            forall|j: int| 0 <= j < n ==> #[trigger] kids[j] == node_of(cat.children@[j]),
            i <= n,
            find_first(cat@, p) == find_first_list(kids, p),
            find_first_list(kids.take(i as int), p) is None,
        decreases n - i,
    {
        assert(kids.take(i as int + 1).drop_last() =~= kids.take(i as int));
        let found = get_category(&cat.children[i], cat_id);
        if found.is_some() {
            proof {
                assert(kids.take(i as int + 1).last() == kids[i as int]);
                assert(find_first_list(kids.take(i as int + 1), p) == find_first(kids[i as int], p));
                lemma_find_first_list_prefix(kids, i as int + 1, p);
            }
            return found;
        }
        i = i + 1;
    }
    assert(kids.take(n as int) =~= kids);
    None
}

/// Finds the first category, in pre-order, with slug `cat_slug` in the tree
/// rooted at `cat`.
pub fn get_category_by_slug(cat: &Category, cat_slug: &String) -> (r: Option<Category>)
    ensures
        match r {
            Some(c) => find_first(cat@, has_slug(cat_slug@)) == Some(c@),
            None => find_first(cat@, has_slug(cat_slug@)) is None,
        },
    decreases cat,
{
    let ghost p = has_slug(cat_slug@);
    if cat.slug == *cat_slug {
        return Some(copy_category(cat));
    }
    proof {
        lemma_children_views(*cat);
    }
    let ghost kids = cat@.children;
    assert(find_first(cat@, p) == find_first_list(kids, p));
    let n = cat.children.len();
    let mut i: usize = 0;
    while i < n
        invariant
            p == has_slug(cat_slug@),
            n == cat.children@.len(),
            kids == cat@.children,
            kids.len() == n,
            forall|j: int| 0 <= j < n ==> #[trigger] kids[j] == node_of(cat.children@[j]),
            i <= n,
            find_first(cat@, p) == find_first_list(kids, p),
            find_first_list(kids.take(i as int), p) is None,
        decreases n - i,
    {
        assert(kids.take(i as int + 1).drop_last() =~= kids.take(i as int));
        let found = get_category_by_slug(&cat.children[i], cat_slug);
        if found.is_some() {
            proof {
                assert(kids.take(i as int + 1).last() == kids[i as int]);
                assert(find_first_list(kids.take(i as int + 1), p) == find_first(kids[i as int], p));
                lemma_find_first_list_prefix(kids, i as int + 1, p);
            }
            return found;
        }
        i = i + 1;
    }
    assert(kids.take(n as int) =~= kids);
    None
}

/// The ids of the tree rooted at `node`, in pre-order.
pub open spec fn preorder_ids(node: CategoryNode) -> Seq<CategoryId>
    decreases node,
{
    seq![node.id] + preorder_ids_list(node.children)
}

/// The ids of a list of trees, in pre-order.
pub open spec fn preorder_ids_list(s: Seq<CategoryNode>) -> Seq<CategoryId>
    decreases s,
{
    if s.len() == 0 {
        Seq::empty()
    } else {
        preorder_ids_list(s.drop_last()) + preorder_ids(s.last())
    }
}

/// Appends the ids of the tree rooted at `category`, in pre-order.
fn add_ids(category: &Category, ids: &mut Vec<CategoryId>)
    ensures
        final(ids)@ == old(ids)@ + preorder_ids(category@),
    decreases category,
{
    let ghost start = ids@;
    ids.push(category.id);
    proof {
        lemma_children_views(*category);
    }
    let ghost kids = category@.children;
    let n = category.children.len();
    let mut i: usize = 0;
    while i < n
        invariant
            n == category.children@.len(),
            kids == category@.children,
            kids.len() == n,
            forall|j: int| 0 <= j < n ==> #[trigger] kids[j] == node_of(category.children@[j]),
            i <= n,
            ids@ == start + seq![category.id] + preorder_ids_list(kids.take(i as int)),
        decreases n - i,
    {
        assert(kids.take(i as int + 1).drop_last() =~= kids.take(i as int));
        assert(kids.take(i as int + 1).last() == kids[i as int]);
        add_ids(&category.children[i], ids);
        assert(ids@ =~= start + seq![category.id] + preorder_ids_list(kids.take(i as int + 1)));
        i = i + 1;
    }
    assert(kids.take(n as int) =~= kids);
    assert(ids@ =~= start + preorder_ids(category@));
}

/// The ids of `category` and of every category below it, in pre-order.
pub fn category_and_children_ids(category: &Category) -> (ids: Vec<CategoryId>)
    ensures
        ids@ == preorder_ids(category@),
{
    let mut ids = Vec::new();
    add_ids(category, &mut ids);
    assert(ids@ =~= preorder_ids(category@));
    ids
}

/// The leaves of the tree rooted at `node`, left to right.
pub open spec fn leaves(node: CategoryNode) -> Seq<CategoryNode>
    decreases node,
{
    if node.children.len() == 0 {
        seq![node]
    } else {
        leaves_list(node.children)
    }
}

/// The leaves of a list of trees, left to right.
pub open spec fn leaves_list(s: Seq<CategoryNode>) -> Seq<CategoryNode>
    decreases s,
{
    if s.len() == 0 {
        Seq::empty()
    } else {
        leaves_list(s.drop_last()) + leaves(s.last())
    }
}

/// The leaf categories of the tree rooted at `cat`, left to right (the
/// category itself when it has no children).
pub fn get_all_children_till_the_end(cat: Category) -> (kids: Vec<Category>)
    ensures
        node_views(kids@) == leaves(cat@),
    decreases cat,
{
    proof {
        lemma_children_views(cat);
    }
    let ghost whole = cat@;
    if cat.children.len() == 0 {
        let kids = vec![cat];
        assert(node_views(kids@) =~= leaves(whole));
        return kids;
    }
    let ghost kids_view = whole.children;
    let ghost children_vec = cat.children@;
    let mut kids: Vec<Category> = Vec::new();
    for cat_child in it: cat.children.into_iter()
        invariant
            it.seq() == children_vec,
            children_vec == cat.children@,
            kids_view == whole.children,
            kids_view.len() == children_vec.len(),
            forall|j: int| 0 <= j < children_vec.len() ==> #[trigger] kids_view[j] == node_of(children_vec[j]),
            node_views(kids@) == leaves_list(kids_view.take(it.index() as int)),
    {
        let ghost k = it.index() as int;
        assert(cat_child == children_vec[k]);
        assert(kids_view.take(k + 1).drop_last() =~= kids_view.take(k));
        assert(kids_view.take(k + 1).last() == kids_view[k]);
        let mut children_kids = get_all_children_till_the_end(cat_child);
        kids.append(&mut children_kids);
        assert(node_views(kids@) =~= leaves_list(kids_view.take(k + 1)));
    }
    assert(kids_view.take(children_vec.len() as int) =~= kids_view);
    kids
}

/// Whether `id` is among `ids`.
pub fn contains_id(ids: &[CategoryId], id: CategoryId) -> (r: bool)
    ensures
        r == ids@.contains(id),
{
    let n = ids.len();
    let mut i: usize = 0;
    while i < n
        invariant
            n == ids@.len(),
            i <= n,
            forall|j: int| 0 <= j < i ==> ids@[j] != id,
        decreases n - i,
    {
        if ids[i] == id {
            assert(ids@[i as int] == id);
            return true;
        }
        i = i + 1;
    }
    false
}

/// The tree rooted at `node` cut down to the branches that lead to a used
/// category: a used child is kept whole, an unused child is kept, pruned in
/// turn, only while something below it is kept.
pub open spec fn prune_unused(node: CategoryNode, used: Seq<CategoryId>) -> CategoryNode
    decreases node,
{
    CategoryNode {
        id: node.id,
        is_active: node.is_active,
        name: node.name,
        meta_field: node.meta_field,
        children: prune_unused_list(node.children, used),
        level: node.level,
        parent_id: node.parent_id,
        attributes: node.attributes,
        slug: node.slug,
    }
}

/// [`prune_unused`] over a list of children.
pub open spec fn prune_unused_list(s: Seq<CategoryNode>, used: Seq<CategoryId>) -> Seq<CategoryNode>
    decreases s,
{
    if s.len() == 0 {
        Seq::empty()
    } else {
        let rest = prune_unused_list(s.drop_last(), used);
        let c = s.last();
        if used.contains(c.id) {
            rest.push(c)
        } else {
            let pruned = prune_unused(c, used);
            if pruned.children.len() > 0 {
                rest.push(pruned)
            } else {
                rest
            }
        }
    }
}

/// Keeps only the branches of `cat` that lead to a category in
/// `used_categories_ids`.
pub fn remove_unused_categories(cat: Category, used_categories_ids: &[CategoryId]) -> (r: Category)
    ensures
        r@ == prune_unused(cat@, used_categories_ids@),
    decreases cat,
{
    proof {
        lemma_children_views(cat);
    }
    let ghost whole = cat@;
    let ghost used = used_categories_ids@;
    let ghost kids_view = whole.children;
    let ghost children_vec = cat.children@;
    let mut kept: Vec<Category> = Vec::new();
    for cat_child in it: cat.children.into_iter()
        invariant
            it.seq() == children_vec,
            children_vec == cat.children@,
            kids_view.len() == children_vec.len(),
            forall|j: int| 0 <= j < children_vec.len() ==> #[trigger] kids_view[j] == node_of(children_vec[j]),
            used == used_categories_ids@,
            node_views(kept@) == prune_unused_list(kids_view.take(it.index() as int), used),
    {
        let ghost k = it.index() as int;
        assert(cat_child == children_vec[k]);
        assert(kids_view.take(k + 1).drop_last() =~= kids_view.take(k));
        assert(kids_view.take(k + 1).last() == kids_view[k]);
        if contains_id(used_categories_ids, cat_child.id) {
            kept.push(cat_child);
            assert(node_views(kept@) =~= prune_unused_list(kids_view.take(k + 1), used));
        } else {
            let new_cat = remove_unused_categories(cat_child, used_categories_ids);
            proof {
                lemma_children_views(new_cat);
            }
            if new_cat.children.len() > 0 {
                kept.push(new_cat);
                assert(node_views(kept@) =~= prune_unused_list(kids_view.take(k + 1), used));
            } else {
                assert(node_views(kept@) =~= prune_unused_list(kids_view.take(k + 1), used));
            }
        }
    }
    assert(kids_view.take(children_vec.len() as int) =~= kids_view);
    let r = Category {
        id: cat.id,
        is_active: cat.is_active,
        name: cat.name,
        meta_field: cat.meta_field,
        children: kept,
        level: cat.level,
        parent_id: cat.parent_id,
        attributes: cat.attributes,
        slug: cat.slug,
    };
    proof {
        lemma_children_views(r);
    }
    assert(r@ =~= prune_unused(whole, used));
    r
}

/// The tree rooted at `node` without branches that end above the deepest
/// level: a child is kept, pruned in turn, while it still has children or is
/// itself at [`MAX_LEVEL_NESTING`].
pub open spec fn prune_empty(node: CategoryNode) -> CategoryNode
    decreases node,
{
    CategoryNode {
        id: node.id,
        is_active: node.is_active,
        name: node.name,
        meta_field: node.meta_field,
        children: prune_empty_list(node.children),
        level: node.level,
        parent_id: node.parent_id,
        attributes: node.attributes,
        slug: node.slug,
    }
}

/// [`prune_empty`] over a list of children.
pub open spec fn prune_empty_list(s: Seq<CategoryNode>) -> Seq<CategoryNode>
    decreases s,
{
    if s.len() == 0 {
        Seq::empty()
    } else {
        let rest = prune_empty_list(s.drop_last());
        let pruned = prune_empty(s.last());
        if pruned.children.len() > 0 || pruned.level == MAX_LEVEL_NESTING {
            rest.push(pruned)
        } else {
            rest
        }
    }
}

/// Drops the branches of `cat` that end before reaching the deepest level.
pub fn remove_empty_children_categories(cat: Category) -> (r: Category)
    ensures
        r@ == prune_empty(cat@),
    decreases cat,
{
    proof {
        lemma_children_views(cat);
    }
    let ghost whole = cat@;
    let ghost kids_view = whole.children;
    let ghost children_vec = cat.children@;
    let mut kept: Vec<Category> = Vec::new();
    for cat_child in it: cat.children.into_iter()
        invariant
            it.seq() == children_vec,
            children_vec == cat.children@,
            kids_view.len() == children_vec.len(),
            forall|j: int| 0 <= j < children_vec.len() ==> #[trigger] kids_view[j] == node_of(children_vec[j]),
            node_views(kept@) == prune_empty_list(kids_view.take(it.index() as int)),
    {
        let ghost k = it.index() as int;
        assert(cat_child == children_vec[k]);
        assert(kids_view.take(k + 1).drop_last() =~= kids_view.take(k));
        assert(kids_view.take(k + 1).last() == kids_view[k]);
        let new_cat = remove_empty_children_categories(cat_child);
        proof {
            lemma_children_views(new_cat);
        }
        if new_cat.children.len() > 0 || new_cat.level == MAX_LEVEL_NESTING {
            kept.push(new_cat);
        }
        assert(node_views(kept@) =~= prune_empty_list(kids_view.take(k + 1)));
    }
    assert(kids_view.take(children_vec.len() as int) =~= kids_view);
    let r = Category {
        id: cat.id,
        is_active: cat.is_active,
        name: cat.name,
        meta_field: cat.meta_field,
        children: kept,
        level: cat.level,
        parent_id: cat.parent_id,
        attributes: cat.attributes,
        slug: cat.slug,
    };
    proof {
        lemma_children_views(r);
    }
    assert(r@ =~= prune_empty(whole));
    r
}

/// Number of edges on the longest downward path from `node`.
pub open spec fn height(node: CategoryNode) -> nat
    decreases node,
{
    if node.children.len() == 0 {
        0
    } else {
        1 + height_list(node.children)
    }
}

/// Greatest [`height`] in a list of trees (0 for an empty list).
pub open spec fn height_list(s: Seq<CategoryNode>) -> nat
    decreases s,
{
    if s.len() == 0 {
        0
    } else {
        let a = height_list(s.drop_last());
        let b = height(s.last());
        if a >= b {
            a
        } else {
            b
        }
    }
}

/// Every tree of a list is at most as high as the list's [`height_list`].
pub proof fn lemma_height_list_bounds(s: Seq<CategoryNode>, i: int)
    requires
        0 <= i < s.len(),
    ensures
        height(s[i]) <= height_list(s),
    decreases s.len(),
{
    if i < s.len() - 1 {
        assert(s.drop_last()[i] == s[i]);
        lemma_height_list_bounds(s.drop_last(), i);
    }
}

/// Whether counting down `stack_level` by one per level, starting at `node`,
/// stays within `i32`: either the count starts at zero or above, or it is
/// deep enough below zero to outlast the tree.
pub open spec fn level_count_fits(node: CategoryNode, stack_level: i32) -> bool {
    stack_level >= 0 || stack_level - height(node) >= i32::MIN
}

/// Lowering the count for a child of a node keeps it within `i32`.
proof fn lemma_level_count_fits_child(node: CategoryNode, stack_level: i32, i: int)
    requires
        level_count_fits(node, stack_level),
        stack_level != 0,
        0 <= i < node.children.len(),
    ensures
        stack_level - 1 >= i32::MIN,
        level_count_fits(node.children[i], (stack_level - 1) as i32),
{
    lemma_height_list_bounds(node.children, i);
}

/// The tree rooted at `node` cut `k` levels below it: the nodes `k` levels
/// down lose their children.
pub open spec fn clear_below(node: CategoryNode, k: int) -> CategoryNode
    decreases node,
{
    CategoryNode {
        id: node.id,
        is_active: node.is_active,
        name: node.name,
        meta_field: node.meta_field,
        children: if k == 0 {
            Seq::empty()
        } else {
            clear_below_list(node.children, k - 1)
        },
        level: node.level,
        parent_id: node.parent_id,
        attributes: node.attributes,
        slug: node.slug,
    }
}

/// [`clear_below`] over a list of children.
pub open spec fn clear_below_list(s: Seq<CategoryNode>, k: int) -> Seq<CategoryNode>
    decreases s,
{
    if s.len() == 0 {
        Seq::empty()
    } else {
        clear_below_list(s.drop_last(), k).push(clear_below(s.last(), k))
    }
}

/// Cuts the tree rooted at `cat` `stack_level` levels below it.
pub fn clear_child_categories(cat: Category, stack_level: i32) -> (r: Category)
    requires
        level_count_fits(cat@, stack_level),
    ensures
        r@ == clear_below(cat@, stack_level as int),
    decreases cat,
{
    proof {
        lemma_children_views(cat);
    }
    let ghost whole = cat@;
    let mut cats: Vec<Category> = Vec::new();
    if stack_level != 0 {
        let ghost kids_view = whole.children;
        let ghost children_vec = cat.children@;
        for cat_child in it: cat.children.into_iter()
            invariant
                it.seq() == children_vec,
                children_vec == cat.children@,
                kids_view == whole.children,
                level_count_fits(whole, stack_level),
                stack_level != 0,
                kids_view.len() == children_vec.len(),
                forall|j: int| 0 <= j < children_vec.len() ==> #[trigger] kids_view[j] == node_of(children_vec[j]),
                node_views(cats@) == clear_below_list(kids_view.take(it.index() as int), stack_level - 1),
        {
            let ghost k = it.index() as int;
            assert(cat_child == children_vec[k]);
            assert(kids_view.take(k + 1).drop_last() =~= kids_view.take(k));
            assert(kids_view.take(k + 1).last() == kids_view[k]);
            proof {
                lemma_level_count_fits_child(whole, stack_level, k);
            }
            let new_cat = clear_child_categories(cat_child, stack_level - 1);
            cats.push(new_cat);
            assert(node_views(cats@) =~= clear_below_list(kids_view.take(k + 1), stack_level - 1));
        }
        assert(kids_view.take(children_vec.len() as int) =~= kids_view);
        assert(node_views(cats@) == clear_below(whole, stack_level as int).children);
    } else {
        assert(node_views(cats@) =~= clear_below(whole, stack_level as int).children);
    }
    let r = Category {
        id: cat.id,
        is_active: cat.is_active,
        name: cat.name,
        meta_field: cat.meta_field,
        children: cats,
        level: cat.level,
        parent_id: cat.parent_id,
        attributes: cat.attributes,
        slug: cat.slug,
    };
    proof {
        lemma_children_views(r);
    }
    assert(r@ =~= clear_below(whole, stack_level as int));
    r
}

/// Whether a node `k` levels below `node` (or `node` itself when `k` is 0)
/// has id `id`.
pub open spec fn reaches(node: CategoryNode, id: CategoryId, k: int) -> bool
    decreases node,
{
    if k != 0 {
        reaches_list(node.children, id, k - 1)
    } else {
        node.id == id
    }
}

/// Whether one of the trees of a list [`reaches`] `id` at depth `k`.
pub open spec fn reaches_list(s: Seq<CategoryNode>, id: CategoryId, k: int) -> bool
    decreases s,
{
    if s.len() == 0 {
        false
    } else {
        reaches_list(s.drop_last(), id, k) || reaches(s.last(), id, k)
    }
}

/// Once one tree of a prefix of a list reaches `id`, so does the list.
proof fn lemma_reaches_list_prefix(s: Seq<CategoryNode>, j: int, id: CategoryId, k: int)
    requires
        0 <= j <= s.len(),
        reaches_list(s.take(j), id, k),
    ensures
        reaches_list(s, id, k),
    decreases s.len() - j,
{
    if j < s.len() {
        assert(s.take(j + 1).drop_last() =~= s.take(j));
        lemma_reaches_list_prefix(s, j + 1, id, k);
    } else {
        assert(s.take(j) =~= s);
    }
}

/// `cat` itself when the category `child_id` lies `stack_level` levels below
/// it (or is `cat` when `stack_level` is 0).
pub fn get_parent_category(cat: &Category, child_id: CategoryId, stack_level: i32) -> (r: Option<Category>)
    requires
        level_count_fits(cat@, stack_level),
    ensures
        match r {
            Some(c) => c@ == cat@ && reaches(cat@, child_id, stack_level as int),
            None => !reaches(cat@, child_id, stack_level as int),
        },
    decreases cat,
{
    if stack_level != 0 {
        proof {
            lemma_children_views(*cat);
        }
        let ghost kids = cat@.children;
        let n = cat.children.len();
        let mut i: usize = 0;
        while i < n
            invariant
                n == cat.children@.len(),
                kids == cat@.children,
                kids.len() == n,
                forall|j: int| 0 <= j < n ==> #[trigger] kids[j] == node_of(cat.children@[j]),
                level_count_fits(cat@, stack_level),
                stack_level != 0,
                i <= n,
                !reaches_list(kids.take(i as int), child_id, stack_level - 1),
            decreases n - i,
        {
            assert(kids.take(i as int + 1).drop_last() =~= kids.take(i as int));
            assert(kids.take(i as int + 1).last() == kids[i as int]);
            proof {
                lemma_level_count_fits_child(cat@, stack_level, i as int);
            }
            let found = get_parent_category(&cat.children[i], child_id, stack_level - 1);
            if found.is_some() {
                proof {
                    lemma_reaches_list_prefix(kids, i as int + 1, child_id, stack_level - 1);
                }
                return Some(copy_category(cat));
            }
            i = i + 1;
        }
        assert(kids.take(n as int) =~= kids);
        None
    } else if cat.id == child_id {
        Some(copy_category(cat))
    } else {
        None
    }
}

/// The rows of `s` whose parent is `parent`, in order.
pub open spec fn child_rows(s: Seq<RawCategory>, parent: Option<CategoryId>) -> Seq<RawCategory>
    decreases s.len(),
{
    if s.len() == 0 {
        Seq::empty()
    } else if s.last().parent_id == parent {
        child_rows(s.drop_last(), parent).push(s.last())
    } else {
        child_rows(s.drop_last(), parent)
    }
}

/// Whether `node` carries the data of `row` (its subtree and attributes
/// aside).
pub open spec fn node_from_row(node: CategoryNode, row: RawCategory) -> bool {
    &&& node.id == row.id
    &&& node.is_active == row.is_active
    &&& node.name == row.name@
    &&& node.meta_field == opt_text(row.meta_field)
    &&& node.level == row.level
    &&& node.parent_id == row.parent_id
    &&& node.attributes.len() == 0
    &&& node.slug == row.slug@
}

/// Whether `nodes` is the forest that `rows` define below `parent`: one node
/// per row whose parent is `parent`, in row order, each carrying the row's
/// data and, as children, the forest below its own id.
pub open spec fn is_forest(rows: Seq<RawCategory>, parent: Option<CategoryId>, nodes: Seq<CategoryNode>) -> bool
    decreases nodes,
{
    let m = child_rows(rows, parent);
    &&& nodes.len() == m.len()
    &&& forall|k: int|
        0 <= k < nodes.len() ==> node_from_row(#[trigger] nodes[k], m[k]) && is_forest(
            rows,
            Some(m[k].id),
            nodes[k].children,
        )
}

/// Whether `rank` orders the rows so that every parent ranks below its
/// children, with ranks between 0 and the number of rows.
pub open spec fn ranks_rows(rows: Seq<RawCategory>, rank: spec_fn(CategoryId) -> int) -> bool {
    &&& forall|i: int| 0 <= i < rows.len() ==> 0 <= #[trigger] rank(rows[i].id) <= rows.len()
    &&& forall|i: int, j: int|
        #![trigger rows[i], rows[j]]
        0 <= i < rows.len() && 0 <= j < rows.len() && rows[i].parent_id == Some(rows[j].id) ==> rank(
            rows[j].id,
        ) < rank(rows[i].id)
}

/// Whether following parent links among the rows never leads in a circle
/// (equivalently, the rows can be ranked parents first).
pub open spec fn parent_links_acyclic(rows: Seq<RawCategory>) -> bool {
    exists|rank: spec_fn(CategoryId) -> int| ranks_rows(rows, rank)
}

/// Whether two optional ids are equal.
pub fn opt_id_equal(a: Option<CategoryId>, b: Option<CategoryId>) -> (r: bool)
    ensures
        r == (a == b),
{
    match (a, b) {
        (Some(x), Some(y)) => x.0 == y.0,
        (None, None) => true,
        _ => false,
    }
}

/// Whether the rank of every row (kept in `r`, one per row) puts parents
/// strictly below children and gives rows with the same id the same rank.
pub open spec fn consistent_ranks(rows: Seq<RawCategory>, r: Seq<usize>) -> bool {
    &&& r.len() == rows.len()
    &&& forall|i: int| 0 <= i < rows.len() ==> #[trigger] r[i] <= rows.len()
    &&& forall|i: int, j: int|
        #![trigger rows[i], rows[j]]
        0 <= i < rows.len() && 0 <= j < rows.len() && rows[i].parent_id == Some(rows[j].id) ==> r[j] < r[i]
    &&& forall|i: int, j: int|
        #![trigger rows[i], rows[j]]
        0 <= i < rows.len() && 0 <= j < rows.len() && rows[i].id == rows[j].id ==> r[i] == r[j]
}

/// Consistent ranks of the rows show that their parent links form no
/// circle.
proof fn lemma_consistent_ranks_acyclic(rows: Seq<RawCategory>, r: Seq<usize>)
    requires
        consistent_ranks(rows, r),
    ensures
        parent_links_acyclic(rows),
{
    let rank = |id: CategoryId|
        if exists|k: int| 0 <= k < rows.len() && rows[k].id == id {
            r[choose|k: int| 0 <= k < rows.len() && rows[k].id == id] as int
        } else {
            0
        };
    assert forall|i: int| 0 <= i < rows.len() implies rank(#[trigger] rows[i].id) == r[i] as int by {
        assert(rows[i].id == rows[i].id);
        let k = choose|k: int| 0 <= k < rows.len() && rows[k].id == rows[i].id;
        assert(rows[k] == rows[k] && rows[i] == rows[i]);
    }
    assert forall|i: int, j: int|
        #![trigger rows[i], rows[j]]
        0 <= i < rows.len() && 0 <= j < rows.len() && rows[i].parent_id == Some(rows[j].id) implies rank(
            rows[j].id,
        ) < rank(rows[i].id) by {
        assert(rank(rows[j].id) == r[j] as int);
        assert(rows[i] == rows[i] && rows[j] == rows[j]);
    }
    assert(ranks_rows(rows, rank));
}

/// Whether the parent links of `cats` can be ranked parents first, found by
/// raising the rank of each row above that of its parent rows until nothing
/// changes (as many rounds as rows). A `true` answer guarantees that the
/// links form no circle, as [`create_tree`] requires.
pub fn parent_links_are_acyclic(cats: &[RawCategory]) -> (r: bool)
    ensures
        r ==> parent_links_acyclic(cats@),
{
    let n = cats.len();
    let mut rank: Vec<usize> = Vec::new();
    for k in 0..n
        invariant
            rank@.len() == k,
            forall|i: int| 0 <= i < k ==> #[trigger] rank@[i] <= n,
    {
        rank.push(0);
    }
    for _round in 0..n
        invariant
            n == cats@.len(),
            rank@.len() == n,
            forall|i: int| 0 <= i < n ==> #[trigger] rank@[i] <= n,
    {
        for i in 0..n
            invariant
                n == cats@.len(),
                rank@.len() == n,
                forall|k: int| 0 <= k < n ==> #[trigger] rank@[k] <= n,
        {
            for j in 0..n
                invariant
                    n == cats@.len(),
                    i < n,
                    rank@.len() == n,
                    forall|k: int| 0 <= k < n ==> #[trigger] rank@[k] <= n,
            {
                if opt_id_equal(cats[i].parent_id, Some(cats[j].id)) && rank[i] <= rank[j] {
                    let raised = if rank[j] < n {
                        rank[j] + 1
                    } else {
                        n
                    };
                    rank.set(i, raised);
                }
                if cats[i].id == cats[j].id && rank[i] < rank[j] {
                    let same = rank[j];
                    rank.set(i, same);
                }
            }
        }
    }
    for i in 0..n
        invariant
            n == cats@.len(),
            rank@.len() == n,
            forall|k: int| 0 <= k < n ==> #[trigger] rank@[k] <= n,
            forall|a: int, b: int|
                #![trigger cats@[a], cats@[b]]
                0 <= a < i && 0 <= b < n && cats@[a].parent_id == Some(cats@[b].id) ==> rank@[b] < rank@[a],
            forall|a: int, b: int|
                #![trigger cats@[a], cats@[b]]
                0 <= a < i && 0 <= b < n && cats@[a].id == cats@[b].id ==> rank@[a] == rank@[b],
    {
        for j in 0..n
            invariant
                n == cats@.len(),
                i < n,
                rank@.len() == n,
                forall|k: int| 0 <= k < n ==> #[trigger] rank@[k] <= n,
                forall|a: int, b: int|
                    #![trigger cats@[a], cats@[b]]
                    0 <= a < i && 0 <= b < n && cats@[a].parent_id == Some(cats@[b].id) ==> rank@[b] < rank@[a],
                forall|a: int, b: int|
                    #![trigger cats@[a], cats@[b]]
                    0 <= a < i && 0 <= b < n && cats@[a].id == cats@[b].id ==> rank@[a] == rank@[b],
                forall|b: int|
                    #![trigger cats@[b]]
                    0 <= b < j && cats@[i as int].parent_id == Some(cats@[b].id) ==> rank@[b] < rank@[i as int],
                forall|b: int|
                    #![trigger cats@[b]]
                    0 <= b < j && cats@[i as int].id == cats@[b].id ==> rank@[i as int] == rank@[b],
        {
            if opt_id_equal(cats[i].parent_id, Some(cats[j].id)) && rank[j] >= rank[i] {
                return false;
            }
            if cats[i].id == cats[j].id && rank[i] != rank[j] {
                return false;
            }
        }
    }
    proof {
        assert(consistent_ranks(cats@, rank@));
        lemma_consistent_ranks_acyclic(cats@, rank@);
    }
    true
}

/// The forest below `parent_id_arg`, for rows ranked by `rank` where every
/// row under `parent_id_arg` ranks above `lo`.
fn create_tree_below(
    cats: &[RawCategory],
    parent_id_arg: Option<CategoryId>,
    Ghost(rank): Ghost<spec_fn(CategoryId) -> int>,
    Ghost(lo): Ghost<int>,
) -> (branch: Vec<Category>)
    requires
        ranks_rows(cats@, rank),
        -1 <= lo <= cats@.len(),
        forall|i: int|
            0 <= i < cats@.len() && #[trigger] cats@[i].parent_id == parent_id_arg ==> rank(cats@[i].id) > lo,
    ensures
        is_forest(cats@, parent_id_arg, node_views(branch@)),
    decreases cats@.len() + 1 - lo,
{
    let ghost rows = cats@;
    let mut branch: Vec<Category> = Vec::new();
    let n = cats.len();
    let mut i: usize = 0;
    while i < n
        invariant
            n == rows.len(),
            rows == cats@,
            ranks_rows(rows, rank),
            -1 <= lo <= rows.len(),
            forall|i: int| 0 <= i < rows.len() && #[trigger] rows[i].parent_id == parent_id_arg ==> rank(rows[i].id) > lo,
            i <= n,
            branch@.len() == child_rows(rows.take(i as int), parent_id_arg).len(),
            forall|k: int|
                0 <= k < branch@.len() ==> node_from_row(
                    #[trigger] node_of(branch@[k]),
                    child_rows(rows.take(i as int), parent_id_arg)[k],
                ) && is_forest(
                    rows,
                    Some(child_rows(rows.take(i as int), parent_id_arg)[k].id),
                    node_of(branch@[k]).children,
                ),
        decreases n - i,
    {
        let ghost before = child_rows(rows.take(i as int), parent_id_arg);
        assert(rows.take(i as int + 1).drop_last() =~= rows.take(i as int));
        assert(rows.take(i as int + 1).last() == rows[i as int]);
        let cat = &cats[i];
        if opt_id_equal(cat.parent_id, parent_id_arg) {
            let ghost here = rank(cat.id);
            assert(here > lo);
            assert(here <= rows.len());
            assert forall|d: int|
                0 <= d < rows.len() && #[trigger] rows[d].parent_id == Some(cat.id) implies rank(rows[d].id) > here by {
                assert(rows[d].parent_id == Some(rows[i as int].id));
            }
            let childs = create_tree_below(cats, Some(cat.id), Ghost(rank), Ghost(here));
            let mut cat_tree = Category::from_raw(cat);
            cat_tree.children = childs;
            proof {
                lemma_children_views(cat_tree);
                assert(node_of(cat_tree).children =~= node_views(childs@));
            }
            let ghost prev = branch@;
            branch.push(cat_tree);
            assert(child_rows(rows.take(i as int + 1), parent_id_arg) == before.push(rows[i as int]));
            assert forall|k: int| 0 <= k < branch@.len() implies node_from_row(
                #[trigger] node_of(branch@[k]),
                child_rows(rows.take(i as int + 1), parent_id_arg)[k],
            ) && is_forest(
                rows,
                Some(child_rows(rows.take(i as int + 1), parent_id_arg)[k].id),
                node_of(branch@[k]).children,
            ) by {
                if k < branch@.len() - 1 {
                    assert(branch@[k] == prev[k]);
                    assert(node_from_row(node_of(prev[k]), before[k]));
                }
            }
        } else {
            assert(child_rows(rows.take(i as int + 1), parent_id_arg) == before);
        }
        i = i + 1;
    }
    assert(rows.take(n as int) =~= rows);
    assert(node_views(branch@).len() == branch@.len());
    assert forall|k: int| 0 <= k < branch@.len() implies #[trigger] node_views(branch@)[k] == node_of(branch@[k]) by {}
    branch
}

/// The forest that `cats` define below `parent_id_arg`: one category per row
/// whose parent is `parent_id_arg`, in row order, each with the forest below
/// it as children. The parent links must not form a circle (the walk down
/// would never end).
pub fn create_tree(cats: &[RawCategory], parent_id_arg: Option<CategoryId>) -> (branch: Vec<Category>)
    requires
        parent_links_acyclic(cats@),
    ensures
        is_forest(cats@, parent_id_arg, node_views(branch@)),
{
    let ghost rank = choose|rank: spec_fn(CategoryId) -> int| ranks_rows(cats@, rank);
    create_tree_below(cats, parent_id_arg, Ghost(rank), Ghost(-1))
}

/// The rows determine their forest: two forests built from the same rows
/// below the same parent are equal.
pub proof fn lemma_forest_unique(
    rows: Seq<RawCategory>,
    parent: Option<CategoryId>,
    a: Seq<CategoryNode>,
    b: Seq<CategoryNode>,
)
    requires
        is_forest(rows, parent, a),
        is_forest(rows, parent, b),
    ensures
        a == b,
    decreases a,
{
    let m = child_rows(rows, parent);
    assert forall|k: int| 0 <= k < a.len() implies a[k] == b[k] by {
        assert(node_from_row(a[k], m[k]));
        assert(node_from_row(b[k], m[k]));
        lemma_forest_unique(rows, Some(m[k].id), a[k].children, b[k].children);
        assert(a[k].attributes =~= b[k].attributes);
        assert(a[k] =~= b[k]);
    }
    assert(a =~= b);
}

/// The tree rooted at `node` with attributes looked up for its leaves in
/// `attrs` (empty when the leaf's id is absent); inner nodes keep theirs.
pub open spec fn with_leaf_attributes(node: CategoryNode, attrs: Map<i32, Seq<AttributeView>>) -> CategoryNode
    decreases node,
{
    if node.children.len() == 0 {
        CategoryNode {
            attributes: if attrs.contains_key(node.id.0) {
                attrs[node.id.0]
            } else {
                Seq::empty()
            },
            ..node
        }
    } else {
        CategoryNode { children: with_leaf_attributes_list(node.children, attrs), ..node }
    }
}

/// [`with_leaf_attributes`] over a list of trees.
pub open spec fn with_leaf_attributes_list(s: Seq<CategoryNode>, attrs: Map<i32, Seq<AttributeView>>) -> Seq<
    CategoryNode,
>
    decreases s,
{
    if s.len() == 0 {
        Seq::empty()
    } else {
        with_leaf_attributes_list(s.drop_last(), attrs).push(with_leaf_attributes(s.last(), attrs))
    }
}

/// The attribute views of a table from category ids to attribute lists.
pub open spec fn attribute_table(m: Map<i32, Vec<Attribute>>) -> Map<i32, Seq<AttributeView>> {
    m.map_values(|v: Vec<Attribute>| attribute_views(v@))
}

/// Gives every leaf of `cat` the attributes that `attrs_hash` holds for its
/// id (none when the id is absent).
pub fn set_attributes(cat: &mut Category, attrs_hash: &HashMap<i32, Vec<Attribute>>)
    ensures
        final(cat)@ == with_leaf_attributes(old(cat)@, attribute_table(attrs_hash@)),
    decreases *old(cat),
{
    proof {
        lemma_children_views(*cat);
    }
    let ghost start = cat@;
    let ghost orig = *cat;
    let ghost table = attribute_table(attrs_hash@);
    if cat.children.len() == 0 {
        let attributes = match attrs_hash.get(&cat.id.0) {
            Some(v) => copy_attributes(v),
            None => Vec::new(),
        };
        cat.attributes = attributes;
        proof {
            lemma_children_views(*cat);
        }
        assert(cat@ =~= with_leaf_attributes(start, table));
    } else {
        let mut kids: Vec<Category> = Vec::new();
        std::mem::swap(&mut kids, &mut cat.children);
        let ghost kids_view = start.children;
        let ghost children_vec = kids@;
        let mut done: Vec<Category> = Vec::new();
        assert(children_vec == orig.children@);
        for child in it: kids.into_iter()
            invariant
                it.seq() == children_vec,
                children_vec == orig.children@,
                orig == *old(cat),
                kids_view.len() == children_vec.len(),
                forall|j: int| 0 <= j < children_vec.len() ==> #[trigger] kids_view[j] == node_of(children_vec[j]),
                table == attribute_table(attrs_hash@),
                node_views(done@) == with_leaf_attributes_list(kids_view.take(it.index() as int), table),
        {
            let ghost k = it.index() as int;
            assert(child == children_vec[k]);
            assert(kids_view.take(k + 1).drop_last() =~= kids_view.take(k));
            assert(kids_view.take(k + 1).last() == kids_view[k]);
            let mut c = child;
            set_attributes(&mut c, attrs_hash);
            done.push(c);
            assert(node_views(done@) =~= with_leaf_attributes_list(kids_view.take(k + 1), table));
        }
        assert(kids_view.take(children_vec.len() as int) =~= kids_view);
        cat.children = done;
        proof {
            lemma_children_views(*cat);
        }
        assert(cat@ =~= with_leaf_attributes(start, table));
    }
}

/// A node found by [`find_first`] satisfies the predicate searched for.
pub proof fn lemma_find_first_satisfies(node: CategoryNode, p: spec_fn(CategoryNode) -> bool)
    ensures
        find_first(node, p) matches Some(n) ==> p(n),
    decreases node,
{
    if !p(node) {
        lemma_find_first_list_satisfies(node.children, p);
    }
}

/// A node found by [`find_first_list`] satisfies the predicate searched for.
pub proof fn lemma_find_first_list_satisfies(s: Seq<CategoryNode>, p: spec_fn(CategoryNode) -> bool)
    ensures
        find_first_list(s, p) matches Some(n) ==> p(n),
    decreases s,
{
    if s.len() > 0 {
        lemma_find_first_list_satisfies(s.drop_last(), p);
        lemma_find_first_satisfies(s.last(), p);
    }
}

/// The category [`get_category`] finds has the id asked for, and the one
/// [`get_category_by_slug`] finds has the slug asked for.
pub proof fn lemma_found_category_matches(node: CategoryNode, id: CategoryId, slug: Seq<char>)
    ensures
        find_first(node, has_id(id)) matches Some(n) ==> n.id == id,
        find_first(node, has_slug(slug)) matches Some(n) ==> n.slug == slug,
{
    lemma_find_first_satisfies(node, has_id(id));
    lemma_find_first_satisfies(node, has_slug(slug));
}

/// Pruning keeps every used category that lies below the root.
pub proof fn lemma_prune_keeps_used(s: Seq<CategoryNode>, used: Seq<CategoryId>, id: CategoryId)
    requires
        used.contains(id),
        preorder_ids_list(s).contains(id),
    ensures
        preorder_ids_list(prune_unused_list(s, used)).contains(id),
    decreases s,
{
    if s.len() > 0 {
        let rest_src = s.drop_last();
        let last = s.last();
        let rest = prune_unused_list(rest_src, used);
        assert(preorder_ids_list(s) == preorder_ids_list(rest_src) + preorder_ids(last));
        if preorder_ids_list(rest_src).contains(id) {
            lemma_prune_keeps_used(rest_src, used, id);
            let pruned = prune_unused_list(s, used);
            if pruned != rest {
                let x = pruned.last();
                assert(pruned == rest.push(x));
                assert(pruned.drop_last() == rest);
                assert(preorder_ids_list(pruned) == preorder_ids_list(rest) + preorder_ids(x));
                let w = choose|w: int| 0 <= w < preorder_ids_list(rest).len() && preorder_ids_list(rest)[w] == id;
                assert(preorder_ids_list(pruned)[w] == id);
            }
        } else {
            let w = choose|w: int| 0 <= w < preorder_ids_list(s).len() && preorder_ids_list(s)[w] == id;
            let off = preorder_ids_list(rest_src).len() as int;
            assert(preorder_ids(last)[w - off] == id);
            assert(preorder_ids(last).contains(id));
            let pruned = prune_unused_list(s, used);
            if used.contains(last.id) {
                assert(pruned == rest.push(last));
                assert(pruned.drop_last() == rest);
                assert(preorder_ids_list(pruned) == preorder_ids_list(rest) + preorder_ids(last));
                let v = choose|v: int| 0 <= v < preorder_ids(last).len() && preorder_ids(last)[v] == id;
                assert(preorder_ids_list(pruned)[preorder_ids_list(rest).len() + v] == id);
            } else {
                assert(last.id != id);
                assert(preorder_ids(last) == seq![last.id] + preorder_ids_list(last.children));
                let v = choose|v: int| 0 <= v < preorder_ids(last).len() && preorder_ids(last)[v] == id;
                assert(preorder_ids_list(last.children)[v - 1] == id);
                lemma_prune_keeps_used(last.children, used, id);
                let x = prune_unused(last, used);
                assert(preorder_ids_list(x.children).contains(id));
                assert(x.children.len() > 0);
                assert(pruned == rest.push(x));
                assert(pruned.drop_last() == rest);
                assert(preorder_ids_list(pruned) == preorder_ids_list(rest) + preorder_ids(x));
                let u = choose|u: int| 0 <= u < preorder_ids_list(x.children).len() && preorder_ids_list(x.children)[u] == id;
                assert(preorder_ids(x)[u + 1] == id);
                assert(preorder_ids_list(pruned)[preorder_ids_list(rest).len() + u + 1] == id);
            }
        }
    }
}

/// Whether `id` occurs in `a + b`, by where it occurs.
proof fn lemma_concat_contains(a: Seq<CategoryId>, b: Seq<CategoryId>, id: CategoryId)
    ensures
        (a + b).contains(id) <==> (a.contains(id) || b.contains(id)),
{
    if (a + b).contains(id) {
        let w = choose|w: int| 0 <= w < (a + b).len() && (a + b)[w] == id;
        if w < a.len() {
            assert(a[w] == id);
        } else {
            assert(b[w - a.len()] == id);
        }
    }
    if a.contains(id) {
        let w = choose|w: int| 0 <= w < a.len() && a[w] == id;
        assert((a + b)[w] == id);
    }
    if b.contains(id) {
        let w = choose|w: int| 0 <= w < b.len() && b[w] == id;
        assert((a + b)[a.len() + w] == id);
    }
}

/// Pruning adds no category: every id of the pruned list occurs in the
/// original list.
pub proof fn lemma_prune_adds_nothing(s: Seq<CategoryNode>, used: Seq<CategoryId>, id: CategoryId)
    requires
        preorder_ids_list(prune_unused_list(s, used)).contains(id),
    ensures
        preorder_ids_list(s).contains(id),
    decreases s,
{
    if s.len() > 0 {
        let rest_src = s.drop_last();
        let last = s.last();
        let rest = prune_unused_list(rest_src, used);
        let pruned = prune_unused_list(s, used);
        lemma_concat_contains(preorder_ids_list(rest_src), preorder_ids(last), id);
        if pruned == rest {
            lemma_prune_adds_nothing(rest_src, used, id);
        } else {
            let x = pruned.last();
            assert(pruned.drop_last() == rest);
            lemma_concat_contains(preorder_ids_list(rest), preorder_ids(x), id);
            if preorder_ids_list(rest).contains(id) {
                lemma_prune_adds_nothing(rest_src, used, id);
            } else if !used.contains(last.id) {
                assert(x == prune_unused(last, used));
                lemma_concat_contains(seq![last.id], preorder_ids_list(x.children), id);
                lemma_concat_contains(seq![last.id], preorder_ids_list(last.children), id);
                if preorder_ids_list(x.children).contains(id) {
                    lemma_prune_adds_nothing(last.children, used, id);
                } else {
                    assert(seq![last.id][0] == last.id);
                }
            }
        }
    }
}

/// Every tree of a list at most `b` high makes the list at most `b` high.
proof fn lemma_height_list_at_most(s: Seq<CategoryNode>, b: nat)
    requires
        forall|i: int| 0 <= i < s.len() ==> height(#[trigger] s[i]) <= b,
    ensures
        height_list(s) <= b,
    decreases s.len(),
{
    if s.len() > 0 {
        assert forall|i: int| 0 <= i < s.drop_last().len() implies height(#[trigger] s.drop_last()[i]) <= b by {
            assert(s.drop_last()[i] == s[i]);
        }
        lemma_height_list_at_most(s.drop_last(), b);
    }
}

/// Cutting each tree of a list keeps the list's length.
proof fn lemma_clear_below_list_len(s: Seq<CategoryNode>, k: int)
    ensures
        clear_below_list(s, k).len() == s.len(),
    decreases s.len(),
{
    if s.len() > 0 {
        lemma_clear_below_list_len(s.drop_last(), k);
    }
}

/// The i-th tree of a cut list is the cut i-th tree.
proof fn lemma_clear_below_list_index(s: Seq<CategoryNode>, k: int, i: int)
    requires
        0 <= i < s.len(),
    ensures
        clear_below_list(s, k).len() == s.len(),
        clear_below_list(s, k)[i] == clear_below(s[i], k),
    decreases s.len(),
{
    lemma_clear_below_list_len(s, k);
    lemma_clear_below_list_len(s.drop_last(), k);
    if i < s.len() - 1 {
        assert(s.drop_last()[i] == s[i]);
        lemma_clear_below_list_index(s.drop_last(), k, i);
    }
}

/// Cutting a tree `k` levels below its root leaves it at most `k` high.
pub proof fn lemma_clear_bounds_height(node: CategoryNode, k: int)
    requires
        k >= 0,
    ensures
        height(clear_below(node, k)) <= k,
    decreases node,
{
    if k > 0 {
        let cut = clear_below_list(node.children, k - 1);
        if node.children.len() > 0 {
            lemma_clear_below_list_index(node.children, k - 1, 0);
        }
        assert forall|i: int| 0 <= i < cut.len() implies height(#[trigger] cut[i]) <= (k - 1) as nat by {
            lemma_clear_below_list_index(node.children, k - 1, i);
            lemma_clear_bounds_height(node.children[i], k - 1);
        }
        lemma_height_list_at_most(cut, (k - 1) as nat);
    }
}

/// Cutting a tree that was already cut at the same depth changes nothing.
pub proof fn lemma_clear_idempotent(node: CategoryNode, k: int)
    requires
        k >= 0,
    ensures
        clear_below(clear_below(node, k), k) == clear_below(node, k),
    decreases node,
{
    if k > 0 {
        let cut = clear_below_list(node.children, k - 1);
        lemma_clear_below_list_len(node.children, k - 1);
        lemma_clear_below_list_len(cut, k - 1);
        assert forall|i: int| 0 <= i < cut.len() implies #[trigger] clear_below_list(cut, k - 1)[i] == cut[i] by {
            lemma_clear_below_list_index(cut, k - 1, i);
            lemma_clear_below_list_index(node.children, k - 1, i);
            lemma_clear_idempotent(node.children[i], k - 1);
        }
        assert(clear_below_list(cut, k - 1) =~= cut);
    }
    assert(clear_below(clear_below(node, k), k) =~= clear_below(node, k));
}

/// The tree a search result page shows for `searched_category`: for a leaf,
/// the branch down to its parent; otherwise the branch down to it, cut just
/// below its children's level. Without a searched category, the whole tree.
pub open spec fn path_to_searched(searched: Option<CategoryNode>, root: CategoryNode) -> CategoryNode {
    match searched {
        Some(found) => if found.children.len() == 0 {
            prune_unused(
                root,
                seq![
                    match found.parent_id {
                        Some(p) => p,
                        None => CategoryId(0),
                    },
                ],
            )
        } else {
            clear_below(prune_unused(root, seq![found.id]), found.level + 1)
        },
        None => root,
    }
}

/// Cuts the category tree down to the path to the searched category.
pub fn get_path_to_searched_category(searched_category: Option<Category>, root: Category) -> (r: Category)
    requires
        searched_category matches Some(found) ==> (found.children@.len() > 0 ==> found.level < i32::MAX
            && level_count_fits(prune_unused(root@, seq![found.id]), (found.level + 1) as i32)),
    ensures
        r@ == path_to_searched(
            match searched_category {
                Some(found) => Some(found@),
                None => None,
            },
            root@,
        ),
{
    match searched_category {
        Some(found) => {
            proof {
                lemma_children_views(found);
            }
            if found.children.len() == 0 {
                let parent = match found.parent_id {
                    Some(p) => p,
                    None => CategoryId(0),
                };
                let used = vec![parent];
                assert(used@ =~= seq![parent]);
                remove_unused_categories(root, used.as_slice())
            } else {
                let used = vec![found.id];
                assert(used@ =~= seq![found.id]);
                let new_cat = remove_unused_categories(root, used.as_slice());
                clear_child_categories(new_cat, found.level + 1)
            }
        },
        None => root,
    }
}

/// No third-level category with the given id exists below the root.
#[derive(Debug, PartialEq, Eq, Structural, Clone, Copy)]
pub struct CategoryNotFound {
    pub id: CategoryId,
}

/// The first-level category (child of `root`) that has the third-level
/// category `third_level_category_id` two levels below it; the first such
/// child when several do.
pub fn get_first_level_category(third_level_category_id: CategoryId, root: Category) -> (r: Result<
    Category,
    CategoryNotFound,
>)
    ensures
        match r {
            Ok(c) => exists|j: int|
                0 <= j < root@.children.len() && c@ == #[trigger] root@.children[j] && reaches(
                    c@,
                    third_level_category_id,
                    2,
                ) && forall|i: int| 0 <= i < j ==> !reaches(root@.children[i], third_level_category_id, 2),
            Err(e) => e == CategoryNotFound { id: third_level_category_id } && forall|i: int|
                0 <= i < root@.children.len() ==> !reaches(
                    #[trigger] root@.children[i],
                    third_level_category_id,
                    2,
                ),
        },
{
    proof {
        lemma_children_views(root);
    }
    let ghost kids_view = root@.children;
    let ghost children_vec = root.children@;
    for cat_child in it: root.children.into_iter()
        invariant
            it.seq() == children_vec,
            kids_view == root@.children,
            kids_view.len() == children_vec.len(),
            forall|j: int| 0 <= j < children_vec.len() ==> #[trigger] kids_view[j] == node_of(children_vec[j]),
            forall|i: int| 0 <= i < it.index() ==> !reaches(#[trigger] kids_view[i], third_level_category_id, 2),
    {
        let ghost k = it.index() as int;
        assert(cat_child == children_vec[k]);
        if get_parent_category(&cat_child, third_level_category_id, 2).is_some() {
            assert(cat_child@ == kids_view[k]);
            return Ok(cat_child);
        }
    }
    Err(CategoryNotFound { id: third_level_category_id })
}

/// The ids a product search under category `category_id` covers: the
/// category itself when it is a leaf, else all leaves below it.
pub fn leaf_category_ids(cat: Category, category_id: CategoryId) -> (ids: Vec<CategoryId>)
    ensures
        cat.children@.len() == 0 ==> ids@ == seq![category_id],
        cat.children@.len() > 0 ==> ids@ == leaves(cat@).map_values(|n: CategoryNode| n.id),
{
    if cat.children.len() == 0 {
        let ids = vec![category_id];
        assert(ids@ =~= seq![category_id]);
        ids
    } else {
        let ghost whole = cat@;
        let leaves_vec = get_all_children_till_the_end(cat);
        let mut ids: Vec<CategoryId> = Vec::new();
        let n = leaves_vec.len();
        let mut i: usize = 0;
        while i < n
            invariant
                n == leaves_vec@.len(),
                node_views(leaves_vec@) == leaves(whole),
                i <= n,
                ids@ == leaves(whole).take(i as int).map_values(|n: CategoryNode| n.id),
            decreases n - i,
        {
            assert(node_views(leaves_vec@)[i as int] == node_of(leaves_vec@[i as int]));
            ids.push(leaves_vec[i].id);
            assert(ids@ =~= leaves(whole).take(i as int + 1).map_values(|n: CategoryNode| n.id));
            i = i + 1;
        }
        assert(leaves(whole).take(n as int) =~= leaves(whole));
        ids
    }
}

/// The ids a search restricted to third-level categories keeps: the category
/// itself when it is a leaf, none otherwise.
pub fn third_level_category_ids(cat: &Category, category_id: CategoryId) -> (ids: Option<Vec<CategoryId>>)
    ensures
        cat.children@.len() == 0 ==> (ids matches Some(v) && v@ == seq![category_id]),
        cat.children@.len() > 0 ==> ids is None,
{
    if cat.children.len() == 0 {
        let v = vec![category_id];
        assert(v@ =~= seq![category_id]);
        Some(v)
    } else {
        None
    }
}

/// Whether every child in the tree sits one level below its parent.
pub open spec fn levels_consistent(node: CategoryNode) -> bool
    decreases node,
{
    forall|i: int|
        0 <= i < node.children.len() ==> (#[trigger] node.children[i]).level == node.level + 1 && levels_consistent(
            node.children[i],
        )
}

/// The tree rooted at `node` cut by absolute level: every node at level
/// `lvl` or deeper loses its children.
pub open spec fn cut_at_level(node: CategoryNode, lvl: int) -> CategoryNode
    decreases node,
{
    CategoryNode {
        id: node.id,
        is_active: node.is_active,
        name: node.name,
        meta_field: node.meta_field,
        children: if node.level >= lvl {
            Seq::empty()
        } else {
            Seq::new(
                node.children.len(),
                |i: int|
                    if 0 <= i < node.children.len() {
                        cut_at_level(node.children[i], lvl)
                    } else {
                        arbitrary()
                    },
            )
        },
        level: node.level,
        parent_id: node.parent_id,
        attributes: node.attributes,
        slug: node.slug,
    }
}

/// In a tree whose levels are consistent, cutting `k` levels below the root
/// is cutting at the absolute level `k` below the root's level.
pub proof fn lemma_clear_below_by_level(node: CategoryNode, k: int)
    requires
        k >= 0,
        levels_consistent(node),
    ensures
        clear_below(node, k) == cut_at_level(node, node.level + k),
    decreases node,
{
    if k > 0 {
        let cut = clear_below_list(node.children, k - 1);
        lemma_clear_below_list_len(node.children, k - 1);
        assert forall|i: int| 0 <= i < node.children.len() implies #[trigger] cut[i] == cut_at_level(
            node.children[i],
            node.level + k,
        ) by {
            lemma_clear_below_list_index(node.children, k - 1, i);
            assert(node.children[i].level == node.level + 1);
            lemma_clear_below_by_level(node.children[i], k - 1);
        }
        assert(cut =~= cut_at_level(node, node.level + k).children);
    }
    assert(clear_below(node, k) =~= cut_at_level(node, node.level + k));
}

/// Pruning keeps a tree's levels consistent and its root's level.
proof fn lemma_prune_keeps_levels(node: CategoryNode, used: Seq<CategoryId>)
    requires
        levels_consistent(node),
    ensures
        prune_unused(node, used).level == node.level,
        levels_consistent(prune_unused(node, used)),
    decreases node,
{
    assert forall|i: int| 0 <= i < node.children.len() implies (#[trigger] node.children[i]).level == node.level + 1
        && levels_consistent(node.children[i]) by {}
    lemma_prune_list_keeps_levels(node.children, used, node.level + 1);
}

/// Pruning a list of trees, all at level `lvl` with consistent levels, gives
/// such trees again.
proof fn lemma_prune_list_keeps_levels(s: Seq<CategoryNode>, used: Seq<CategoryId>, lvl: int)
    requires
        forall|i: int| 0 <= i < s.len() ==> (#[trigger] s[i]).level == lvl && levels_consistent(s[i]),
    ensures
        forall|j: int|
            0 <= j < prune_unused_list(s, used).len() ==> (#[trigger] prune_unused_list(s, used)[j]).level == lvl
                && levels_consistent(prune_unused_list(s, used)[j]),
    decreases s,
{
    if s.len() > 0 {
        let rest_src = s.drop_last();
        assert forall|i: int| 0 <= i < rest_src.len() implies (#[trigger] rest_src[i]).level == lvl && levels_consistent(
            rest_src[i],
        ) by {
            assert(rest_src[i] == s[i]);
        }
        lemma_prune_list_keeps_levels(rest_src, used, lvl);
        let last = s.last();
        assert(last == s[s.len() - 1]);
        lemma_prune_keeps_levels(last, used);
        let rest = prune_unused_list(rest_src, used);
        let r = prune_unused_list(s, used);
        assert forall|j: int| 0 <= j < r.len() implies (#[trigger] r[j]).level == lvl && levels_consistent(r[j]) by {
            if j < rest.len() {
                assert(r[j] == rest[j]);
            }
        }
    }
}

/// The search page's tree for a searched category with children, in a tree
/// whose root is at level 0 and whose levels are consistent: the branches
/// that lead to the searched category, cut at the level just below it, so
/// that the searched category keeps its children and they lose theirs.
pub proof fn lemma_path_keeps_searched_children(found: CategoryNode, root: CategoryNode)
    requires
        found.children.len() > 0,
        found.level >= 0,
        root.level == 0,
        levels_consistent(root),
    ensures
        path_to_searched(Some(found), root) == cut_at_level(prune_unused(root, seq![found.id]), found.level + 1),
{
    let pruned = prune_unused(root, seq![found.id]);
    lemma_prune_keeps_levels(root, seq![found.id]);
    lemma_clear_below_by_level(pruned, found.level + 1);
}

} // verus!
