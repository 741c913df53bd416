//! Per-store counters of how many products the store has in each
//! first-level category.
use vstd::prelude::*;

use crate::types::CategoryId;

verus! {

/// How many products of a store lie in a category.
#[derive(Debug, PartialEq, Eq, Structural, Clone, Copy)]
pub struct ProductCategories {
    pub category_id: CategoryId,
    pub count: i32,
}

impl ProductCategories {
    /// The counter of a category the store gets its first product in.
    pub fn new(category_id: CategoryId) -> (pc: ProductCategories)
        ensures
            pc == (ProductCategories { category_id, count: 1 }),
    {
        ProductCategories { category_id, count: 1 }
    }
}

/// The service-maintained fields of a store that an update writes.
#[derive(Debug, PartialEq, Eq)]
pub struct ServiceUpdateStore {
    pub product_categories: Option<Vec<ProductCategories>>,
}

/// Whether some counter of `s` is for `id`.
pub open spec fn has_category(s: Seq<ProductCategories>, id: CategoryId) -> bool {
    exists|i: int| 0 <= i < s.len() && (#[trigger] s[i]).category_id == id
}

/// `pc` with `delta` added to its count when it is for `id`.
pub open spec fn shift_if(pc: ProductCategories, id: CategoryId, delta: int) -> ProductCategories {
    if pc.category_id == id {
        ProductCategories { category_id: pc.category_id, count: (pc.count + delta) as i32 }
    } else {
        pc
    }
}

/// The counters after a product moved from `old_id` to `new_id`: the
/// `new_id` counters go up, the `old_id` counters go down (and stay, even at
/// zero), and a counter of 1 for `new_id` is appended when there was none.
pub open spec fn moved_counts(s: Seq<ProductCategories>, old_id: CategoryId, new_id: CategoryId) -> Seq<
    ProductCategories,
> {
    let shifted = s.map_values(|pc: ProductCategories| shift_if(shift_if(pc, new_id, 1), old_id, -1));
    if has_category(s, new_id) {
        shifted
    } else {
        shifted.push(ProductCategories { category_id: new_id, count: 1 })
    }
}

/// The counters after a product of category `id` was added: the `id`
/// counters go up, or a counter of 1 is appended when there was none.
pub open spec fn added_counts(s: Seq<ProductCategories>, id: CategoryId) -> Seq<ProductCategories> {
    if has_category(s, id) {
        s.map_values(|pc: ProductCategories| shift_if(pc, id, 1))
    } else {
        s.push(ProductCategories { category_id: id, count: 1 })
    }
}

/// The counters after a product of category `id` was removed: the `id`
/// counters go down and those that reach zero or less are dropped.
pub open spec fn removed_counts(s: Seq<ProductCategories>, id: CategoryId) -> Seq<ProductCategories>
    decreases s.len(),
{
    if s.len() == 0 {
        Seq::empty()
    } else {
        let rest = removed_counts(s.drop_last(), id);
        let pc = s.last();
        if pc.category_id == id {
            if pc.count - 1 > 0 {
                rest.push(ProductCategories { category_id: id, count: (pc.count - 1) as i32 })
            } else {
                rest
            }
        } else {
            rest.push(pc)
        }
    }
}

/// Whether every counter for `id` can go up by one.
pub open spec fn can_increment(s: Seq<ProductCategories>, id: CategoryId) -> bool {
    forall|i: int| 0 <= i < s.len() && (#[trigger] s[i]).category_id == id ==> s[i].count < i32::MAX
}

/// Whether every counter for `id` can go down by one.
pub open spec fn can_decrement(s: Seq<ProductCategories>, id: CategoryId) -> bool {
    forall|i: int| 0 <= i < s.len() && (#[trigger] s[i]).category_id == id ==> s[i].count > i32::MIN
}

/// Whether every counter of `counters` for `id` can go up by one.
pub fn counters_can_increment(counters: &Vec<ProductCategories>, id: CategoryId) -> (r: bool)
    ensures
        r == can_increment(counters@, id),
{
    for i in 0..counters.len()
        invariant
            forall|j: int| 0 <= j < i && (#[trigger] counters@[j]).category_id == id ==> counters@[j].count < i32::MAX,
    {
        if counters[i].category_id == id && counters[i].count == i32::MAX {
            assert(counters@[i as int].category_id == id);
            return false;
        }
    }
    true
}

/// Whether every counter of `counters` for `id` can go down by one.
pub fn counters_can_decrement(counters: &Vec<ProductCategories>, id: CategoryId) -> (r: bool)
    ensures
        r == can_decrement(counters@, id),
{
    for i in 0..counters.len()
        invariant
            forall|j: int| 0 <= j < i && (#[trigger] counters@[j]).category_id == id ==> counters@[j].count > i32::MIN,
    {
        if counters[i].category_id == id && counters[i].count == i32::MIN {
            assert(counters@[i as int].category_id == id);
            return false;
        }
    }
    true
}

impl ServiceUpdateStore {
    /// The counters after one product of the store moved from category
    /// `old_cat_id` to `new_cat_id`. Without stored counters, the store gets
    /// a single counter of 1 for `new_cat_id`.
    pub fn update_product_categories(
        product_categories: Option<Vec<ProductCategories>>,
        old_cat_id: CategoryId,
        new_cat_id: CategoryId,
    ) -> (r: ServiceUpdateStore)
        requires
            product_categories matches Some(v) ==> can_increment(v@, new_cat_id) && can_decrement(
                v@,
                old_cat_id,
            ),
        ensures
            r.product_categories matches Some(out) && out@ == match product_categories {
                Some(v) => moved_counts(v@, old_cat_id, new_cat_id),
                None => seq![ProductCategories { category_id: new_cat_id, count: 1 }],
            },
    {
        let prod_cats = match product_categories {
            Some(prod_cats) => {
                let ghost s = prod_cats@;
                let mut new_prod_cats: Vec<ProductCategories> = Vec::new();
                let mut new_cat_exists = false;
                let n = prod_cats.len();
                let mut i: usize = 0;
                while i < n
                    invariant
                        n == s.len(),
                        s == prod_cats@,
                        can_increment(s, new_cat_id),
                        can_decrement(s, old_cat_id),
                        i <= n,
                        new_prod_cats@ == s.take(i as int).map_values(
                            |pc: ProductCategories| shift_if(shift_if(pc, new_cat_id, 1), old_cat_id, -1),
                        ),
                        new_cat_exists == has_category(s.take(i as int), new_cat_id),
                    decreases n - i,
                {
                    let mut pc = prod_cats[i];
                    if pc.category_id == new_cat_id {
                        pc.count = pc.count + 1;
                        new_cat_exists = true;
                    }
                    if pc.category_id == old_cat_id {
                        pc.count = pc.count - 1;
                    }
                    new_prod_cats.push(pc);
                    proof {
                        assert(s.take(i as int + 1) =~= s.take(i as int).push(s[i as int]));
                        assert(new_prod_cats@ =~= s.take(i as int + 1).map_values(
                            |pc: ProductCategories| shift_if(shift_if(pc, new_cat_id, 1), old_cat_id, -1),
                        ));
                        if has_category(s.take(i as int), new_cat_id) {
                            let w = choose|w: int|
                                0 <= w < s.take(i as int).len() && (#[trigger] s.take(i as int)[w]).category_id
                                    == new_cat_id;
                            assert(s.take(i as int + 1)[w] == s.take(i as int)[w]);
                        }
                        if s[i as int].category_id == new_cat_id {
                            assert(s.take(i as int + 1)[i as int] == s[i as int]);
                        }
                        if has_category(s.take(i as int + 1), new_cat_id) && s[i as int].category_id != new_cat_id {
                            let w = choose|w: int|
                                0 <= w < s.take(i as int + 1).len() && (#[trigger] s.take(i as int + 1)[w]).category_id
                                    == new_cat_id;
                            assert(s.take(i as int)[w] == s.take(i as int + 1)[w]);
                        }
                    }
                    i = i + 1;
                }
                assert(s.take(n as int) =~= s);
                if !new_cat_exists {
                    new_prod_cats.push(ProductCategories::new(new_cat_id));
                }
                new_prod_cats
            },
            None => {
                let v = vec![ProductCategories::new(new_cat_id)];
                assert(v@ =~= seq![ProductCategories { category_id: new_cat_id, count: 1 }]);
                v
            },
        };
        ServiceUpdateStore { product_categories: Some(prod_cats) }
    }
}

impl ServiceUpdateStore {
    /// The counters after one product of category `category_id` left the
    /// store; counters that reach zero are dropped. Without stored counters,
    /// there are none.
    pub fn delete_category_from_product_categories(
        old: Option<Vec<ProductCategories>>,
        category_id: CategoryId,
    ) -> (r: ServiceUpdateStore)
        requires
            old matches Some(v) ==> can_decrement(v@, category_id),
        ensures
            r.product_categories matches Some(out) && out@ == match old {
                Some(v) => removed_counts(v@, category_id),
                None => Seq::<ProductCategories>::empty(),
            },
    {
        let prod_cats = match old {
            Some(prod_cats) => {
                let ghost s = prod_cats@;
                let mut new_prod_cats: Vec<ProductCategories> = Vec::new();
                let n = prod_cats.len();
                let mut i: usize = 0;
                while i < n
                    invariant
                        n == s.len(),
                        s == prod_cats@,
                        can_decrement(s, category_id),
                        i <= n,
                        new_prod_cats@ == removed_counts(s.take(i as int), category_id),
                    decreases n - i,
                {
                    assert(s.take(i as int + 1).drop_last() =~= s.take(i as int));
                    assert(s.take(i as int + 1).last() == s[i as int]);
                    let mut pc = prod_cats[i];
                    if pc.category_id == category_id {
                        pc.count = pc.count - 1;
                        if pc.count > 0 {
                            new_prod_cats.push(pc);
                        }
                    } else {
                        new_prod_cats.push(pc);
                    }
                    i = i + 1;
                }
                assert(s.take(n as int) =~= s);
                new_prod_cats
            },
            None => Vec::new(),
        };
        ServiceUpdateStore { product_categories: Some(prod_cats) }
    }

    /// The counters after one product of category `category_id` joined the
    /// store. Without stored counters, the store gets a single counter of 1.
    pub fn add_category_to_product_categories(
        old: Option<Vec<ProductCategories>>,
        category_id: CategoryId,
    ) -> (r: ServiceUpdateStore)
        requires
            old matches Some(v) ==> can_increment(v@, category_id),
        ensures
            r.product_categories matches Some(out) && out@ == match old {
                Some(v) => added_counts(v@, category_id),
                None => seq![ProductCategories { category_id, count: 1 }],
            },
    {
        let prod_cats = match old {
            Some(prod_cats) => {
                let ghost s = prod_cats@;
                let mut new_prod_cats: Vec<ProductCategories> = Vec::new();
                let mut cat_exists = false;
                let n = prod_cats.len();
                let mut i: usize = 0;
                while i < n
                    invariant
                        n == s.len(),
                        s == prod_cats@,
                        can_increment(s, category_id),
                        i <= n,
                        new_prod_cats@ == s.take(i as int).map_values(
                            |pc: ProductCategories| shift_if(pc, category_id, 1),
                        ),
                        cat_exists == has_category(s.take(i as int), category_id),
                    decreases n - i,
                {
                    let mut pc = prod_cats[i];
                    if pc.category_id == category_id {
                        pc.count = pc.count + 1;
                        cat_exists = true;
                    }
                    new_prod_cats.push(pc);
                    proof {
                        assert(s.take(i as int + 1) =~= s.take(i as int).push(s[i as int]));
                        assert(new_prod_cats@ =~= s.take(i as int + 1).map_values(
                            |pc: ProductCategories| shift_if(pc, category_id, 1),
                        ));
                        if has_category(s.take(i as int), category_id) {
                            let w = choose|w: int|
                                0 <= w < s.take(i as int).len() && (#[trigger] s.take(i as int)[w]).category_id
                                    == category_id;
                            assert(s.take(i as int + 1)[w] == s.take(i as int)[w]);
                        }
                        if s[i as int].category_id == category_id {
                            assert(s.take(i as int + 1)[i as int] == s[i as int]);
                        }
                        if has_category(s.take(i as int + 1), category_id) && s[i as int].category_id != category_id {
                            let w = choose|w: int|
                                0 <= w < s.take(i as int + 1).len() && (#[trigger] s.take(i as int + 1)[w]).category_id
                                    == category_id;
                            assert(s.take(i as int)[w] == s.take(i as int + 1)[w]);
                        }
                    }
                    i = i + 1;
                }
                assert(s.take(n as int) =~= s);
                if !cat_exists {
                    new_prod_cats.push(ProductCategories::new(category_id));
                }
                new_prod_cats
            },
            None => {
                let v = vec![ProductCategories::new(category_id)];
                assert(v@ =~= seq![ProductCategories { category_id, count: 1 }]);
                v
            },
        };
        ServiceUpdateStore { product_categories: Some(prod_cats) }
    }
}

/// Removing counts nothing off a list without counters for `id`.
proof fn lemma_removed_absent(s: Seq<ProductCategories>, id: CategoryId)
    requires
        !has_category(s, id),
    ensures
        removed_counts(s, id) == s,
    decreases s.len(),
{
    if s.len() > 0 {
        assert(!has_category(s.drop_last(), id)) by {
            if has_category(s.drop_last(), id) {
                let w = choose|w: int| 0 <= w < s.drop_last().len() && (#[trigger] s.drop_last()[w]).category_id == id;
                assert(s[w] == s.drop_last()[w]);
            }
        }
        lemma_removed_absent(s.drop_last(), id);
        assert(s.last() == s[s.len() - 1]);
        assert(s.drop_last().push(s.last()) =~= s);
    }
}

/// Removing one from counters that were raised by one gives them back.
proof fn lemma_removed_after_shift(s: Seq<ProductCategories>, id: CategoryId)
    requires
        forall|i: int| 0 <= i < s.len() && (#[trigger] s[i]).category_id == id ==> 0 < s[i].count < i32::MAX,
    ensures
        removed_counts(s.map_values(|pc: ProductCategories| shift_if(pc, id, 1)), id) == s,
    decreases s.len(),
{
    let up = s.map_values(|pc: ProductCategories| shift_if(pc, id, 1));
    if s.len() > 0 {
        assert(up.drop_last() =~= s.drop_last().map_values(|pc: ProductCategories| shift_if(pc, id, 1)));
        lemma_removed_after_shift(s.drop_last(), id);
        assert(up.last() == shift_if(s.last(), id, 1));
        assert(s.last() == s[s.len() - 1]);
        assert(s.drop_last().push(s.last()) =~= s);
    } else {
        assert(up =~= s);
    }
}

/// Adding a product of a category and removing it again restores the
/// counters, provided every counter of that category is positive and below
/// the largest `i32`.
pub proof fn lemma_add_then_delete_restores(s: Seq<ProductCategories>, id: CategoryId)
    requires
        forall|i: int| 0 <= i < s.len() && (#[trigger] s[i]).category_id == id ==> 0 < s[i].count < i32::MAX,
    ensures
        removed_counts(added_counts(s, id), id) == s,
{
    if has_category(s, id) {
        lemma_removed_after_shift(s, id);
    } else {
        let t = s.push(ProductCategories { category_id: id, count: 1 });
        assert(t.drop_last() =~= s);
        lemma_removed_absent(s, id);
    }
}

/// Whether no two counters are for the same category.
pub open spec fn distinct_categories(s: Seq<ProductCategories>) -> bool {
    forall|i: int, j: int| 0 <= i < j < s.len() ==> (#[trigger] s[i]).category_id != (#[trigger] s[j]).category_id
}

/// Whether every counter is at least one.
pub open spec fn counts_positive(s: Seq<ProductCategories>) -> bool {
    forall|i: int| 0 <= i < s.len() ==> (#[trigger] s[i]).count >= 1
}

/// The counters after removing one product are for categories that had
/// counters before, no two for the same category, and all at least one.
proof fn lemma_removed_counts_well_formed(s: Seq<ProductCategories>, id: CategoryId)
    requires
        distinct_categories(s),
    ensures
        distinct_categories(removed_counts(s, id)),
        counts_positive(s) ==> counts_positive(removed_counts(s, id)),
        forall|k: int|
            0 <= k < removed_counts(s, id).len() ==> has_category(s, #[trigger] removed_counts(s, id)[k].category_id),
    decreases s.len(),
{
    if s.len() > 0 {
        let rest_src = s.drop_last();
        assert(distinct_categories(rest_src)) by {
            assert forall|i: int, j: int| 0 <= i < j < rest_src.len() implies (#[trigger] rest_src[i]).category_id
                != (#[trigger] rest_src[j]).category_id by {
                assert(rest_src[i] == s[i]);
                assert(rest_src[j] == s[j]);
            }
        }
        lemma_removed_counts_well_formed(rest_src, id);
        let rest = removed_counts(rest_src, id);
        let r = removed_counts(s, id);
        let last = s.last();
        assert(!has_category(rest_src, last.category_id)) by {
            if has_category(rest_src, last.category_id) {
                let w = choose|w: int| 0 <= w < rest_src.len() && (#[trigger] rest_src[w]).category_id == last.category_id;
                assert(s[w] == rest_src[w]);
                assert(s[s.len() - 1] == last);
            }
        }
        assert forall|k: int| 0 <= k < rest.len() implies #[trigger] rest[k].category_id != last.category_id by {
            assert(has_category(rest_src, rest[k].category_id));
        }
        assert forall|k: int| 0 <= k < r.len() implies has_category(s, #[trigger] r[k].category_id) by {
            if k < rest.len() {
                assert(r[k] == rest[k]);
                assert(has_category(rest_src, rest[k].category_id));
                let w = choose|w: int| 0 <= w < rest_src.len() && (#[trigger] rest_src[w]).category_id == rest[k].category_id;
                assert(s[w] == rest_src[w]);
            } else {
                assert(r[k].category_id == last.category_id);
                assert(s[s.len() - 1] == last);
            }
        }
        assert forall|i: int, j: int| 0 <= i < j < r.len() implies (#[trigger] r[i]).category_id != (
        #[trigger] r[j]).category_id by {
            if j < rest.len() {
                assert(r[i] == rest[i]);
                assert(r[j] == rest[j]);
            } else {
                assert(r[i] == rest[i]);
                assert(r[j].category_id == last.category_id);
            }
        }
        if counts_positive(s) {
            assert(counts_positive(rest_src)) by {
                assert forall|i: int| 0 <= i < rest_src.len() implies (#[trigger] rest_src[i]).count >= 1 by {
                    assert(rest_src[i] == s[i]);
                }
            }
            assert(last == s[s.len() - 1]);
            assert forall|i: int| 0 <= i < r.len() implies (#[trigger] r[i]).count >= 1 by {
                if i < rest.len() {
                    assert(r[i] == rest[i]);
                }
            }
        }
    }
}

/// Adding and removing products keep the counters well formed: no two for
/// the same category, and every one at least one (a counter that falls to
/// zero on removal is dropped).
pub proof fn lemma_add_delete_keep_counters_well_formed(s: Seq<ProductCategories>, id: CategoryId)
    requires
        distinct_categories(s),
        counts_positive(s),
        can_increment(s, id),
    ensures
        distinct_categories(added_counts(s, id)),
        counts_positive(added_counts(s, id)),
        distinct_categories(removed_counts(s, id)),
        counts_positive(removed_counts(s, id)),
{
    lemma_removed_counts_well_formed(s, id);
    let a = added_counts(s, id);
    if has_category(s, id) {
        assert forall|i: int| 0 <= i < a.len() implies (#[trigger] a[i]).category_id == s[i].category_id && a[i].count >= 1 by {}
    } else {
        assert forall|i: int, j: int| 0 <= i < j < a.len() implies (#[trigger] a[i]).category_id != (
        #[trigger] a[j]).category_id by {
            if j == s.len() {
                assert(a[i] == s[i]);
            } else {
                assert(a[i] == s[i]);
                assert(a[j] == s[j]);
            }
        }
        assert forall|i: int| 0 <= i < a.len() implies (#[trigger] a[i]).count >= 1 by {
            if i < s.len() {
                assert(a[i] == s[i]);
            }
        }
    }
}

/// Moving a product between two categories keeps the counters for distinct
/// categories, and every counter at least one but that of the category the
/// product left, which may fall to zero and stays.
pub proof fn lemma_move_keeps_counters_distinct(s: Seq<ProductCategories>, old_id: CategoryId, new_id: CategoryId)
    requires
        distinct_categories(s),
        counts_positive(s),
        can_increment(s, new_id),
        can_decrement(s, old_id),
        old_id != new_id,
    ensures
        distinct_categories(moved_counts(s, old_id, new_id)),
        forall|i: int|
            0 <= i < moved_counts(s, old_id, new_id).len() ==> if (#[trigger] moved_counts(s, old_id, new_id)[i]).category_id
                == old_id {
                moved_counts(s, old_id, new_id)[i].count >= 0
            } else {
                moved_counts(s, old_id, new_id)[i].count >= 1
            },
{
    let m = moved_counts(s, old_id, new_id);
    let shifted = s.map_values(|pc: ProductCategories| shift_if(shift_if(pc, new_id, 1), old_id, -1));
    assert forall|i: int| 0 <= i < shifted.len() implies (#[trigger] shifted[i]).category_id == s[i].category_id && (if s[i].category_id
        == old_id {
        shifted[i].count == s[i].count - 1
    } else if s[i].category_id == new_id {
        shifted[i].count == s[i].count + 1
    } else {
        shifted[i].count == s[i].count
    }) by {}
    assert forall|i: int, j: int| 0 <= i < j < m.len() implies (#[trigger] m[i]).category_id != (
    #[trigger] m[j]).category_id by {
        if j < s.len() {
            assert(m[i] == shifted[i]);
            assert(m[j] == shifted[j]);
        } else {
            assert(m[i] == shifted[i]);
        }
    }
    assert forall|i: int| 0 <= i < m.len() implies if (#[trigger] m[i]).category_id == old_id {
        m[i].count >= 0
    } else {
        m[i].count >= 1
    } by {
        if i < s.len() {
            assert(m[i] == shifted[i]);
        }
    }
}

/// Adding a product of category `id` raises every counter for `id` by one,
/// whatever its value (a zero counter left by a move included), and leaves
/// every other counter as it was, in place; when there was no counter for
/// `id`, one of 1 is appended.
pub proof fn lemma_added_counts_raise(s: Seq<ProductCategories>, id: CategoryId)
    requires
        can_increment(s, id),
    ensures
        has_category(s, id) ==> added_counts(s, id).len() == s.len(),
        !has_category(s, id) ==> added_counts(s, id).len() == s.len() + 1 && added_counts(s, id)[s.len() as int]
            == (ProductCategories { category_id: id, count: 1 }),
        forall|i: int|
            0 <= i < s.len() ==> (#[trigger] added_counts(s, id)[i]).category_id == s[i].category_id
                && added_counts(s, id)[i].count == if s[i].category_id == id {
                s[i].count + 1
            } else {
                s[i].count as int
            },
{
    if has_category(s, id) {
        assert forall|i: int| 0 <= i < s.len() implies (#[trigger] added_counts(s, id)[i]).category_id
            == s[i].category_id && added_counts(s, id)[i].count == if s[i].category_id == id {
            s[i].count + 1
        } else {
            s[i].count as int
        } by {
            assert(added_counts(s, id)[i] == shift_if(s[i], id, 1));
        }
    } else {
        assert forall|i: int| 0 <= i < s.len() implies (#[trigger] added_counts(s, id)[i]).category_id
            == s[i].category_id && added_counts(s, id)[i].count == if s[i].category_id == id {
            s[i].count + 1
        } else {
            s[i].count as int
        } by {
            if s[i].category_id == id {
                assert(has_category(s, id));
            }
        }
    }
}

/// Moving a product from category `old_id` to another category `new_id`
/// raises every counter for `new_id` by one, lowers every counter for
/// `old_id` by one (keeping it, even at zero), and leaves the other counters
/// as they were, in place; when there was no counter for `new_id`, one of 1
/// is appended.
pub proof fn lemma_moved_counts_shift(s: Seq<ProductCategories>, old_id: CategoryId, new_id: CategoryId)
    requires
        old_id != new_id,
        can_increment(s, new_id),
        can_decrement(s, old_id),
    ensures
        has_category(s, new_id) ==> moved_counts(s, old_id, new_id).len() == s.len(),
        !has_category(s, new_id) ==> moved_counts(s, old_id, new_id).len() == s.len() + 1 && moved_counts(
            s,
            old_id,
            new_id,
        )[s.len() as int] == (ProductCategories { category_id: new_id, count: 1 }),
        forall|i: int|
            0 <= i < s.len() ==> (#[trigger] moved_counts(s, old_id, new_id)[i]).category_id == s[i].category_id
                && moved_counts(s, old_id, new_id)[i].count == if s[i].category_id == new_id {
                s[i].count + 1
            } else if s[i].category_id == old_id {
                s[i].count - 1
            } else {
                s[i].count as int
            },
{
    let shifted = s.map_values(|pc: ProductCategories| shift_if(shift_if(pc, new_id, 1), old_id, -1));
    assert forall|i: int| 0 <= i < s.len() implies (#[trigger] moved_counts(s, old_id, new_id)[i]).category_id
        == s[i].category_id && moved_counts(s, old_id, new_id)[i].count == if s[i].category_id == new_id {
        s[i].count + 1
    } else if s[i].category_id == old_id {
        s[i].count - 1
    } else {
        s[i].count as int
    } by {
        assert(moved_counts(s, old_id, new_id)[i] == shifted[i]);
        assert(shifted[i] == shift_if(shift_if(s[i], new_id, 1), old_id, -1));
    }
}

} // verus!
