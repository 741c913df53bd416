//! Grouping the products of a shopping cart by store and by base product.
use vstd::prelude::*;

use crate::types::{BaseProductId, ProductId, StoreId};

verus! {

/// Whether `s` is strictly ascending.
pub open spec fn strictly_ascending(s: Seq<i32>) -> bool {
    forall|i: int, j: int| 0 <= i < j < s.len() ==> s[i] < s[j]
}

/// Inserts `x` into the strictly ascending `v`, unless it is there already.
fn insert_sorted(v: &mut Vec<i32>, x: i32)
    requires
        strictly_ascending(old(v)@),
    ensures
        strictly_ascending(final(v)@),
        forall|y: i32| final(v)@.contains(y) <==> (old(v)@.contains(y) || y == x),
{
    let mut p: usize = 0;
    while p < v.len()
        invariant
            p <= v@.len(),
            forall|j: int| 0 <= j < p ==> v@[j] < x,
        ensures
            p <= v@.len(),
            forall|j: int| 0 <= j < p ==> v@[j] < x,
            p < v@.len() ==> v@[p as int] >= x,
        decreases v@.len() - p,
    {
        if v[p] >= x {
            break;
        }
        p = p + 1;
    }
    if p < v.len() && v[p] == x {
        assert(v@[p as int] == x);
        assert forall|y: i32| v@.contains(y) <==> (old(v)@.contains(y) || y == x) by {
            if y == x {
                assert(v@[p as int] == x);
            }
        }
        return;
    }
    let ghost before = v@;
    assert(before == old(v)@);
    v.insert(p, x);
    proof {
        assert(v@ == before.insert(p as int, x));
        assert forall|i: int, j: int| 0 <= i < j < v@.len() implies v@[i] < v@[j] by {
            if j < p {
            } else if j == p {
            } else if i < p {
                assert(v@[j] == before[j - 1]);
                assert(before[p as int] >= x);
            } else if i == p {
                assert(v@[j] == before[j - 1]);
                assert(before[p as int] >= x);
                if j - 1 > p {
                    assert(before[p as int] < before[j - 1]);
                }
            } else {
                assert(v@[j] == before[j - 1]);
                assert(v@[i] == before[i - 1]);
            }
        }
        assert forall|y: i32| v@.contains(y) <==> (before.contains(y) || y == x) by {
            if v@.contains(y) {
                let j = choose|j: int| 0 <= j < v@.len() && v@[j] == y;
                if j < p {
                    assert(before[j] == y);
                } else if j > p {
                    assert(before[j - 1] == y);
                }
            }
            if before.contains(y) {
                let j = choose|j: int| 0 <= j < before.len() && before[j] == y;
                if j < p {
                    assert(v@[j] == y);
                } else {
                    assert(v@[j + 1] == y);
                }
            }
            if y == x {
                assert(v@[p as int] == x);
            }
        }
        assert(forall|y: i32| v@.contains(y) <==> (old(v)@.contains(y) || y == x));
    }
}

/// The store of base product `b`: that of its first product in the cart.
pub open spec fn store_of(products: Seq<(ProductId, BaseProductId, StoreId)>, b: BaseProductId) -> Option<StoreId>
    decreases products.len(),
{
    if products.len() == 0 {
        None
    } else {
        match store_of(products.drop_last(), b) {
            Some(s) => Some(s),
            None => if products.last().1 == b {
                Some(products.last().2)
            } else {
                None
            },
        }
    }
}

/// The products of base product `b`, in cart order.
pub open spec fn products_of(products: Seq<(ProductId, BaseProductId, StoreId)>, b: BaseProductId) -> Seq<ProductId>
    decreases products.len(),
{
    if products.len() == 0 {
        Seq::empty()
    } else {
        let rest = products_of(products.drop_last(), b);
        if products.last().1 == b {
            rest.push(products.last().0)
        } else {
            rest
        }
    }
}

/// A base product that has a product in the cart has a store and at least
/// one product.
proof fn lemma_present_base(products: Seq<(ProductId, BaseProductId, StoreId)>, b: BaseProductId, k: int)
    requires
        0 <= k < products.len(),
        products[k].1 == b,
    ensures
        store_of(products, b) is Some,
        products_of(products, b).len() > 0,
    decreases products.len(),
{
    if k < products.len() - 1 {
        assert(products.drop_last()[k] == products[k]);
        lemma_present_base(products.drop_last(), b, k);
    }
}

/// The store of base product `b`.
fn first_store(products: &Vec<(ProductId, BaseProductId, StoreId)>, b: BaseProductId) -> (r: Option<StoreId>)
    ensures
        r == store_of(products@, b),
{
    let mut r: Option<StoreId> = None;
    for k in 0..products.len()
        invariant
            r == store_of(products@.take(k as int), b),
    {
        assert(products@.take(k + 1).drop_last() =~= products@.take(k as int));
        assert(products@.take(k + 1).last() == products@[k as int]);
        if r.is_none() && products[k].1 == b {
            r = Some(products[k].2);
        }
    }
    assert(products@.take(products@.len() as int) =~= products@);
    r
}

/// The products of base product `b`.
fn products_for(products: &Vec<(ProductId, BaseProductId, StoreId)>, b: BaseProductId) -> (r: Vec<ProductId>)
    ensures
        r@ == products_of(products@, b),
{
    let mut r: Vec<ProductId> = Vec::new();
    for k in 0..products.len()
        invariant
            r@ == products_of(products@.take(k as int), b),
    {
        assert(products@.take(k + 1).drop_last() =~= products@.take(k as int));
        assert(products@.take(k + 1).last() == products@[k as int]);
        if products[k].1 == b {
            r.push(products[k].0);
        }
        assert(r@ =~= products_of(products@.take(k + 1), b));
    }
    assert(products@.take(products@.len() as int) =~= products@);
    r
}

/// The cart's products (product, its base product, the base product's
/// store) grouped by store, ascending, and within a store by base product,
/// ascending; each base product lists its products in cart order. A base
/// product's store is that of its first product in the cart.
pub fn group_cart(products: &Vec<(ProductId, BaseProductId, StoreId)>) -> (groups: Vec<
    (StoreId, Vec<(BaseProductId, Vec<ProductId>)>),
>)
    ensures
        forall|g: int, h: int| 0 <= g < h < groups@.len() ==> (#[trigger] groups@[g]).0.num() < (#[trigger] groups@[h]).0.num(),
        forall|g: int| 0 <= g < groups@.len() ==> (#[trigger] groups@[g]).1@.len() > 0,
        forall|g: int, e: int, f: int|
            0 <= g < groups@.len() && 0 <= e < f < groups@[g].1@.len() ==> (#[trigger] groups@[g].1@[e]).0.num() < (
            #[trigger] groups@[g].1@[f]).0.num(),
        forall|g: int, e: int|
            0 <= g < groups@.len() && 0 <= e < groups@[g].1@.len() ==> store_of(products@, (#[trigger] groups@[g].1@[e]).0)
                == Some(groups@[g].0) && groups@[g].1@[e].1@ == products_of(products@, groups@[g].1@[e].0)
                && groups@[g].1@[e].1@.len() > 0,
        forall|k: int|
            0 <= k < products@.len() ==> exists|g: int, e: int|
                0 <= g < groups@.len() && 0 <= e < groups@[g].1@.len() && (#[trigger] groups@[g].1@[e]).0 == (
                #[trigger] products@[k]).1,
{
    // The base products, ascending.
    let mut base_ids: Vec<i32> = Vec::new();
    for k in 0..products.len()
        invariant
            strictly_ascending(base_ids@),
            forall|x: i32| base_ids@.contains(x) <==> exists|j: int| 0 <= j < k && (#[trigger] products@[j]).1.num() == x,
    {
        let ghost before = base_ids@;
        let b = products[k].1;
        insert_sorted(&mut base_ids, b.0);
        proof {
            assert forall|x: i32| base_ids@.contains(x) <==> exists|j: int| 0 <= j < k + 1 && (#[trigger] products@[j]).1.num() == x by {
                if base_ids@.contains(x) && x != products@[k as int].1.num() {
                    assert(before.contains(x));
                }
                if exists|j: int| 0 <= j < k + 1 && (#[trigger] products@[j]).1.num() == x {
                    let j = choose|j: int| 0 <= j < k + 1 && (#[trigger] products@[j]).1.num() == x;
                    if j < k {
                        assert(before.contains(x));
                    }
                }
            }
        }
    }
    proof {
        assert forall|m: int| 0 <= m < base_ids@.len() implies store_of(products@, BaseProductId(#[trigger] base_ids@[m])) is Some
            && products_of(products@, BaseProductId(base_ids@[m])).len() > 0 by {
            assert(base_ids@.contains(base_ids@[m]));
            let j = choose|j: int| 0 <= j < products@.len() && (#[trigger] products@[j]).1.num() == base_ids@[m];
            lemma_present_base(products@, BaseProductId(base_ids@[m]), j);
        }
    }
    // The stores of the base products, ascending.
    let mut store_ids: Vec<i32> = Vec::new();
    for m in 0..base_ids.len()
        invariant
            forall|m2: int| 0 <= m2 < base_ids@.len() ==> store_of(products@, BaseProductId(#[trigger] base_ids@[m2])) is Some
                && products_of(products@, BaseProductId(base_ids@[m2])).len() > 0,
            strictly_ascending(store_ids@),
            forall|x: i32| store_ids@.contains(x) <==> exists|m2: int|
                0 <= m2 < m && store_of(products@, BaseProductId(#[trigger] base_ids@[m2]))->0.num() == x,
    {
        let st = first_store(products, BaseProductId(base_ids[m]));
        let s = match st {
            Some(s) => s.0,
            None => 0,
        };
        let ghost before = store_ids@;
        insert_sorted(&mut store_ids, s);
        proof {
            assert(store_of(products@, BaseProductId(base_ids@[m as int])) is Some);
            assert forall|x: i32| store_ids@.contains(x) <==> exists|m2: int|
                0 <= m2 < m + 1 && store_of(products@, BaseProductId(#[trigger] base_ids@[m2]))->0.num() == x by {
                if store_ids@.contains(x) && x != s {
                    assert(before.contains(x));
                }
                if exists|m2: int| 0 <= m2 < m + 1 && store_of(products@, BaseProductId(#[trigger] base_ids@[m2]))->0.num() == x {
                    let m2 = choose|m2: int| 0 <= m2 < m + 1 && store_of(products@, BaseProductId(#[trigger] base_ids@[m2]))->0.num() == x;
                    if m2 < m {
                        assert(before.contains(x));
                    }
                }
            }
        }
    }
    let mut groups: Vec<(StoreId, Vec<(BaseProductId, Vec<ProductId>)>)> = Vec::new();
    for g in 0..store_ids.len()
        invariant
            strictly_ascending(base_ids@),
            strictly_ascending(store_ids@),
            forall|m2: int| 0 <= m2 < base_ids@.len() ==> store_of(products@, BaseProductId(#[trigger] base_ids@[m2])) is Some
                && products_of(products@, BaseProductId(base_ids@[m2])).len() > 0,
            forall|x: i32| store_ids@.contains(x) <==> exists|m2: int|
                0 <= m2 < base_ids@.len() && store_of(products@, BaseProductId(#[trigger] base_ids@[m2]))->0.num() == x,
            groups@.len() == g,
            forall|h: int| 0 <= h < g ==> (#[trigger] groups@[h]).0.num() == store_ids@[h],
            forall|h: int| 0 <= h < g ==> (#[trigger] groups@[h]).1@.len() > 0,
            forall|h: int, e: int, f: int|
                0 <= h < g && 0 <= e < f < groups@[h].1@.len() ==> (#[trigger] groups@[h].1@[e]).0.num() < (
                #[trigger] groups@[h].1@[f]).0.num(),
            forall|h: int, e: int|
                0 <= h < g && 0 <= e < groups@[h].1@.len() ==> store_of(products@, (#[trigger] groups@[h].1@[e]).0)
                    == Some(groups@[h].0) && groups@[h].1@[e].1@ == products_of(products@, groups@[h].1@[e].0)
                    && groups@[h].1@[e].1@.len() > 0,
            forall|h: int, m2: int|
                0 <= h < g && 0 <= m2 < base_ids@.len() && store_of(products@, BaseProductId(#[trigger] base_ids@[m2]))
                    == Some(#[trigger] groups@[h].0) ==> exists|e: int|
                    0 <= e < groups@[h].1@.len() && groups@[h].1@[e].0.num() == base_ids@[m2],
    {
        let s = store_ids[g];
        let mut entries: Vec<(BaseProductId, Vec<ProductId>)> = Vec::new();
        for bi in 0..base_ids.len()
            invariant
                strictly_ascending(base_ids@),
                forall|m2: int| 0 <= m2 < base_ids@.len() ==> store_of(products@, BaseProductId(#[trigger] base_ids@[m2])) is Some
                && products_of(products@, BaseProductId(base_ids@[m2])).len() > 0,
                forall|e: int, f: int| 0 <= e < f < entries@.len() ==> (#[trigger] entries@[e]).0.num() < (#[trigger] entries@[f]).0.num(),
                forall|e: int, m2: int|
                    0 <= e < entries@.len() && bi <= m2 < base_ids@.len() ==> (#[trigger] entries@[e]).0.num() < #[trigger] base_ids@[m2],
                forall|e: int|
                    0 <= e < entries@.len() ==> store_of(products@, (#[trigger] entries@[e]).0) == Some(StoreId(s))
                        && entries@[e].1@ == products_of(products@, entries@[e].0) && entries@[e].1@.len() > 0,
                forall|m2: int|
                    0 <= m2 < bi && store_of(products@, BaseProductId(#[trigger] base_ids@[m2])) == Some(StoreId(s))
                        ==> exists|e: int| 0 <= e < entries@.len() && entries@[e].0.num() == base_ids@[m2],
        {
            let b = BaseProductId(base_ids[bi]);
            let st = first_store(products, b);
            if st == Some(StoreId(s)) {
                let list = products_for(products, b);
                let ghost before = entries@;
                proof {
                    assert(products_of(products@, BaseProductId(base_ids@[bi as int])).len() > 0);
                }
                entries.push((b, list));
                proof {
                    assert forall|e: int, f: int| 0 <= e < f < entries@.len() implies (#[trigger] entries@[e]).0.num() < (
                    #[trigger] entries@[f]).0.num() by {
                        if f < before.len() {
                            assert(entries@[e] == before[e]);
                            assert(entries@[f] == before[f]);
                        } else {
                            assert(entries@[e] == before[e]);
                        }
                    }
                    assert forall|e: int, m2: int|
                        0 <= e < entries@.len() && bi + 1 <= m2 < base_ids@.len() implies (#[trigger] entries@[e]).0.num()
                            < #[trigger] base_ids@[m2] by {
                        if e < before.len() {
                            assert(entries@[e] == before[e]);
                        }
                    }
                    assert forall|e: int| 0 <= e < entries@.len() implies store_of(products@, (#[trigger] entries@[e]).0)
                        == Some(StoreId(s)) && entries@[e].1@ == products_of(products@, entries@[e].0)
                        && entries@[e].1@.len() > 0 by {
                        if e < before.len() {
                            assert(entries@[e] == before[e]);
                        }
                    }
                    assert forall|m2: int|
                        0 <= m2 < bi + 1 && store_of(products@, BaseProductId(#[trigger] base_ids@[m2])) == Some(StoreId(s))
                            implies exists|e: int| 0 <= e < entries@.len() && entries@[e].0.num() == base_ids@[m2] by {
                        if m2 < bi {
                            let e = choose|e: int| 0 <= e < before.len() && before[e].0.num() == base_ids@[m2];
                            assert(entries@[e] == before[e]);
                        } else {
                            assert(entries@[before.len() as int].0.num() == base_ids@[m2]);
                        }
                    }
                }
            }
        }
        proof {
            assert(store_ids@.contains(s));
            let m2 = choose|m2: int|
                0 <= m2 < base_ids@.len() && store_of(products@, BaseProductId(#[trigger] base_ids@[m2]))->0.num() == s;
            assert(store_of(products@, BaseProductId(base_ids@[m2])) == Some(StoreId(s)));
        }
        let ghost before = groups@;
        groups.push((StoreId(s), entries));
        proof {
            assert forall|h: int| 0 <= h < g + 1 implies (#[trigger] groups@[h]).0.num() == store_ids@[h] by {
                if h < g {
                    assert(groups@[h] == before[h]);
                }
            }
            assert forall|h: int| 0 <= h < g + 1 implies (#[trigger] groups@[h]).1@.len() > 0 by {
                if h < g {
                    assert(groups@[h] == before[h]);
                }
            }
            assert forall|h: int, e: int, f: int|
                0 <= h < g + 1 && 0 <= e < f < groups@[h].1@.len() implies (#[trigger] groups@[h].1@[e]).0.num() < (
                #[trigger] groups@[h].1@[f]).0.num() by {
                if h < g {
                    assert(groups@[h] == before[h]);
                }
            }
            assert forall|h: int, e: int|
                0 <= h < g + 1 && 0 <= e < groups@[h].1@.len() implies store_of(products@, (#[trigger] groups@[h].1@[e]).0)
                    == Some(groups@[h].0) && groups@[h].1@[e].1@ == products_of(products@, groups@[h].1@[e].0)
                    && groups@[h].1@[e].1@.len() > 0 by {
                if h < g {
                    assert(groups@[h] == before[h]);
                }
            }
            assert forall|h: int, m2: int|
                0 <= h < g + 1 && 0 <= m2 < base_ids@.len() && store_of(products@, BaseProductId(#[trigger] base_ids@[m2]))
                    == Some(#[trigger] groups@[h].0) implies exists|e: int|
                    0 <= e < groups@[h].1@.len() && groups@[h].1@[e].0.num() == base_ids@[m2] by {
                if h < g {
                    assert(groups@[h] == before[h]);
                }
            }
        }
    }
    proof {
        assert forall|g: int, h: int| 0 <= g < h < groups@.len() implies (#[trigger] groups@[g]).0.num() < (
        #[trigger] groups@[h]).0.num() by {}
        assert forall|k: int| 0 <= k < products@.len() implies exists|g: int, e: int|
            0 <= g < groups@.len() && 0 <= e < groups@[g].1@.len() && (#[trigger] groups@[g].1@[e]).0 == (
            #[trigger] products@[k]).1 by {
            let b = products@[k].1;
            assert(base_ids@.contains(b.0));
            let m = choose|m: int| 0 <= m < base_ids@.len() && base_ids@[m] == b.0;
            assert(BaseProductId(base_ids@[m]) == b);
            let st = store_of(products@, b)->0;
            assert(store_ids@.contains(st.0));
            let g = choose|g: int| 0 <= g < store_ids@.len() && store_ids@[g] == st.0;
            assert(groups@[g].0 == st);
            let e = choose|e: int| 0 <= e < groups@[g].1@.len() && groups@[g].1@[e].0.num() == base_ids@[m];
            assert(groups@[g].1@[e].0 == b);
        }
    }
    groups
}

} // verus!
