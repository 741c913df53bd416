//! Assembling base products with their variants after the rows were read:
//! putting rows in search order, picking matched variants, pairing the most
//! discounted variants with their base products, and giving each variant its
//! attribute rows.
use vstd::prelude::*;

use crate::text::str_equals;
use crate::types::{BaseProductId, ModerationStatus, ProductId, StoreId};

verus! {

/// The last position of `x` in `s`, if any.
pub open spec fn last_index_of<T>(s: Seq<T>, x: T) -> Option<int>
    decreases s.len(),
{
    if s.len() == 0 {
        None
    } else if s.last() == x {
        Some(s.len() - 1)
    } else {
        last_index_of(s.drop_last(), x)
    }
}

/// What [`last_index_of`] means: the position holds `x` and no later one
/// does; `None` when `x` does not occur.
pub proof fn lemma_last_index_of<T>(s: Seq<T>, x: T)
    ensures
        match last_index_of(s, x) {
            Some(i) => 0 <= i < s.len() && s[i] == x && forall|j: int| i < j < s.len() ==> s[j] != x,
            None => forall|j: int| 0 <= j < s.len() ==> s[j] != x,
        },
    decreases s.len(),
{
    if s.len() > 0 {
        lemma_last_index_of(s.drop_last(), x);
        assert forall|j: int| 0 <= j < s.len() - 1 implies s.drop_last()[j] == s[j] by {}
    }
}

/// The last position of `x` in `s`.
fn find_last(s: &Vec<BaseProductId>, x: BaseProductId) -> (r: Option<usize>)
    ensures
        match r {
            Some(i) => last_index_of(s@, x) == Some(i as int),
            None => last_index_of(s@, x) is None,
        },
{
    proof {
        lemma_last_index_of(s@, x);
    }
    let mut i: usize = s.len();
    while i > 0
        invariant
            i <= s@.len(),
            forall|j: int| i <= j < s@.len() ==> s@[j] != x,
        decreases i,
    {
        if s[i - 1] == x {
            proof {
                lemma_last_index_of(s@, x);
                match last_index_of(s@, x) {
                    Some(k) => {
                        assert(s@[k] == x);
                        if k < i - 1 {
                            assert(s@[i - 1] == x);
                        }
                    },
                    None => {
                        assert(s@[i - 1] == x);
                    },
                }
            }
            return Some(i - 1);
        }
        i = i - 1;
    }
    proof {
        lemma_last_index_of(s@, x);
        match last_index_of(s@, x) {
            Some(k) => {
                assert(s@[k] == x);
            },
            None => {},
        }
    }
    None
}

/// The rows of `rows` in the order of `keys`: the result lists indices into
/// `rows`. A row is listed when it is the last row with its id (a later row
/// with the same id replaces an earlier one); rows come by the last position
/// of their id in `keys`. Every row's id must occur in `keys`.
pub fn order_by(el_ids: &Vec<BaseProductId>, rows: &Vec<BaseProductId>) -> (idx: Vec<usize>)
    requires
        forall|i: int| 0 <= i < rows@.len() ==> el_ids@.contains(#[trigger] rows@[i]),
    ensures
        idx@.len() <= el_ids@.len(),
        forall|k: int|
            0 <= k < idx@.len() ==> (#[trigger] idx@[k]) < rows@.len() && last_index_of(rows@, rows@[idx@[k] as int])
                == Some(idx@[k] as int),
        forall|k: int, l: int|
            0 <= k < l < idx@.len() ==> last_index_of(el_ids@, rows@[#[trigger] idx@[k] as int])->0 < last_index_of(
                el_ids@,
                rows@[#[trigger] idx@[l] as int],
            )->0,
        forall|i: int|
            0 <= i < rows@.len() && last_index_of(rows@, #[trigger] rows@[i]) == Some(i) ==> idx@.contains(i as usize),
{
    let keys = el_ids;
    let mut out: Vec<usize> = Vec::new();
    for n in 0..keys.len()
        invariant
            forall|i: int| 0 <= i < rows@.len() ==> keys@.contains(#[trigger] rows@[i]),
            out@.len() <= n,
            forall|k: int|
                0 <= k < out@.len() ==> (#[trigger] out@[k]) < rows@.len() && last_index_of(
                    rows@,
                    rows@[out@[k] as int],
                ) == Some(out@[k] as int) && last_index_of(keys@, rows@[out@[k] as int]) is Some && last_index_of(
                    keys@,
                    rows@[out@[k] as int],
                )->0 < n,
            forall|k: int, l: int|
                0 <= k < l < out@.len() ==> last_index_of(keys@, rows@[#[trigger] out@[k] as int])->0 < last_index_of(
                    keys@,
                    rows@[#[trigger] out@[l] as int],
                )->0,
            forall|i: int|
                0 <= i < rows@.len() && last_index_of(rows@, #[trigger] rows@[i]) == Some(i) && 0 <= last_index_of(
                    keys@,
                    rows@[i],
                )->0 < n ==> out@.contains(i as usize),
    {
        let key = keys[n];
        proof {
            lemma_last_index_of(keys@, key);
        }
        let last = find_last(keys, key);
        if last == Some(n) {
            let found = find_last(rows, key);
            proof {
                lemma_last_index_of(rows@, key);
            }
            match found {
                Some(i) => {
                    let ghost before = out@;
                    out.push(i);
                    proof {
                        assert(rows@[i as int] == key);
                        assert forall|k: int| 0 <= k < out@.len() implies (#[trigger] out@[k]) < rows@.len()
                            && last_index_of(rows@, rows@[out@[k] as int]) == Some(out@[k] as int) && last_index_of(
                            keys@,
                            rows@[out@[k] as int],
                        ) is Some && last_index_of(keys@, rows@[out@[k] as int])->0 < n + 1 by {
                            if k < before.len() {
                                assert(out@[k] == before[k]);
                            }
                        }
                        assert forall|k: int, l: int| 0 <= k < l < out@.len() implies last_index_of(
                            keys@,
                            rows@[#[trigger] out@[k] as int],
                        )->0 < last_index_of(keys@, rows@[#[trigger] out@[l] as int])->0 by {
                            assert(out@[k] == before[k]);
                            if l < before.len() {
                                assert(out@[l] == before[l]);
                            }
                        }
                        assert forall|j: int|
                            0 <= j < rows@.len() && last_index_of(rows@, #[trigger] rows@[j]) == Some(j)
                                && 0 <= last_index_of(keys@, rows@[j])->0 < n + 1 implies out@.contains(j as usize) by {
                            lemma_last_index_of(keys@, rows@[j]);
                            lemma_last_index_of(rows@, rows@[j]);
                            if last_index_of(keys@, rows@[j])->0 < n {
                                let w = choose|w: int| 0 <= w < before.len() && before[w] == j as usize;
                                assert(out@[w] == before[w]);
                            } else {
                                assert(rows@[j] == key);
                                assert(j == i as int);
                                assert(out@[before.len() as int] == i);
                            }
                        }
                    }
                },
                None => {
                    proof {
                        assert forall|j: int|
                            0 <= j < rows@.len() && last_index_of(rows@, #[trigger] rows@[j]) == Some(j)
                                && 0 <= last_index_of(keys@, rows@[j])->0 < n + 1 implies out@.contains(j as usize) by {
                            lemma_last_index_of(keys@, rows@[j]);
                            if last_index_of(keys@, rows@[j])->0 == n {
                                assert(rows@[j] == key);
                            }
                        }
                    }
                },
            }
        } else {
            proof {
                assert forall|j: int|
                    0 <= j < rows@.len() && last_index_of(rows@, #[trigger] rows@[j]) == Some(j) && 0 <= last_index_of(
                        keys@,
                        rows@[j],
                    )->0 < n + 1 implies out@.contains(j as usize) by {
                    lemma_last_index_of(keys@, rows@[j]);
                    assert(keys@.contains(rows@[j]));
                    if last_index_of(keys@, rows@[j])->0 == n {
                        assert(rows@[j] == key);
                    }
                }
            }
        }
    }
    proof {
        assert forall|i: int| 0 <= i < rows@.len() && last_index_of(rows@, #[trigger] rows@[i]) == Some(i) implies out@.contains(
            i as usize,
        ) by {
            lemma_last_index_of(keys@, rows@[i]);
            assert(keys@.contains(rows@[i]));
        }
    }
    out
}

/// The variants of `variants` that occur in `matched`, in order.
pub open spec fn matched_only(variants: Seq<ProductId>, matched: Seq<ProductId>) -> Seq<ProductId>
    decreases variants.len(),
{
    if variants.len() == 0 {
        Seq::empty()
    } else {
        let rest = matched_only(variants.drop_last(), matched);
        if matched.contains(variants.last()) {
            rest.push(variants.last())
        } else {
            rest
        }
    }
}

/// Whether `x` is among `v`.
fn contains_product(v: &Vec<ProductId>, x: ProductId) -> (r: bool)
    ensures
        r == v@.contains(x),
{
    for i in 0..v.len()
        invariant
            forall|j: int| 0 <= j < i ==> v@[j] != x,
    {
        if v[i] == x {
            assert(v@[i as int] == x);
            return true;
        }
    }
    false
}

/// The variant ids a search asks for: for each hit in order, the variants
/// it matched, or, when it names no matched variants, all the variants it
/// lists.
pub open spec fn hit_variant_ids(hits: Seq<(Option<Vec<ProductId>>, Vec<ProductId>)>) -> Seq<ProductId>
    decreases hits.len(),
{
    if hits.len() == 0 {
        Seq::empty()
    } else {
        hit_variant_ids(hits.drop_last()) + match hits.last().0 {
            Some(m) => m@,
            None => hits.last().1@,
        }
    }
}

/// Appends `ids` to `out`.
fn append_ids(out: &mut Vec<ProductId>, ids: &Vec<ProductId>)
    ensures
        final(out)@ == old(out)@ + ids@,
{
    let ghost start = out@;
    for k in 0..ids.len()
        invariant
            out@ == start + ids@.take(k as int),
    {
        out.push(ids[k]);
        assert(out@ =~= start + ids@.take(k + 1));
    }
    assert(ids@.take(ids@.len() as int) =~= ids@);
}

/// The variant ids a search asks for, over the hits of the search: each hit
/// is its matched variant ids, if any, and the ids of all its variants.
pub fn search_variant_ids(hits: &Vec<(Option<Vec<ProductId>>, Vec<ProductId>)>) -> (r: Vec<ProductId>)
    ensures
        r@ == hit_variant_ids(hits@),
{
    let mut out: Vec<ProductId> = Vec::new();
    for k in 0..hits.len()
        invariant
            out@ == hit_variant_ids(hits@.take(k as int)),
    {
        assert(hits@.take(k + 1).drop_last() =~= hits@.take(k as int));
        assert(hits@.take(k + 1).last() == hits@[k as int]);
        match &hits[k].0 {
            Some(m) => append_ids(&mut out, m),
            None => append_ids(&mut out, &hits[k].1),
        }
    }
    assert(hits@.take(hits@.len() as int) =~= hits@);
    out
}

/// The variants to show: those of `variants` whose id the search asks for
/// (`variants_ids`, see [`search_variant_ids`]), in the order of `variants`.
pub fn select_variants(variants_ids: &Vec<ProductId>, variants: &Vec<ProductId>) -> (r: Vec<ProductId>)
    ensures
        r@ == matched_only(variants@, variants_ids@),
{
    let mut out: Vec<ProductId> = Vec::new();
    for k in 0..variants.len()
        invariant
            out@ == matched_only(variants@.take(k as int), variants_ids@),
    {
        let v = variants[k];
        assert(variants@.take(k + 1).drop_last() =~= variants@.take(k as int));
        assert(variants@.take(k + 1).last() == v);
        if contains_product(variants_ids, v) {
            out.push(v);
        }
        assert(out@ =~= matched_only(variants@.take(k + 1), variants_ids@));
    }
    assert(variants@.take(variants@.len() as int) =~= variants@);
    out
}

/// The positions of `x` in `s`, ascending.
pub open spec fn positions_of(s: Seq<ProductId>, x: ProductId) -> Seq<usize>
    decreases s.len(),
{
    if s.len() == 0 {
        Seq::empty()
    } else {
        let rest = positions_of(s.drop_last(), x);
        if s.last() == x {
            rest.push((s.len() - 1) as usize)
        } else {
            rest
        }
    }
}

/// For each variant, the positions of its attribute rows: `attr_prod_ids`
/// holds the variant each attribute row belongs to.
pub fn attributes_per_variant(variant_ids: &Vec<ProductId>, attr_prod_ids: &Vec<ProductId>) -> (r: Vec<Vec<usize>>)
    requires
        attr_prod_ids@.len() <= usize::MAX,
    ensures
        r@.len() == variant_ids@.len(),
        forall|i: int| 0 <= i < variant_ids@.len() ==> (#[trigger] r@[i])@ == positions_of(attr_prod_ids@, variant_ids@[i]),
{
    let mut r: Vec<Vec<usize>> = Vec::new();
    for i in 0..variant_ids.len()
        invariant
            r@.len() == i,
            forall|m: int| 0 <= m < i ==> (#[trigger] r@[m])@ == positions_of(attr_prod_ids@, variant_ids@[m]),
    {
        let v = variant_ids[i];
        let mut mine: Vec<usize> = Vec::new();
        for j in 0..attr_prod_ids.len()
            invariant
                mine@ == positions_of(attr_prod_ids@.take(j as int), v),
        {
            assert(attr_prod_ids@.take(j + 1).drop_last() =~= attr_prod_ids@.take(j as int));
            assert(attr_prod_ids@.take(j + 1).last() == attr_prod_ids@[j as int]);
            if attr_prod_ids[j] == v {
                mine.push(j);
            }
            assert(mine@ =~= positions_of(attr_prod_ids@.take(j + 1), v));
        }
        assert(attr_prod_ids@.take(attr_prod_ids@.len() as int) =~= attr_prod_ids@);
        r.push(mine);
    }
    r
}

/// Whether updating a product's vendor code to `requested` calls for a
/// check that no other product of the store has it: only a new, different
/// code does.
pub fn needs_vendor_code_check(original: &str, requested: Option<&str>) -> (r: bool)
    ensures
        r <==> (requested matches Some(v) && v@ != original@),
{
    match requested {
        Some(v) => !str_equals(v, original),
        None => false,
    }
}

/// Whether `p` takes the value `v` somewhere.
spec fn hits(p: Seq<int>, v: int) -> bool {
    exists|t: int| 0 <= t < p.len() && p[t] == v
}

/// A strictly increasing sequence of naturals that takes every value below
/// `n` is the identity on its first `n` places.
proof fn lemma_increasing_cover(p: Seq<int>, n: int)
    requires
        forall|t: int, u: int| 0 <= t < u < p.len() ==> p[t] < p[u],
        forall|t: int| 0 <= t < p.len() ==> 0 <= #[trigger] p[t],
        forall|v: int| 0 <= v < n ==> #[trigger] hits(p, v),
    ensures
        forall|t: int| 0 <= t < p.len() && t < n ==> #[trigger] p[t] == t,
    decreases n,
{
    if n > 0 {
        lemma_increasing_cover(p, n - 1);
        let v = n - 1;
        assert(hits(p, v));
        let s = choose|s: int| 0 <= s < p.len() && p[s] == v;
        lemma_increasing_at_least(p, s);
        if s < n - 1 {
            assert(p[s] == s);
        }
        assert forall|t: int| 0 <= t < p.len() && t < n implies #[trigger] p[t] == t by {
            if t == n - 1 {
                assert(s == t);
            }
        }
    }
}

/// The places of a strictly increasing sequence of naturals bound it from
/// below.
proof fn lemma_increasing_at_least(p: Seq<int>, t: int)
    requires
        forall|a: int, b: int| 0 <= a < b < p.len() ==> p[a] < p[b],
        forall|a: int| 0 <= a < p.len() ==> 0 <= #[trigger] p[a],
        0 <= t < p.len(),
    ensures
        p[t] >= t,
    decreases t,
{
    if t > 0 {
        lemma_increasing_at_least(p, t - 1);
    }
}

/// Whether a base product row passes the discount listing's filter:
/// published, and of the requested store when one is given.
pub open spec fn kept(b: (BaseProductId, ModerationStatus, StoreId), store: Option<StoreId>) -> bool {
    b.1 == ModerationStatus::Published && match store {
        Some(s) => b.2 == s,
        None => true,
    }
}

/// Whether row `i` passes the filter and no later row that passes has the
/// same id (a later row replaces an earlier one).
pub open spec fn is_last_kept(bases: Seq<(BaseProductId, ModerationStatus, StoreId)>, store: Option<StoreId>, i: int) -> bool {
    &&& 0 <= i < bases.len()
    &&& kept(bases[i], store)
    &&& forall|j: int| i < j < bases.len() && kept(#[trigger] bases[j], store) ==> bases[j].0 != bases[i].0
}

/// The base products of the most discounted variants, paired by position:
/// `variants` are the variants in discount order with their base product,
/// `bases` the base product rows read for them (id, status, store). The
/// rows that pass the filter (published, of `store` if given) are put in
/// the order of the last position of their id among the variants, and the
/// `t`-th of them is paired with the `t`-th variant. The result holds the
/// pairs as (row index, variant index). Every row that passes must have a
/// variant.
pub fn pair_variants(
    bases: &Vec<(BaseProductId, ModerationStatus, StoreId)>,
    variants: &Vec<(ProductId, BaseProductId)>,
    store: Option<StoreId>,
) -> (pairs: Vec<(usize, usize)>)
    requires
        forall|i: int|
            0 <= i < bases@.len() && kept(#[trigger] bases@[i], store) ==> exists|k: int|
                0 <= k < variants@.len() && variants@[k].1 == bases@[i].0,
    ensures
        pairs@.len() <= variants@.len(),
        forall|t: int| 0 <= t < pairs@.len() ==> (#[trigger] pairs@[t]).1 == t,
        forall|t: int| 0 <= t < pairs@.len() ==> is_last_kept(bases@, store, (#[trigger] pairs@[t]).0 as int),
        forall|t: int, u: int|
            0 <= t < u < pairs@.len() ==> last_index_of(
                variants@.map_values(|v: (ProductId, BaseProductId)| v.1),
                bases@[(#[trigger] pairs@[t]).0 as int].0,
            )->0 < last_index_of(
                variants@.map_values(|v: (ProductId, BaseProductId)| v.1),
                bases@[(#[trigger] pairs@[u]).0 as int].0,
            )->0,
        forall|i: int| is_last_kept(bases@, store, i) ==> exists|t: int| 0 <= t < pairs@.len() && (#[trigger] pairs@[t]).0 == i,
        (forall|n: int|
            0 <= n < variants@.len() ==> last_index_of(
                variants@.map_values(|v: (ProductId, BaseProductId)| v.1),
                #[trigger] variants@[n].1,
            ) == Some(n) && exists|i: int| is_last_kept(bases@, store, i) && bases@[i].0 == variants@[n].1) ==> forall|t: int|
            0 <= t < pairs@.len() ==> variants@[t].1 == bases@[(#[trigger] pairs@[t]).0 as int].0,
{
    let ghost keys_spec = variants@.map_values(|v: (ProductId, BaseProductId)| v.1);
    let mut keys: Vec<BaseProductId> = Vec::new();
    for k in 0..variants.len()
        invariant
            keys_spec == variants@.map_values(|v: (ProductId, BaseProductId)| v.1),
            keys@ == keys_spec.take(k as int),
    {
        keys.push(variants[k].1);
        assert(keys@ =~= keys_spec.take(k + 1));
    }
    assert(keys@ =~= keys_spec);
    let mut kept_idx: Vec<usize> = Vec::new();
    let mut kept_ids: Vec<BaseProductId> = Vec::new();
    for i in 0..bases.len()
        invariant
            kept_idx@.len() == kept_ids@.len(),
            forall|m: int| 0 <= m < kept_idx@.len() ==> (#[trigger] kept_idx@[m]) < i && kept(bases@[kept_idx@[m] as int], store)
                && kept_ids@[m] == bases@[kept_idx@[m] as int].0,
            forall|m: int, m2: int| 0 <= m < m2 < kept_idx@.len() ==> #[trigger] kept_idx@[m] < #[trigger] kept_idx@[m2],
            forall|j: int| 0 <= j < i && kept(#[trigger] bases@[j], store) ==> exists|m: int| 0 <= m < kept_idx@.len() && kept_idx@[m] == j,
    {
        let b = bases[i];
        let pass = b.1 == ModerationStatus::Published && match store {
            Some(s) => b.2 == s,
            None => true,
        };
        if pass {
            let ghost before = kept_idx@;
            kept_idx.push(i);
            kept_ids.push(b.0);
            proof {
                assert forall|j: int| 0 <= j < i + 1 && kept(#[trigger] bases@[j], store) implies exists|m: int|
                    0 <= m < kept_idx@.len() && kept_idx@[m] == j by {
                    if j < i {
                        let m = choose|m: int| 0 <= m < before.len() && before[m] == j;
                        assert(kept_idx@[m] == before[m]);
                    } else {
                        assert(kept_idx@[before.len() as int] == i);
                    }
                }
            }
        }
    }
    proof {
        assert forall|m: int| 0 <= m < kept_ids@.len() implies keys@.contains(#[trigger] kept_ids@[m]) by {
            let i = kept_idx@[m] as int;
            assert(kept(bases@[i], store));
            let k = choose|k: int| 0 <= k < variants@.len() && variants@[k].1 == bases@[i].0;
            assert(keys@[k] == kept_ids@[m]);
        }
    }
    let idx = order_by(&keys, &kept_ids);
    let mut pairs: Vec<(usize, usize)> = Vec::new();
    for t in 0..idx.len()
        invariant
            idx@.len() <= keys@.len(),
            keys@.len() == variants@.len(),
            kept_idx@.len() == kept_ids@.len(),
            forall|k: int| 0 <= k < idx@.len() ==> #[trigger] idx@[k] < kept_ids@.len(),
            pairs@.len() == t,
            forall|s: int| 0 <= s < t ==> (#[trigger] pairs@[s]) == (kept_idx@[idx@[s] as int], s as usize),
    {
        pairs.push((kept_idx[idx[t]], t));
    }
    proof {
        // A kept row is the last kept row with its id exactly when it is the
        // last entry with that id among the kept ids.
        assert forall|m: int| 0 <= m < kept_ids@.len() implies (last_index_of(kept_ids@, kept_ids@[m]) == Some(m)
            <==> is_last_kept(bases@, store, #[trigger] kept_idx@[m] as int)) by {
            lemma_last_index_of(kept_ids@, kept_ids@[m]);
            let i = kept_idx@[m] as int;
            if last_index_of(kept_ids@, kept_ids@[m]) == Some(m) {
                assert forall|j: int| i < j < bases@.len() && kept(#[trigger] bases@[j], store) implies bases@[j].0
                    != bases@[i].0 by {
                    let m2 = choose|m2: int| 0 <= m2 < kept_idx@.len() && kept_idx@[m2] == j;
                    if m2 <= m {
                        if m2 < m {
                            assert(kept_idx@[m2] < kept_idx@[m]);
                        }
                    }
                    assert(kept_ids@[m2] != kept_ids@[m]);
                }
            }
            if is_last_kept(bases@, store, i) {
                match last_index_of(kept_ids@, kept_ids@[m]) {
                    Some(p) => {
                        if p != m {
                            assert(kept_idx@[m] < kept_idx@[p]);
                            assert(bases@[kept_idx@[p] as int].0 == bases@[i].0);
                        }
                    },
                    None => {},
                }
            }
        }
        assert forall|t: int| 0 <= t < pairs@.len() implies is_last_kept(bases@, store, (#[trigger] pairs@[t]).0 as int) by {
            assert(pairs@[t] == (kept_idx@[idx@[t] as int], t as usize));
        }
        assert forall|t: int, u: int| 0 <= t < u < pairs@.len() implies last_index_of(
            variants@.map_values(|v: (ProductId, BaseProductId)| v.1),
            bases@[(#[trigger] pairs@[t]).0 as int].0,
        )->0 < last_index_of(
            variants@.map_values(|v: (ProductId, BaseProductId)| v.1),
            bases@[(#[trigger] pairs@[u]).0 as int].0,
        )->0 by {
            assert(pairs@[t] == (kept_idx@[idx@[t] as int], t as usize));
            assert(pairs@[u] == (kept_idx@[idx@[u] as int], u as usize));
            assert(kept_ids@[idx@[t] as int] == bases@[pairs@[t].0 as int].0);
            assert(kept_ids@[idx@[u] as int] == bases@[pairs@[u].0 as int].0);
        }
        assert forall|i: int| is_last_kept(bases@, store, i) implies exists|t: int|
            0 <= t < pairs@.len() && (#[trigger] pairs@[t]).0 == i by {
            let m = choose|m: int| 0 <= m < kept_idx@.len() && kept_idx@[m] == i;
            assert(last_index_of(kept_ids@, kept_ids@[m]) == Some(m));
            assert(idx@.contains(m as usize));
            let t = choose|t: int| 0 <= t < idx@.len() && idx@[t] == m as usize;
            assert(pairs@[t] == (kept_idx@[idx@[t] as int], t as usize));
        }
        let keys_s = variants@.map_values(|v: (ProductId, BaseProductId)| v.1);
        if forall|n: int|
            0 <= n < variants@.len() ==> last_index_of(keys_s, #[trigger] variants@[n].1) == Some(n) && exists|i: int|
                is_last_kept(bases@, store, i) && bases@[i].0 == variants@[n].1 {
            let p = Seq::new(pairs@.len(), |t: int| last_index_of(keys_s, bases@[pairs@[t].0 as int].0)->0);
            assert forall|t: int| 0 <= t < p.len() implies 0 <= #[trigger] p[t] by {
                lemma_last_index_of(keys_s, bases@[pairs@[t].0 as int].0);
                assert(is_last_kept(bases@, store, pairs@[t].0 as int));
                let m = idx@[t] as int;
                assert(pairs@[t] == (kept_idx@[m], t as usize));
                assert(keys@.contains(kept_ids@[m]));
            }
            assert forall|t: int, u: int| 0 <= t < u < p.len() implies p[t] < p[u] by {
                assert(pairs@[t].0 == pairs@[t].0);
                assert(pairs@[u].0 == pairs@[u].0);
            }
            assert forall|v: int| 0 <= v < variants@.len() implies #[trigger] hits(p, v) by {
                assert(last_index_of(keys_s, variants@[v].1) == Some(v));
                let i = choose|i: int| is_last_kept(bases@, store, i) && bases@[i].0 == variants@[v].1;
                let t = choose|t: int| 0 <= t < pairs@.len() && (#[trigger] pairs@[t]).0 == i;
                assert(p[t] == v);
            }
            lemma_increasing_cover(p, variants@.len() as int);
            assert forall|t: int| 0 <= t < pairs@.len() implies variants@[t].1 == bases@[(#[trigger] pairs@[t]).0 as int].0 by {
                assert(p[t] == t);
                lemma_last_index_of(keys_s, bases@[pairs@[t].0 as int].0);
                let m = idx@[t] as int;
                assert(pairs@[t] == (kept_idx@[m], t as usize));
                assert(keys@.contains(kept_ids@[m]));
                assert(keys_s[t] == variants@[t].1);
            }
        }
    }
    pairs
}

} // verus!
