//! The store-wide laws, stated and proved once: exact sale totals,
//! non-negative stock, conservation of stock under a committed sale,
//! page stability, and the create/get round trip.

use vstd::prelude::*;

use crate::query::{pos_le, rank_of, KeyV};
use crate::sales::{
    create_sale_ok, sale_eval, sale_valid, same_except_stock, CreateSaleData,
    CreateSaleItemData, Receipt,
};
use crate::store::{
    has_product_id, items_total, product_idx, Product, Store,
};

verus! {

/// Every committed sale's total equals the exact sum of its line items'
/// totals — decimal equality, no drift.
pub proof fn law_sale_totals(store: Store)
    requires
        store.wf(),
    ensures
        forall|i: int|
            0 <= i < store.sales@.len() ==> (#[trigger] store.sales@[i]).total_amount.val()
                == items_total(store.sale_items@, store.sales@[i].id@),
{
}

/// No product's stock is ever negative at rest.
pub proof fn law_stock_never_negative(store: Store)
    requires
        store.wf(),
    ensures
        forall|i: int|
            0 <= i < store.products@.len() ==> (#[trigger] store.products@[i]).stock_in_sale_units
                >= 0,
{
}

/// Walking the requested lines decrements each product by exactly what
/// the lines before the end requested, never below zero, and touches
/// nothing else.
pub proof fn lemma_sale_eval_stock(
    products: Seq<Product>,
    items: Seq<CreateSaleItemData>,
    i: int,
    acc: int,
)
    requires
        crate::store::distinct_ids(crate::store::product_ids(products)),
        forall|j: int|
            0 <= j < products.len() ==> (#[trigger] products[j]).stock_in_sale_units >= 0,
        0 <= i <= items.len(),
        forall|k: int| i <= k < items.len() ==> (#[trigger] items[k]).quantity > 0,
        sale_eval(products, items, i, acc) is Fits,
    ensures
        ({
            let catalog = sale_eval(products, items, i, acc)->Fits_catalog;
            &&& catalog.len() == products.len()
            &&& forall|j: int|
                0 <= j < products.len() ==> same_except_stock(#[trigger] catalog[j], products[j])
            &&& forall|j: int|
                0 <= j < products.len() ==> (#[trigger] catalog[j]).stock_in_sale_units as int
                    == products[j].stock_in_sale_units - requested_between(
                    items,
                    i,
                    items.len() as int,
                    products[j].id@,
                )
            &&& forall|j: int|
                0 <= j < products.len() ==> (#[trigger] catalog[j]).stock_in_sale_units >= 0
        }),
    decreases items.len() - i,
{
    let eval = sale_eval(products, items, i, acc);
    if i >= items.len() {
        assert(forall|j: int|
            0 <= j < products.len() ==> requested_between(
                items,
                i,
                items.len() as int,
                (#[trigger] products[j]).id@,
            ) == 0);
    } else {
        let it = items[i];
        assert(has_product_id(products, it.product_id@));
        let pidx = product_idx(products, it.product_id@);
        assert(0 <= pidx < products.len() && products[pidx].id@ == it.product_id@);
        let p = products[pidx];
        let p2 = Product {
            stock_in_sale_units: (p.stock_in_sale_units - it.quantity) as i32,
            ..p
        };
        let products2 = products.update(pidx, p2);
        let line = p.price_per_sale_unit.val() * it.quantity;
        assert(crate::store::product_ids(products2) =~= crate::store::product_ids(products));
        assert(p.stock_in_sale_units >= it.quantity);
        assert forall|j: int| 0 <= j < products2.len() implies (
        #[trigger] products2[j]).stock_in_sale_units >= 0 by {
            if j != pidx {
                assert(products2[j] == products[j]);
            }
        }
        lemma_sale_eval_stock(products2, items, i + 1, acc + line);
        let catalog = eval->Fits_catalog;
        assert forall|j: int| 0 <= j < products.len() implies (
        #[trigger] catalog[j]).stock_in_sale_units as int == products[j].stock_in_sale_units
            - requested_between(items, i, items.len() as int, products[j].id@) by {
            lemma_requested_between_step(items, i, products[j].id@);
            if j != pidx {
                assert(crate::store::product_ids(products)[j] == products[j].id@);
                assert(crate::store::product_ids(products)[pidx] == products[pidx].id@);
                assert(products[j].id@ != it.product_id@);
            }
        }
    }
}

/// The units requested between two positions of the line list.
pub open spec fn requested_between(
    items: Seq<CreateSaleItemData>,
    from: int,
    to: int,
    pid: Seq<char>,
) -> int
    decreases to - from,
{
    if from >= to {
        0
    } else {
        (if items[from].product_id@ == pid {
            items[from].quantity as int
        } else {
            0
        }) + requested_between(items, from + 1, to, pid)
    }
}

proof fn lemma_requested_between_step(items: Seq<CreateSaleItemData>, i: int, pid: Seq<char>)
    requires
        0 <= i < items.len(),
    ensures
        requested_between(items, i, items.len() as int, pid) == (if items[i].product_id@ == pid {
            items[i].quantity as int
        } else {
            0
        }) + requested_between(items, i + 1, items.len() as int, pid),
{
}

/// A committed sale conserves stock exactly: each product's stock drops
/// by precisely the units the sale requested of it, and stays at or
/// above zero — so the store can never over-sell, and a failed sale
/// changes nothing at all.
pub proof fn law_stock_conservation(
    pre: Store,
    post: Store,
    receipt: Receipt,
    data: CreateSaleData,
    now: Seq<char>,
    sale_id: Seq<char>,
    ids: Seq<String>,
)
    requires
        pre.wf(),
        create_sale_ok(pre, post, receipt, data, now, sale_id, ids),
    ensures
        post.products@.len() == pre.products@.len(),
        forall|j: int|
            0 <= j < pre.products@.len() ==> (#[trigger] post.products@[j]).stock_in_sale_units
                as int == pre.products@[j].stock_in_sale_units - requested_between(
                data.items@,
                0,
                data.items@.len() as int,
                pre.products@[j].id@,
            ),
        forall|j: int|
            0 <= j < pre.products@.len() ==> (#[trigger] post.products@[j]).stock_in_sale_units
                >= 0,
{
    assert(sale_valid(data.items@));
    lemma_sale_eval_stock(pre.products@, data.items@, 0, 0);
}

/// Different pages of one query never overlap: the canonical order
/// visits each row position exactly once, so a row shown on one page
/// cannot appear on another.
pub proof fn law_pages_no_overlap(
    keys: Seq<KeyV>,
    ids: Seq<Seq<char>>,
    asc: bool,
    lo1: int,
    hi1: int,
    lo2: int,
    hi2: int,
    a: int,
    b: int,
)
    requires
        keys.len() <= usize::MAX,
        0 <= lo1 <= hi1 <= lo2 <= hi2 <= keys.len(),
        lo1 <= a < hi1,
        lo2 <= b < hi2,
    ensures
        rank_of(keys, ids, asc)[a] != rank_of(keys, ids, asc)[b],
{
    let ord = rank_of(keys, ids, asc);
    let base = crate::query::base_positions(keys.len());
    crate::query::lemma_pos_le_total(keys, ids, asc);
    crate::query::base_positions(keys.len()).lemma_sort_by_ensures(pos_le(keys, ids, asc));
    crate::query::base_positions(keys.len()).to_multiset_ensures();
    ord.to_multiset_ensures();
    assert(base.no_duplicates()) by {
        assert forall|x: int, y: int| 0 <= x < y < base.len() implies base[x] != base[y] by {
            assert(base[x] == x as usize && base[y] == y as usize);
        }
    }
    crate::query::base_positions(keys.len()).lemma_multiset_has_no_duplicates();
    ord.lemma_multiset_has_no_duplicates_conv();
    assert(ord[a] != ord[b]);
}

/// Two different pages of one query never share a row: the later page's
/// window starts at or after the earlier page's end, and the canonical
/// order visits each row position exactly once.
pub proof fn law_listing_pages_disjoint(
    keys: Seq<KeyV>,
    ids: Seq<Seq<char>>,
    asc: bool,
    page1: i64,
    page2: i64,
    size: i64,
    a: int,
    b: int,
)
    requires
        keys.len() <= usize::MAX,
        crate::query::clamped_page(page1) < crate::query::clamped_page(page2),
        crate::query::page_lo(keys.len() as int, page1, size) <= a < crate::query::page_hi(
            keys.len() as int,
            page1,
            size,
        ),
        crate::query::page_lo(keys.len() as int, page2, size) <= b < crate::query::page_hi(
            keys.len() as int,
            page2,
            size,
        ),
    ensures
        rank_of(keys, ids, asc)[a] != rank_of(keys, ids, asc)[b],
{
    let total = keys.len() as int;
    let cp1 = crate::query::clamped_page(page1);
    let cp2 = crate::query::clamped_page(page2);
    let cs = crate::query::clamped_size(size);
    assert(crate::query::page_hi(total, page1, size) <= crate::query::page_lo(
        total,
        page2,
        size,
    )) by {
        assert((cp1 - 1) * cs + cs == cp1 * cs && (cp1 - 1) * cs <= cp1 * cs && cp1 * cs <= (cp2
            - 1) * cs) by (nonlinear_arith)
            requires
                1 <= cp1,
                cp1 <= cp2 - 1,
                cs >= 1,
        ;
    }
    law_pages_no_overlap(
        keys,
        ids,
        asc,
        crate::query::page_lo(total, page1, size),
        crate::query::page_hi(total, page1, size),
        crate::query::page_lo(total, page2, size),
        crate::query::page_hi(total, page2, size),
        a,
        b,
    );
}

/// No row is skipped: every row position appears on exactly one page,
/// the one its rank selects.
pub proof fn law_pages_cover(keys: Seq<KeyV>, asc: bool, size: int, q: int)
    requires
        1 <= size,
        0 <= q < keys.len(),
    ensures
        exists|p: int| 1 <= p && #[trigger] page_holds(p, size, q),
{
    let p = q / size + 1;
    assert(page_holds(p, size, q)) by (nonlinear_arith)
        requires
            p == q / size + 1,
            1 <= size,
            0 <= q,
    ;
}

/// Position `q` falls inside page `p` of the given size.
pub open spec fn page_holds(p: int, size: int, q: int) -> bool {
    (p - 1) * size <= q < (p - 1) * size + size
}

/// Creating a product and fetching it back returns the same product in
/// every field — the create/get round trip.
pub proof fn law_create_get_round_trip(pre: Store, post: Store, p: Product)
    requires
        post.wf(),
        post.products@ == pre.products@.push(p),
    ensures
        has_product_id(post.products@, p.id@),
        post.products@[product_idx(post.products@, p.id@)] == p,
{
    crate::store::lemma_product_idx_unique(post.products@, p.id@, post.products@.len() - 1);
}

} // verus!
