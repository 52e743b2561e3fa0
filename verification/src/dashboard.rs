//! Dashboard figures: today's revenue and sale count, and the products
//! running low on stock.

use vstd::prelude::*;

use crate::dates::{day_ceil_of, day_floor_of, wf_timestamp};
use crate::error::{AppError, AppResult};
use crate::money::Money;
use crate::query::{ids_views, key_views, page_of, select_page, sort_positions, KeyV, SortKey};
use crate::store::{Product, Sale, Store};
use crate::text::lex_le;

verus! {

/// The exact sum of the sales' totals.
pub open spec fn revenue_of(sales: Seq<Sale>) -> int
    decreases sales.len(),
{
    if sales.len() == 0 {
        0
    } else {
        revenue_of(sales.drop_last()) + sales.last().total_amount.val()
    }
}

/// A date lies in the inclusive timestamp window.
pub open spec fn date_in_window(d: Seq<char>, lo: Seq<char>, hi: Seq<char>) -> bool {
    lex_le(lo, d) && lex_le(d, hi)
}

/// The sales dated today.
pub open spec fn todays_sales(sales: Seq<Sale>, now: Seq<char>) -> Seq<Sale> {
    sales.filter(|s: Sale| date_in_window(s.date@, day_floor_of(now), day_ceil_of(now)))
}

/// Revenue sums across concatenation.
pub proof fn lemma_revenue_concat(a: Seq<Sale>, b: Seq<Sale>)
    ensures
        revenue_of(a + b) == revenue_of(a) + revenue_of(b),
    decreases b.len(),
{
    if b.len() == 0 {
        assert(a + b =~= a);
    } else {
        lemma_revenue_concat(a, b.drop_last());
        assert((a + b).drop_last() =~= a + b.drop_last());
        assert((a + b).last() == b.last());
    }
}

/// Sales with non-negative totals keep any filtered revenue non-negative.
pub proof fn lemma_revenue_filter_nonneg(sales: Seq<Sale>, pred: spec_fn(Sale) -> bool)
    requires
        forall|k: int| 0 <= k < sales.len() ==> (#[trigger] sales[k]).total_amount.val() >= 0,
    ensures
        revenue_of(sales.filter(pred)) >= 0,
    decreases sales.len(),
{
    if sales.len() > 0 {
        let dl = sales.drop_last();
        assert forall|k: int| 0 <= k < dl.len() implies (#[trigger] dl[k]).total_amount.val()
            >= 0 by {
            assert(dl[k] == sales[k]);
        }
        lemma_revenue_filter_nonneg(dl, pred);
        dl.lemma_filter_push(sales.last(), pred);
        assert(dl.push(sales.last()) =~= sales);
        let f = sales.filter(pred);
        if pred(sales.last()) {
            assert(f == dl.filter(pred).push(sales.last()));
            assert(f.drop_last() =~= dl.filter(pred));
            assert(f.last() == sales.last());
            assert(sales[sales.len() - 1].total_amount.val() >= 0);
        } else {
            assert(f == dl.filter(pred));
        }
    }
}

/// In a well-formed store every committed total is non-negative.
pub proof fn lemma_sale_totals_nonneg(store: Store)
    requires
        store.wf(),
    ensures
        forall|k: int|
            0 <= k < store.sales@.len() ==> (#[trigger] store.sales@[k]).total_amount.val() >= 0,
{
    assert forall|k: int| 0 <= k < store.sales@.len() implies (
    #[trigger] store.sales@[k]).total_amount.val() >= 0 by {
        crate::store::lemma_items_total_nonneg(store.sale_items@, store.sales@[k].id@);
    }
}

impl Store {
    /// Today's total revenue and number of sales.  Fails
    /// `ValidationError` exactly when `now` is malformed, and `Database`
    /// exactly when today's exact revenue leaves the representable range.
    pub fn get_today_sales_summary(&self, now: &str) -> (r: AppResult<(Money, i64)>)
        requires
            self.wf(),
            self.sales@.len() <= i64::MAX,
        ensures
            match r {
                Ok((revenue, count)) => {
                    &&& wf_timestamp(now@)
                    &&& revenue.val() == revenue_of(todays_sales(self.sales@, now@))
                    &&& count == todays_sales(self.sales@, now@).len()
                },
                Err(AppError::ValidationError(_)) => !wf_timestamp(now@),
                Err(AppError::Database(_)) => wf_timestamp(now@) && revenue_of(
                    todays_sales(self.sales@, now@),
                ) > i128::MAX,
                Err(_) => false,
            },
    {
        if !crate::dates::validate_timestamp(now) {
            return Err(AppError::ValidationError("malformed timestamp".to_owned()));
        }
        let lo = crate::text::chars_of(crate::dates::day_floor(now).as_str());
        let hi = crate::text::chars_of(crate::dates::day_ceil(now).as_str());
        let ghost pred = |s: Sale| date_in_window(s.date@, day_floor_of(now@), day_ceil_of(now@));
        let mut revenue = Money::zero();
        let mut count: usize = 0;
        let mut i: usize = 0;
        proof {
            assert(self.sales@.subrange(0, 0).filter(pred) =~= Seq::<Sale>::empty());
        }
        while i < self.sales.len()
            invariant
                self.wf(),
                i <= self.sales@.len(),
                wf_timestamp(now@),
                lo@ == day_floor_of(now@),
                hi@ == day_ceil_of(now@),
                pred == (|s: Sale| date_in_window(s.date@, day_floor_of(now@), day_ceil_of(now@))),
                count as int == self.sales@.subrange(0, i as int).filter(pred).len(),
                count <= i,
                revenue.val() == revenue_of(self.sales@.subrange(0, i as int).filter(pred)),
            decreases self.sales@.len() - i,
        {
            let ghost prefix = self.sales@.subrange(0, i as int);
            proof {
                prefix.lemma_filter_push(self.sales@[i as int], pred);
                assert(self.sales@.subrange(0, i + 1) =~= prefix.push(self.sales@[i as int]));
            }
            let s = &self.sales[i];
            let d = crate::text::chars_of(s.date.as_str());
            let lo_ok = !crate::text::lex_lt_exec(&d, &lo);
            let hi_ok = !crate::text::lex_lt_exec(&hi, &d);
            if lo_ok && hi_ok {
                let next = match revenue.checked_add(s.total_amount) {
                    Some(v) => v,
                    None => {
                        proof {
                            lemma_sale_totals_nonneg(*self);
                            assert forall|k: int| 0 <= k < prefix.len() implies (
                            #[trigger] prefix[k]).total_amount.val() >= 0 by {
                                assert(prefix[k] == self.sales@[k]);
                            }
                            lemma_revenue_filter_nonneg(prefix, pred);
                            let cur = self.sales@[i as int];
                            assert(pred(cur));
                            let f2 = prefix.filter(pred).push(cur);
                            assert(self.sales@.subrange(0, i + 1).filter(pred) == f2);
                            assert(f2.drop_last() =~= prefix.filter(pred));
                            assert(revenue_of(f2) == revenue.val() + cur.total_amount.val());
                            lemma_overflow_is_final(*self, pred, i as int);
                        }
                        return Err(AppError::Database("revenue sum out of range".to_owned()));
                    },
                };
                proof {
                    let f2 = prefix.filter(pred).push(self.sales@[i as int]);
                    assert(f2.drop_last() =~= prefix.filter(pred));
                }
                revenue = next;
                count = count + 1;
            }
            i = i + 1;
        }
        proof {
            assert(self.sales@.subrange(0, self.sales@.len() as int) =~= self.sales@);
            self.sales@.lemma_filter_len(pred);
        }
        Ok((revenue, count as i64))
    }

    /// The products with stock at or under the threshold, lowest first.
    pub fn get_low_stock_products(&self, threshold: i32) -> (r: AppResult<Vec<Product>>)
        ensures
            match r {
                Ok(items) => {
                    let rows = self.products@.filter(
                        |p: Product| p.stock_in_sale_units <= threshold,
                    );
                    items@ == page_of(
                        rows,
                        rows.map_values(|p: Product| KeyV::Num(p.stock_in_sale_units as int)),
                        rows.map_values(|p: Product| p.id@),
                        true,
                        0,
                        rows.len() as int,
                    )
                },
                Err(_) => false,
            },
    {
        let ghost pred = |p: Product| p.stock_in_sale_units <= threshold;
        let mut rows: Vec<Product> = Vec::new();
        let mut i: usize = 0;
        proof {
            assert(self.products@.subrange(0, 0).filter(pred) =~= Seq::<Product>::empty());
        }
        while i < self.products.len()
            invariant
                i <= self.products@.len(),
                pred == (|p: Product| p.stock_in_sale_units <= threshold),
                rows@ == self.products@.subrange(0, i as int).filter(pred),
            decreases self.products@.len() - i,
        {
            let ghost prefix = self.products@.subrange(0, i as int);
            proof {
                prefix.lemma_filter_push(self.products@[i as int], pred);
                assert(self.products@.subrange(0, i + 1) =~= prefix.push(
                    self.products@[i as int],
                ));
            }
            let p = &self.products[i];
            if p.stock_in_sale_units <= threshold {
                rows.push(p.clone());
            }
            proof {
                assert(rows@ =~= self.products@.subrange(0, i + 1).filter(pred));
            }
            i = i + 1;
        }
        proof {
            assert(self.products@.subrange(0, self.products@.len() as int) =~= self.products@);
        }
        let mut keys: Vec<SortKey> = Vec::new();
        let mut idv: Vec<Vec<char>> = Vec::new();
        let mut j: usize = 0;
        while j < rows.len()
            invariant
                j <= rows@.len(),
                keys@.len() == j,
                idv@.len() == j,
                forall|q: int|
                    0 <= q < j ==> (#[trigger] keys@[q]).view_key() == KeyV::Num(
                        rows@[q].stock_in_sale_units as int,
                    ),
                forall|q: int| 0 <= q < j ==> (#[trigger] idv@[q])@ == rows@[q].id@,
            decreases rows@.len() - j,
        {
            keys.push(SortKey::Num(rows[j].stock_in_sale_units as i128));
            idv.push(crate::text::chars_of(rows[j].id.as_str()));
            j = j + 1;
        }
        proof {
            assert(key_views(keys@) =~= rows@.map_values(
                |p: Product| KeyV::Num(p.stock_in_sale_units as int),
            ));
            assert(ids_views(idv@) =~= rows@.map_values(|p: Product| p.id@));
        }
        let order = sort_positions(&keys, &idv, true);
        let n = rows.len();
        let items = select_page(&rows, &order, 0, n);
        proof {
            let rowsg = self.products@.filter(pred);
            let target = order@.subrange(0, n as int).map_values(|q: usize| rows@[q as int]);
            assert forall|q: int| 0 <= q < items@.len() implies items@[q] == target[q] by {
                assert(vstd::pervasive::cloned::<Product>(target[q], items@[q]));
            }
            assert(items@ =~= target);
            assert(items@ =~= page_of(
                rowsg,
                rowsg.map_values(|p: Product| KeyV::Num(p.stock_in_sale_units as int)),
                rowsg.map_values(|p: Product| p.id@),
                true,
                0,
                rowsg.len() as int,
            ));
        }
        Ok(items)
    }
}

/// The revenue of a filtered prefix never exceeds the whole filtered
/// revenue, so an overflow while accumulating means the exact total is
/// out of range.
pub proof fn lemma_overflow_is_final(store: Store, pred: spec_fn(Sale) -> bool, i: int)
    requires
        store.wf(),
        0 <= i < store.sales@.len(),
    ensures
        revenue_of(store.sales@.filter(pred)) >= revenue_of(
            store.sales@.subrange(0, i + 1).filter(pred),
        ),
{
    lemma_sale_totals_nonneg(store);
    let sales = store.sales@;
    let head = sales.subrange(0, i + 1);
    let tail = sales.skip(i + 1);
    assert(sales =~= head + tail);
    vstd::seq::Seq::filter_distributes_over_add(head, tail, pred);
    lemma_revenue_concat(head.filter(pred), tail.filter(pred));
    assert forall|k: int| 0 <= k < tail.len() implies (#[trigger] tail[k]).total_amount.val()
        >= 0 by {
        assert(tail[k] == sales[i + 1 + k]);
    }
    lemma_revenue_filter_nonneg(tail, pred);
}

} // verus!
