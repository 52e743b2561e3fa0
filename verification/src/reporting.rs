//! Report aggregation over a date range: total revenue, sale count, and
//! the five products with the highest quantity sold.

use vstd::prelude::*;

use crate::dashboard::{
    date_in_window, lemma_overflow_is_final, lemma_revenue_filter_nonneg, lemma_sale_totals_nonneg,
    revenue_of,
};
use crate::dates::wf_timestamp;
use crate::error::{AppError, AppResult};
use crate::money::Money;
use crate::query::{ids_views, key_views, pos_le, rank_of, sort_positions, KeyV, SortKey};
use crate::store::{
    has_product_id, has_sale_id, product_idx, sale_idx, Product, Sale, SaleItem, Store,
};
use vstd::relations::sorted_by;

verus! {

/// The aggregate a report renders.
#[derive(Debug)]
pub struct ReportData {
    pub total_revenue: Money,
    pub total_sales: i64,
    /// Best-selling products with their total quantity, best first.
    pub top_products: Vec<(Product, i64)>,
}

/// The item's sale lies in the window.
pub open spec fn item_in_window(
    it: SaleItem,
    sales: Seq<Sale>,
    lo: Seq<char>,
    hi: Seq<char>,
) -> bool {
    has_sale_id(sales, it.sale_id@) && date_in_window(
        sales[sale_idx(sales, it.sale_id@)].date@,
        lo,
        hi,
    )
}

/// The units of one product sold inside the window.
pub open spec fn sold_qty(
    items: Seq<SaleItem>,
    sales: Seq<Sale>,
    lo: Seq<char>,
    hi: Seq<char>,
    pid: Seq<char>,
) -> int
    decreases items.len(),
{
    if items.len() == 0 {
        0
    } else {
        sold_qty(items.drop_last(), sales, lo, hi, pid) + if items.last().product_id@ == pid
            && item_in_window(items.last(), sales, lo, hi) {
            items.last().quantity as int
        } else {
            0
        }
    }
}

/// The sales inside the window.
pub open spec fn sales_in_window(sales: Seq<Sale>, lo: Seq<char>, hi: Seq<char>) -> Seq<Sale> {
    sales.filter(|s: Sale| date_in_window(s.date@, lo, hi))
}

/// Where this product already has a group, if anywhere.
fn find_group(pids: &Vec<String>, pid: &str) -> (r: Option<usize>)
    ensures
        match r {
            Some(g) => g < pids@.len() && pids@[g as int]@ == pid@,
            None => forall|a: int| 0 <= a < pids@.len() ==> (#[trigger] pids@[a])@ != pid@,
        },
{
    let mut g: usize = 0;
    while g < pids.len()
        invariant
            g <= pids@.len(),
            forall|a: int| 0 <= a < g ==> (#[trigger] pids@[a])@ != pid@,
        decreases pids@.len() - g,
    {
        if crate::text::str_eq(pids[g].as_str(), pid) {
            return Some(g);
        }
        g = g + 1;
    }
    None
}

/// The store's line item at this position is internally consistent.
pub open spec fn item_wf_here(store: &Store, w: int) -> bool {
    0 <= w < store.sale_items@.len() && crate::store::item_wf(store.sale_items@[w])
}

impl Store {
    /// The report aggregate for a date range: the revenue and count of
    /// the sales in the window, and up to five products with the
    /// highest quantity sold, best first, quantities exact, ties broken
    /// by first appearance in the ledger.  Every product sold in the
    /// window that is not listed sold no more than the last listed one.
    pub fn get_report_data(&self, start_date: &str, end_date: &str) -> (r: AppResult<ReportData>)
        requires
            self.wf(),
            self.sales@.len() <= i64::MAX,
        ensures
            match r {
                Ok(rd) => {
                    &&& wf_timestamp(start_date@) && wf_timestamp(end_date@)
                    &&& rd.total_sales == sales_in_window(self.sales@, start_date@, end_date@).len()
                    &&& rd.total_revenue.val() == revenue_of(
                        sales_in_window(self.sales@, start_date@, end_date@),
                    )
                    &&& rd.top_products@.len() <= 5
                    &&& forall|k: int|
                        0 <= k < rd.top_products@.len() ==> {
                            let (p, q) = #[trigger] rd.top_products@[k];
                            &&& has_product_id(self.products@, p.id@)
                            &&& p == self.products@[product_idx(self.products@, p.id@)]
                            &&& q as int == sold_qty(
                                self.sale_items@,
                                self.sales@,
                                start_date@,
                                end_date@,
                                p.id@,
                            )
                            &&& q > 0
                        }
                    &&& forall|k: int, l: int|
                        0 <= k < l < rd.top_products@.len() ==> rd.top_products@[k].0.id@
                            != rd.top_products@[l].0.id@
                    &&& forall|k: int, l: int|
                        0 <= k < l < rd.top_products@.len() ==> rd.top_products@[k].1
                            >= rd.top_products@[l].1
                    &&& forall|pid: Seq<char>|
                        (sold_qty(self.sale_items@, self.sales@, start_date@, end_date@, pid) > 0
                            && !(exists|k: int|
                            0 <= k < rd.top_products@.len() && (
                            #[trigger] rd.top_products@[k]).0.id@ == pid)) ==> (
                        rd.top_products@.len() == 5 && sold_qty(
                            self.sale_items@,
                            self.sales@,
                            start_date@,
                            end_date@,
                            pid,
                        ) <= rd.top_products@[4].1)
                },
                Err(AppError::ValidationError(_)) => !wf_timestamp(start_date@) || !wf_timestamp(
                    end_date@,
                ),
                Err(AppError::Database(_)) => revenue_of(
                    sales_in_window(self.sales@, start_date@, end_date@),
                ) > i128::MAX || exists|pid: Seq<char>|
                    #[trigger] sold_qty(
                        self.sale_items@,
                        self.sales@,
                        start_date@,
                        end_date@,
                        pid,
                    ) > i64::MAX,
                Err(_) => false,
            },
    {
        if !crate::dates::validate_timestamp(start_date) || !crate::dates::validate_timestamp(
            end_date,
        ) {
            return Err(AppError::ValidationError("malformed timestamp".to_owned()));
        }
        let ghost lo = start_date@;
        let ghost hi = end_date@;
        let lo_chars = crate::text::chars_of(start_date);
        let hi_chars = crate::text::chars_of(end_date);

        // revenue and count over the window
        let ghost spred = |s: Sale| date_in_window(s.date@, lo, hi);
        let mut revenue = Money::zero();
        let mut count: usize = 0;
        let mut i: usize = 0;
        proof {
            assert(self.sales@.subrange(0, 0).filter(spred) =~= Seq::<Sale>::empty());
        }
        while i < self.sales.len()
            invariant
                self.wf(),
                i <= self.sales@.len(),
                lo == start_date@,
                hi == end_date@,
                lo_chars@ == lo,
                hi_chars@ == hi,
                spred == (|s: Sale| date_in_window(s.date@, lo, hi)),
                count as int == self.sales@.subrange(0, i as int).filter(spred).len(),
                count <= i,
                revenue.val() == revenue_of(self.sales@.subrange(0, i as int).filter(spred)),
            decreases self.sales@.len() - i,
        {
            let ghost prefix = self.sales@.subrange(0, i as int);
            proof {
                prefix.lemma_filter_push(self.sales@[i as int], spred);
                assert(self.sales@.subrange(0, i + 1) =~= prefix.push(self.sales@[i as int]));
            }
            let s = &self.sales[i];
            let d = crate::text::chars_of(s.date.as_str());
            if !crate::text::lex_lt_exec(&d, &lo_chars) && !crate::text::lex_lt_exec(
                &hi_chars,
                &d,
            ) {
                let next = match revenue.checked_add(s.total_amount) {
                    Some(v) => v,
                    None => {
                        proof {
                            lemma_sale_totals_nonneg(*self);
                            assert forall|k: int| 0 <= k < prefix.len() implies (
                            #[trigger] prefix[k]).total_amount.val() >= 0 by {
                                assert(prefix[k] == self.sales@[k]);
                            }
                            lemma_revenue_filter_nonneg(prefix, spred);
                            let cur = self.sales@[i as int];
                            assert(spred(cur));
                            let f2 = prefix.filter(spred).push(cur);
                            assert(self.sales@.subrange(0, i + 1).filter(spred) == f2);
                            assert(f2.drop_last() =~= prefix.filter(spred));
                            assert(revenue_of(f2) == revenue.val() + cur.total_amount.val());
                            lemma_overflow_is_final(*self, spred, i as int);
                        }
                        return Err(AppError::Database("revenue sum out of range".to_owned()));
                    },
                };
                proof {
                    let f2 = prefix.filter(spred).push(self.sales@[i as int]);
                    assert(f2.drop_last() =~= prefix.filter(spred));
                }
                revenue = next;
                count = count + 1;
            }
            i = i + 1;
        }
        proof {
            assert(self.sales@.subrange(0, self.sales@.len() as int) =~= self.sales@);
            self.sales@.lemma_filter_len(spred);
        }

        // group the window's line items by product
        let mut pids: Vec<String> = Vec::new();
        let mut qtys: Vec<i64> = Vec::new();
        let mut w: usize = 0;
        while w < self.sale_items.len()
            invariant
                self.wf(),
                w <= self.sale_items@.len(),
                lo == start_date@,
                hi == end_date@,
                lo_chars@ == lo,
                hi_chars@ == hi,
                pids@.len() == qtys@.len(),
                forall|a: int, b: int| 0 <= a < b < pids@.len() ==> pids@[a]@ != pids@[b]@,
                forall|a: int|
                    0 <= a < pids@.len() ==> has_product_id(self.products@, (#[trigger] pids@[a])@),
                forall|a: int|
                    0 <= a < pids@.len() ==> (#[trigger] qtys@[a]) as int == sold_qty(
                        self.sale_items@.subrange(0, w as int),
                        self.sales@,
                        lo,
                        hi,
                        pids@[a]@,
                    ),
                forall|a: int| 0 <= a < qtys@.len() ==> (#[trigger] qtys@[a]) > 0,
                forall|pid: Seq<char>|
                    #[trigger] sold_qty(self.sale_items@.subrange(0, w as int), self.sales@, lo, hi, pid)
                        != 0 ==> exists|a: int|
                        0 <= a < pids@.len() && (#[trigger] pids@[a])@ == pid,
            decreases self.sale_items@.len() - w,
        {
            let ghost prefix = self.sale_items@.subrange(0, w as int);
            let ghost cur = self.sale_items@[w as int];
            let it = &self.sale_items[w];
            proof {
                assert forall|pid: Seq<char>| true implies #[trigger] sold_qty(
                    self.sale_items@.subrange(0, w + 1),
                    self.sales@,
                    lo,
                    hi,
                    pid,
                ) == sold_qty(prefix, self.sales@, lo, hi, pid) + (if cur.product_id@ == pid
                    && item_in_window(cur, self.sales@, lo, hi) {
                    cur.quantity as int
                } else {
                    0
                }) by {
                    let sub1 = self.sale_items@.subrange(0, w + 1);
                    assert(sub1.drop_last() =~= prefix);
                    assert(sub1.last() == cur);
                }
            }
            // is the item's sale inside the window?
            let in_window: bool = match self.find_sale(it.sale_id.as_str()) {
                None => false,
                Some(si) => {
                    proof {
                        crate::store::lemma_sale_idx_unique(self.sales@, it.sale_id@, si as int);
                    }
                    let d = crate::text::chars_of(self.sales[si].date.as_str());
                    !crate::text::lex_lt_exec(&d, &lo_chars) && !crate::text::lex_lt_exec(
                        &hi_chars,
                        &d,
                    )
                },
            };
            assert(in_window == item_in_window(cur, self.sales@, lo, hi));
            if in_window {
                let found = find_group(&pids, it.product_id.as_str());
                match found {
                    Some(g) => {
                        let updated = match qtys[g].checked_add(it.quantity as i64) {
                            Some(v) => v,
                            None => {
                                proof {
                                    let pid = cur.product_id@;
                                    assert(pids@[g as int]@ == pid);
                                    assert(qtys@[g as int] as int == sold_qty(
                                        prefix,
                                        self.sales@,
                                        lo,
                                        hi,
                                        pid,
                                    ));
                                    lemma_sold_overflow_is_final(*self, lo, hi, pid, w as int);
                                    assert(sold_qty(
                                        self.sale_items@,
                                        self.sales@,
                                        lo,
                                        hi,
                                        pid,
                                    ) > i64::MAX);
                                }
                                return Err(
                                    AppError::Database("quantity sum out of range".to_owned()),
                                );
                            },
                        };
                        proof {
                            assert(item_wf_here(self, w as int));
                        }
                        vstd::pervasive::VecAdditionalExecFns::set(&mut qtys, g, updated);
                        proof {
                            assert forall|a: int| 0 <= a < pids@.len() implies (
                            #[trigger] qtys@[a]) as int == sold_qty(
                                self.sale_items@.subrange(0, w + 1),
                                self.sales@,
                                lo,
                                hi,
                                pids@[a]@,
                            ) by {
                                if a != g {
                                    assert(pids@[a]@ != pids@[g as int]@);
                                }
                            }
                            assert forall|pid: Seq<char>|
                                #[trigger] sold_qty(
                                    self.sale_items@.subrange(0, w + 1),
                                    self.sales@,
                                    lo,
                                    hi,
                                    pid,
                                ) != 0 implies exists|a: int|
                                0 <= a < pids@.len() && (#[trigger] pids@[a])@ == pid by {
                                if sold_qty(prefix, self.sales@, lo, hi, pid) == 0 {
                                    assert(pid == cur.product_id@);
                                    assert(pids@[g as int]@ == pid);
                                }
                            }
                        }
                    },
                    None => {
                        proof {
                            assert(item_wf_here(self, w as int));
                            assert(sold_qty(prefix, self.sales@, lo, hi, cur.product_id@) == 0)
                                by {
                                if sold_qty(prefix, self.sales@, lo, hi, cur.product_id@) != 0 {
                                    let a = choose|a: int|
                                        0 <= a < pids@.len() && (#[trigger] pids@[a])@
                                            == cur.product_id@;
                                    assert(false);
                                }
                            }
                        }
                        let ghost old_pids = pids@;
                        pids.push(it.product_id.clone());
                        qtys.push(it.quantity as i64);
                        proof {
                            assert(has_product_id(self.products@, cur.product_id@));
                            assert forall|a: int| 0 <= a < pids@.len() implies (
                            #[trigger] qtys@[a]) as int == sold_qty(
                                self.sale_items@.subrange(0, w + 1),
                                self.sales@,
                                lo,
                                hi,
                                pids@[a]@,
                            ) by {
                                if a < pids@.len() - 1 {
                                    assert(pids@[a] == old_pids[a]);
                                    assert(old_pids[a]@ != cur.product_id@);
                                }
                            }
                            assert forall|pid: Seq<char>|
                                #[trigger] sold_qty(
                                    self.sale_items@.subrange(0, w + 1),
                                    self.sales@,
                                    lo,
                                    hi,
                                    pid,
                                ) != 0 implies exists|a: int|
                                0 <= a < pids@.len() && (#[trigger] pids@[a])@ == pid by {
                                if sold_qty(prefix, self.sales@, lo, hi, pid) != 0 {
                                    let a = choose|a: int|
                                        0 <= a < old_pids.len() && (#[trigger] old_pids[a])@
                                            == pid;
                                    assert(pids@[a]@ == pid);
                                } else {
                                    assert(pid == cur.product_id@);
                                    assert(pids@[pids@.len() - 1]@ == pid);
                                }
                            }
                        }
                    },
                }
            } else {
                proof {
                    assert forall|pid: Seq<char>|
                        #[trigger] sold_qty(
                            self.sale_items@.subrange(0, w + 1),
                            self.sales@,
                            lo,
                            hi,
                            pid,
                        ) != 0 implies exists|a: int|
                        0 <= a < pids@.len() && (#[trigger] pids@[a])@ == pid by {
                        assert(sold_qty(prefix, self.sales@, lo, hi, pid) != 0);
                    }
                }
            }
            w = w + 1;
        }
        proof {
            assert(self.sale_items@.subrange(0, self.sale_items@.len() as int)
                =~= self.sale_items@);
        }

        // order the groups best first, product identifier breaking ties
        let mut keys: Vec<SortKey> = Vec::new();
        let mut idv: Vec<Vec<char>> = Vec::new();
        let mut j: usize = 0;
        while j < qtys.len()
            invariant
                pids@.len() == qtys@.len(),
                j <= qtys@.len(),
                keys@.len() == j,
                idv@.len() == j,
                forall|q: int|
                    0 <= q < j ==> (#[trigger] keys@[q]).view_key() == KeyV::Num(qtys@[q] as int),
                forall|q: int| 0 <= q < j ==> (#[trigger] idv@[q])@ == pids@[q]@,
            decreases qtys@.len() - j,
        {
            keys.push(SortKey::Num(qtys[j] as i128));
            idv.push(crate::text::chars_of(pids[j].as_str()));
            j = j + 1;
        }
        proof {
            assert(key_views(keys@) =~= qtys@.map_values(|q: i64| KeyV::Num(q as int)));
            assert(ids_views(idv@) =~= pids@.map_values(|s: String| s@));
        }
        let order = sort_positions(&keys, &idv, false);
        let ghost kvs = qtys@.map_values(|q: i64| KeyV::Num(q as int));
        let ghost gids = pids@.map_values(|s: String| s@);
        proof {
            crate::query::lemma_pos_le_total(kvs, gids, false);
            crate::query::base_positions(kvs.len()).lemma_sort_by_ensures(pos_le(kvs, gids, false));
            crate::query::base_positions(kvs.len()).to_multiset_ensures();
            order@.to_multiset_ensures();
        }

        // join the best five with their product rows
        let take: usize = if order.len() < 5 {
            order.len()
        } else {
            5
        };
        let mut top: Vec<(Product, i64)> = Vec::new();
        let mut t: usize = 0;
        while t < take
            invariant
                self.wf(),
                lo == start_date@,
                hi == end_date@,
                pids@.len() == qtys@.len(),
                take <= order@.len(),
                take <= 5,
                order@ == rank_of(kvs, gids, false),
                kvs == qtys@.map_values(|q: i64| KeyV::Num(q as int)),
                gids == pids@.map_values(|s: String| s@),
                order@.len() == qtys@.len(),
                forall|p: int| 0 <= p < order@.len() ==> (#[trigger] order@[p]) < qtys@.len(),
                forall|a: int, b: int| 0 <= a < b < pids@.len() ==> pids@[a]@ != pids@[b]@,
                forall|a: int|
                    0 <= a < pids@.len() ==> has_product_id(self.products@, (#[trigger] pids@[a])@),
                forall|a: int|
                    0 <= a < pids@.len() ==> (#[trigger] qtys@[a]) as int == sold_qty(
                        self.sale_items@,
                        self.sales@,
                        lo,
                        hi,
                        pids@[a]@,
                    ),
                forall|a: int| 0 <= a < qtys@.len() ==> (#[trigger] qtys@[a]) > 0,
                t <= take,
                top@.len() == t,
                forall|k: int|
                    0 <= k < t ==> {
                        let (p, q) = #[trigger] top@[k];
                        &&& p.id@ == pids@[order@[k] as int]@
                        &&& has_product_id(self.products@, p.id@)
                        &&& p == self.products@[product_idx(self.products@, p.id@)]
                        &&& q == qtys@[order@[k] as int]
                        &&& q > 0
                    },
            decreases take - t,
        {
            let gi = order[t];
            let pid = &pids[gi];
            let prod = match self.find_product(pid.as_str()) {
                Some(pi) => {
                    proof {
                        crate::store::lemma_product_idx_unique(self.products@, pid@, pi as int);
                    }
                    self.products[pi].clone()
                },
                None => {
                    proof {
                        assert(has_product_id(self.products@, pid@));
                        assert(false);
                    }
                    return Err(AppError::Database("missing product row".to_owned()));
                },
            };
            top.push((prod, qtys[gi]));
            t = t + 1;
        }

        // what is left out sold no more than the last listed product
        proof {
            assert(sorted_by(order@, pos_le(kvs, gids, false)));
            // the order visits each group once
            assert(crate::query::base_positions(kvs.len()).no_duplicates());
            crate::query::base_positions(kvs.len()).lemma_multiset_has_no_duplicates();
            order@.lemma_multiset_has_no_duplicates_conv();
            // listed entries are distinct products with descending quantities
            assert forall|k: int, l: int| 0 <= k < l < top@.len() implies top@[k].0.id@
                != top@[l].0.id@ && top@[k].1 >= top@[l].1 by {
                assert(order@[k] != order@[l]);
                assert(pids@[order@[k] as int]@ != pids@[order@[l] as int]@);
                assert(pos_le(kvs, gids, false)(order@[k], order@[l]));
                let kk = kvs[order@[k] as int];
                let kl = kvs[order@[l] as int];
                if kk != kl {
                    assert(crate::query::key_lt(kl, kk));
                }
            }
            assert forall|pid: Seq<char>|
                (sold_qty(self.sale_items@, self.sales@, lo, hi, pid) > 0 && !(exists|k: int|
                    0 <= k < top@.len() && (#[trigger] top@[k]).0.id@ == pid)) implies (top@.len()
                == 5 && sold_qty(self.sale_items@, self.sales@, lo, hi, pid) <= top@[4].1) by {
                // the product has a group
                assert(exists|a: int| 0 <= a < pids@.len() && (#[trigger] pids@[a])@ == pid);
                let a = choose|a: int| 0 <= a < pids@.len() && (#[trigger] pids@[a])@ == pid;
                assert(qtys@[a] as int == sold_qty(self.sale_items@, self.sales@, lo, hi, pid));
                // the group appears somewhere in the order
                assert(crate::query::base_positions(kvs.len()).to_multiset().contains(
                    a as usize,
                )) by {
                    assert(crate::query::base_positions(kvs.len())[a] == a as usize);
                }
                assert(order@.to_multiset().contains(a as usize));
                let p = choose|p: int| 0 <= p < order@.len() && #[trigger] order@[p] == a as usize;
                if p < take {
                    assert(top@[p].0.id@ == pids@[order@[p] as int]@);
                    assert(false);
                } else {
                    // ranked below the fifth: its quantity cannot exceed it
                    assert(take == 5);
                    assert(pos_le(kvs, gids, false)(order@[4], order@[p]));
                    let k4 = kvs[order@[4] as int];
                    let kp = kvs[order@[p] as int];
                    if k4 == kp {
                        assert(qtys@[order@[4] as int] as int == qtys@[a] as int);
                    } else {
                        assert(crate::query::key_lt(kp, k4));
                    }
                    assert(top@[4].1 == qtys@[order@[4] as int]);
                }
            }
        }

        Ok(ReportData { total_revenue: revenue, total_sales: count as i64, top_products: top })
    }
}

/// Sold quantities sum across concatenation.
proof fn lemma_sold_qty_concat(
    a: Seq<SaleItem>,
    b: Seq<SaleItem>,
    sales: Seq<Sale>,
    lo: Seq<char>,
    hi: Seq<char>,
    pid: Seq<char>,
)
    ensures
        sold_qty(a + b, sales, lo, hi, pid) == sold_qty(a, sales, lo, hi, pid) + sold_qty(
            b,
            sales,
            lo,
            hi,
            pid,
        ),
    decreases b.len(),
{
    if b.len() == 0 {
        assert(a + b =~= a);
    } else {
        lemma_sold_qty_concat(a, b.drop_last(), sales, lo, hi, pid);
        assert((a + b).drop_last() =~= a + b.drop_last());
        assert((a + b).last() == b.last());
    }
}

/// Well-formed line items never subtract from a sold quantity.
proof fn lemma_sold_qty_nonneg(
    items: Seq<SaleItem>,
    sales: Seq<Sale>,
    lo: Seq<char>,
    hi: Seq<char>,
    pid: Seq<char>,
)
    requires
        forall|k: int| 0 <= k < items.len() ==> (#[trigger] items[k]).quantity > 0,
    ensures
        sold_qty(items, sales, lo, hi, pid) >= 0,
    decreases items.len(),
{
    if items.len() > 0 {
        let dl = items.drop_last();
        assert forall|k: int| 0 <= k < dl.len() implies (#[trigger] dl[k]).quantity > 0 by {
            assert(dl[k] == items[k]);
        }
        lemma_sold_qty_nonneg(dl, sales, lo, hi, pid);
    }
}

/// A sold quantity accumulated over a ledger prefix never exceeds the
/// whole ledger's, so an overflow while grouping means the exact total
/// is out of range.
proof fn lemma_sold_overflow_is_final(
    store: Store,
    lo: Seq<char>,
    hi: Seq<char>,
    pid: Seq<char>,
    w: int,
)
    requires
        store.wf(),
        0 <= w < store.sale_items@.len(),
    ensures
        sold_qty(store.sale_items@, store.sales@, lo, hi, pid) >= sold_qty(
            store.sale_items@.subrange(0, w + 1),
            store.sales@,
            lo,
            hi,
            pid,
        ),
{
    let items = store.sale_items@;
    let head = items.subrange(0, w + 1);
    let tail = items.skip(w + 1);
    assert(items =~= head + tail);
    lemma_sold_qty_concat(head, tail, store.sales@, lo, hi, pid);
    assert forall|k: int| 0 <= k < tail.len() implies (#[trigger] tail[k]).quantity > 0 by {
        assert(tail[k] == items[w + 1 + k]);
        assert(crate::store::item_wf(items[w + 1 + k]));
    }
    lemma_sold_qty_nonneg(tail, store.sales@, lo, hi, pid);
}

} // verus!
