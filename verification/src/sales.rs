//! The sale transaction coordinator and the sales ledger.
//!
//! A sale composes one ledger row, one line item per requested product,
//! and one stock decrement per item into a single atomic step against
//! the store: either every effect is applied or none is.  Prices are
//! snapshotted into the line items at the moment of sale, the sale total
//! is exactly the sum of the line totals, and stock can never go
//! negative — the stock check and the decrement are one conditional
//! update of the working state, so no two sales can spend the same unit.

use vstd::prelude::*;
use vstd::pervasive::VecAdditionalExecFns;

use crate::dates::{receipt_date_of, wf_timestamp};
use crate::error::{AppError, AppResult};
use crate::money::Money;
use crate::store::{
    distinct_ids, has_item_id, has_product_id, has_sale_id, has_sale_number, has_user_id,
    item_ids, items_total, product_ids, product_idx, sale_ids, sale_numbers, user_idx,
    Product, Sale, SaleItem, Store,
};
use crate::text::dec_digits;
use crate::trusted::new_uuid_string;

verus! {

/// One requested line of a sale: a product and a quantity.
#[derive(Debug)]
pub struct CreateSaleItemData {
    pub product_id: String,
    pub quantity: i32,
}

/// A sale request: the seller and the ordered list of requested lines.
#[derive(Debug)]
pub struct CreateSaleData {
    pub user_id: String,
    pub items: Vec<CreateSaleItemData>,
}

impl Clone for CreateSaleItemData {
    /// A clone equals the original in every field.
    fn clone(&self) -> (r: Self)
        ensures
            r == *self,
    {
        CreateSaleItemData { product_id: self.product_id.clone(), quantity: self.quantity }
    }
}

/// One line of a receipt.
#[derive(Debug)]
pub struct ReceiptItem {
    pub product_name: String,
    pub packaging_description: String,
    pub quantity: i32,
    pub unit_price: Money,
    pub total_price: Money,
}

/// A read-only, display-ready projection of a committed sale.
#[derive(Debug)]
pub struct Receipt {
    pub sale_number: String,
    pub date: String,
    pub seller_name: String,
    pub items: Vec<ReceiptItem>,
    pub total_amount: Money,
}

/// A sale request is valid: at least one line, all quantities positive.
pub open spec fn sale_valid(items: Seq<CreateSaleItemData>) -> bool {
    &&& items.len() > 0
    &&& forall|k: int| 0 <= k < items.len() ==> (#[trigger] items[k]).quantity > 0
}

/// How far the requested lines get against a catalog, walked in order
/// with a running total: the first failing line decides the outcome.
pub ghost enum SaleEval {
    /// The line at this position names an unknown product.
    MissingAt { at: int },
    /// The line at this position exceeds the remaining stock.
    ShortAt { at: int },
    /// The running total leaves the representable range at this position.
    TooLargeAt { at: int },
    /// Every line fits: the catalog after all decrements, and the total.
    Fits { catalog: Seq<Product>, total: int },
}

/// Walks the requested lines against the catalog from position `i` with
/// running total `acc`, decrementing stock as it goes.
pub open spec fn sale_eval(
    products: Seq<Product>,
    items: Seq<CreateSaleItemData>,
    i: int,
    acc: int,
) -> SaleEval
    decreases items.len() - i,
{
    if i >= items.len() {
        SaleEval::Fits { catalog: products, total: acc }
    } else {
        let it = items[i];
        if !has_product_id(products, it.product_id@) {
            SaleEval::MissingAt { at: i }
        } else {
            let pidx = product_idx(products, it.product_id@);
            let p = products[pidx];
            if p.stock_in_sale_units < it.quantity {
                SaleEval::ShortAt { at: i }
            } else {
                let line = p.price_per_sale_unit.val() * it.quantity;
                if acc + line > i128::MAX {
                    SaleEval::TooLargeAt { at: i }
                } else {
                    let p2 = Product {
                        stock_in_sale_units: (p.stock_in_sale_units - it.quantity) as i32,
                        ..p
                    };
                    sale_eval(products.update(pidx, p2), items, i + 1, acc + line)
                }
            }
        }
    }
}

/// The units of one product requested by the lines before position `upto`.
pub open spec fn requested_before(
    items: Seq<CreateSaleItemData>,
    upto: int,
    pid: Seq<char>,
) -> int
    decreases upto,
{
    if upto <= 0 {
        0
    } else {
        requested_before(items, upto - 1, pid) + if items[upto - 1].product_id@ == pid {
            items[upto - 1].quantity as int
        } else {
            0
        }
    }
}

/// Fresh line-item identifiers: none already stored, no two equal.
pub open spec fn item_ids_fresh(existing: Seq<SaleItem>, ids: Seq<String>) -> bool {
    &&& forall|k: int| 0 <= k < ids.len() ==> !has_item_id(existing, (#[trigger] ids[k])@)
    &&& forall|k: int, l: int| 0 <= k < l < ids.len() ==> ids[k]@ != ids[l]@
}

/// The sale number issued from counter value `n`.
pub open spec fn sale_num_of(n: nat) -> Seq<char> {
    "VTE-"@ + dec_digits(n)
}

/// Renders the sale number for counter value `n`.
pub fn sale_number_for(n: u64) -> (r: String)
    ensures
        r@ == sale_num_of(n as nat),
{
    proof {
        reveal_strlit("VTE-");
    }
    "VTE-".to_owned().concat(crate::text::u64_to_dec(n).as_str())
}

/// One evaluated line, carrying the price snapshot.
struct LineData {
    product_id: String,
    product_name: String,
    packaging_description: String,
    quantity: i32,
    unit_price: Money,
    total_price: Money,
}

/// The sum of the evaluated lines' totals.
spec fn line_sum(lines: Seq<LineData>) -> int
    decreases lines.len(),
{
    if lines.len() == 0 {
        0
    } else {
        line_sum(lines.drop_last()) + lines.last().total_price.val()
    }
}

/// Where the product with this identifier sits in a product list.
fn find_product_in(products: &Vec<Product>, product_id: &str) -> (r: Option<usize>)
    ensures
        match r {
            Some(i) => i < products@.len() && products@[i as int].id@ == product_id@,
            None => !has_product_id(products@, product_id@),
        },
{
    let mut i: usize = 0;
    while i < products.len()
        invariant
            i <= products@.len(),
            forall|j: int| 0 <= j < i ==> (#[trigger] products@[j]).id@ != product_id@,
        decreases products@.len() - i,
    {
        if crate::text::str_eq(products[i].id.as_str(), product_id) {
            return Some(i);
        }
        i = i + 1;
    }
    None
}

impl Store {
    /// The sale number the next sale will carry.
    pub fn generate_sale_number(&self) -> (r: String)
        ensures
            r@ == sale_num_of(self.sale_seq as nat),
    {
        sale_number_for(self.sale_seq)
    }

    /// The coordinator with caller-chosen identifiers: validates, walks
    /// the lines against the catalog while decrementing a working copy,
    /// snapshots prices, and commits the sale, its items, the stock
    /// decrements and the counter bump in one step — or nothing at all.
    pub fn create_sale_with_ids(
        &mut self,
        data: CreateSaleData,
        now: &str,
        sale_id: String,
        item_id_list: Vec<String>,
    ) -> (r: AppResult<Receipt>)
        requires
            old(self).wf(),
            item_id_list@.len() == data.items@.len(),
        ensures
            final(self).wf(),
            final(self).users == old(self).users,
            match r {
                Ok(receipt) => create_sale_ok(
                    *old(self),
                    *final(self),
                    receipt,
                    data,
                    now@,
                    sale_id@,
                    item_id_list@,
                ),
                Err(e) => *final(self) == *old(self) && create_sale_err(
                    *old(self),
                    e,
                    data,
                    now@,
                    sale_id@,
                    item_id_list@,
                ),
            },
            // success is owed when nothing stands in the way
            (wf_timestamp(now@) && sale_valid(data.items@) && sale_eval(
                old(self).products@,
                data.items@,
                0,
                0,
            ) is Fits && has_user_id(old(self).users@, data.user_id@) && old(self).sale_seq
                < u64::MAX && !has_sale_number(
                old(self).sales@,
                sale_num_of(old(self).sale_seq as nat),
            ) && !has_sale_id(old(self).sales@, sale_id@) && item_ids_fresh(
                old(self).sale_items@,
                item_id_list@,
            )) ==> r is Ok,
    {
        let ghost orig = self.products@;
        let ghost items_g = data.items@;

        // fail fast, before any effect
        if !crate::dates::validate_timestamp(now) {
            return Err(AppError::ValidationError("malformed timestamp".to_owned()));
        }
        if data.items.len() == 0 {
            return Err(AppError::ValidationError("a sale needs at least one line".to_owned()));
        }
        let mut v: usize = 0;
        while v < data.items.len()
            invariant
                old(self).wf(),
                *self == *old(self),
                items_g == data.items@,
                v <= items_g.len(),
                forall|j: int| 0 <= j < v ==> (#[trigger] items_g[j]).quantity > 0,
            decreases items_g.len() - v,
        {
            if data.items[v].quantity <= 0 {
                return Err(
                    AppError::ValidationError("every quantity must be positive".to_owned()),
                );
            }
            v = v + 1;
        }
        assert(sale_valid(items_g));

        // working copy of the catalog
        let mut work: Vec<Product> = Vec::new();
        let mut c: usize = 0;
        while c < self.products.len()
            invariant
                old(self).wf(),
                *self == *old(self),
                orig == self.products@,
                c <= orig.len(),
                work@ == orig.subrange(0, c as int),
            decreases orig.len() - c,
        {
            work.push(self.products[c].clone());
            proof {
                assert(work@ =~= orig.subrange(0, c + 1));
            }
            c = c + 1;
        }
        proof {
            assert(work@ =~= orig);
        }

        // walk the lines, decrementing the working copy
        let mut lines: Vec<LineData> = Vec::new();
        let mut acc: Money = Money::zero();
        let mut k: usize = 0;
        while k < data.items.len()
            invariant
                old(self).wf(),
                *self == *old(self),
                orig == self.products@,
                items_g == data.items@,
                wf_timestamp(now@),
                sale_valid(items_g),
                k <= items_g.len(),
                work@.len() == orig.len(),
                forall|j: int|
                    0 <= j < orig.len() ==> same_except_stock(#[trigger] work@[j], orig[j]),
                forall|j: int|
                    0 <= j < orig.len() ==> (#[trigger] work@[j]).stock_in_sale_units as int
                        == orig[j].stock_in_sale_units - requested_before(
                        items_g,
                        k as int,
                        orig[j].id@,
                    ),
                forall|j: int|
                    0 <= j < orig.len() ==> (#[trigger] work@[j]).stock_in_sale_units >= 0,
                sale_eval(orig, items_g, 0, 0) == sale_eval(work@, items_g, k as int, acc.val()),
                acc.val() >= 0,
                acc.val() == line_sum(lines@),
                lines@.len() == k,
                forall|j: int|
                    0 <= j < k ==> has_product_id(orig, (#[trigger] items_g[j]).product_id@),
                forall|j: int|
                    0 <= j < k ==> line_matches(
                        #[trigger] lines@[j],
                        items_g[j],
                        orig[product_idx(orig, items_g[j].product_id@)],
                    ),
            decreases items_g.len() - k,
        {
            let qty = data.items[k].quantity;
            proof {
                assert(product_ids(work@) =~= product_ids(orig));
            }
            let found = find_product_in(&work, data.items[k].product_id.as_str());
            match found {
                None => {
                    proof {
                        assert(sale_eval(work@, items_g, k as int, acc.val())
                            == SaleEval::MissingAt { at: k as int });
                    }
                    return Err(AppError::NotFound("a requested product is unknown".to_owned()));
                },
                Some(i) => {
                    proof {
                        assert(work@[i as int].id@ == orig[i as int].id@);
                        crate::store::lemma_product_idx_unique(
                            work@,
                            items_g[k as int].product_id@,
                            i as int,
                        );
                        crate::store::lemma_product_idx_unique(
                            orig,
                            items_g[k as int].product_id@,
                            i as int,
                        );
                    }
                    let prev = work[i].clone();
                    if prev.stock_in_sale_units < qty {
                        proof {
                            assert(sale_eval(work@, items_g, k as int, acc.val())
                                == SaleEval::ShortAt { at: k as int });
                        }
                        return Err(
                            AppError::InsufficientStock {
                                product_name: prev.name,
                                requested: qty,
                                available: prev.stock_in_sale_units,
                            },
                        );
                    }
                    let line_total = match prev.price_per_sale_unit.checked_mul_int(qty) {
                        Some(t) => t,
                        None => {
                            proof {
                                assert(prev.price_per_sale_unit.val() * qty > i128::MAX) by {
                                    assert(prev.price_per_sale_unit.val() >= 0);
                                    assert(prev.price_per_sale_unit.val() * qty >= 0)
                                        by (nonlinear_arith)
                                        requires prev.price_per_sale_unit.val() >= 0 && qty > 0;
                                }
                                assert(acc.val() + prev.price_per_sale_unit.val() * qty
                                    > i128::MAX);
                                assert(sale_eval(work@, items_g, k as int, acc.val())
                                    == SaleEval::TooLargeAt { at: k as int });
                            }
                            return Err(
                                AppError::ValidationError(
                                    "sale amount out of range".to_owned(),
                                ),
                            );
                        },
                    };
                    proof {
                        assert(line_total.val() >= 0) by (nonlinear_arith)
                            requires
                                line_total.val() == prev.price_per_sale_unit.val() * qty,
                                prev.price_per_sale_unit.val() >= 0,
                                qty > 0,
                        ;
                    }
                    let new_acc = match acc.checked_add(line_total) {
                        Some(t) => t,
                        None => {
                            proof {
                                assert(acc.val() + line_total.val() > i128::MAX);
                                assert(sale_eval(work@, items_g, k as int, acc.val())
                                    == SaleEval::TooLargeAt { at: k as int });
                            }
                            return Err(
                                AppError::ValidationError(
                                    "sale amount out of range".to_owned(),
                                ),
                            );
                        },
                    };
                    let updated = Product {
                        stock_in_sale_units: prev.stock_in_sale_units - qty,
                        ..prev.clone()
                    };
                    let ghost old_lines = lines@;
                    lines.push(
                        LineData {
                            product_id: data.items[k].product_id.clone(),
                            product_name: prev.name.clone(),
                            packaging_description: prev.packaging_description.clone(),
                            quantity: qty,
                            unit_price: prev.price_per_sale_unit,
                            total_price: line_total,
                        },
                    );
                    let ghost old_work = work@;
                    work.set(i, updated);
                    proof {
                        assert(lines@.drop_last() =~= old_lines);
                        assert(line_sum(lines@) == line_sum(old_lines) + line_total.val());
                        assert forall|j: int| 0 <= j < orig.len() implies (
                        #[trigger] work@[j]).stock_in_sale_units as int
                            == orig[j].stock_in_sale_units - requested_before(
                            items_g,
                            k + 1,
                            orig[j].id@,
                        ) by {
                            if j != i {
                                assert(product_ids(orig)[j] == orig[j].id@);
                                assert(product_ids(orig)[i as int] == orig[i as int].id@);
                                assert(orig[i as int].id@ == items_g[k as int].product_id@);
                                assert(orig[j].id@ != items_g[k as int].product_id@);
                            }
                        }
                    }
                    acc = new_acc;
                },
            }
            k = k + 1;
        }
        assert(sale_eval(orig, items_g, 0, 0) == SaleEval::Fits { catalog: work@, total: acc.val() });

        // the seller must exist
        let uidx = match self.find_user(data.user_id.as_str()) {
            Some(u) => u,
            None => {
                return Err(AppError::NotFound("unknown seller".to_owned()));
            },
        };
        proof {
            crate::store::lemma_user_idx_unique(self.users@, data.user_id@, uidx as int);
        }
        let seller_name = self.users[uidx].name.clone();

        // a unique sale number and fresh identifiers
        if self.sale_seq == u64::MAX {
            return Err(AppError::Conflict("sale number space exhausted".to_owned()));
        }
        let number = sale_number_for(self.sale_seq);
        if self.sale_number_taken(number.as_str()) {
            return Err(AppError::Conflict("duplicate sale number".to_owned()));
        }
        if self.find_sale(sale_id.as_str()).is_some() {
            return Err(AppError::Conflict("sale id already taken".to_owned()));
        }
        let ghost evalr = sale_eval(orig, items_g, 0, 0);
        let mut a: usize = 0;
        while a < item_id_list.len()
            invariant
                old(self).wf(),
                *self == *old(self),
                items_g == data.items@,
                wf_timestamp(now@),
                sale_valid(items_g),
                evalr == sale_eval(orig, items_g, 0, 0),
                orig == old(self).products@,
                evalr is Fits,
                has_user_id(old(self).users@, data.user_id@),
                old(self).sale_seq < u64::MAX,
                a <= item_id_list@.len(),
                forall|j: int|
                    0 <= j < a ==> !has_item_id(
                        old(self).sale_items@,
                        (#[trigger] item_id_list@[j])@,
                    ),
                forall|j: int, l: int| 0 <= j < l < a ==> item_id_list@[j]@ != item_id_list@[l]@,
            decreases item_id_list@.len() - a,
        {
            if self.item_id_taken(item_id_list[a].as_str()) {
                proof {
                    assert(has_item_id(old(self).sale_items@, item_id_list@[a as int]@));
                    assert(!item_ids_fresh(old(self).sale_items@, item_id_list@));
                }
                return Err(AppError::Conflict("line item id already taken".to_owned()));
            }
            let mut b: usize = 0;
            while b < a
                invariant
                    old(self).wf(),
                    *self == *old(self),
                    items_g == data.items@,
                    wf_timestamp(now@),
                    sale_valid(items_g),
                    evalr == sale_eval(orig, items_g, 0, 0),
                    orig == old(self).products@,
                    evalr is Fits,
                    has_user_id(old(self).users@, data.user_id@),
                    old(self).sale_seq < u64::MAX,
                    a < item_id_list@.len(),
                    b <= a,
                    forall|l: int| 0 <= l < b ==> item_id_list@[l]@ != item_id_list@[a as int]@,
                decreases a - b,
            {
                if crate::text::str_eq(item_id_list[b].as_str(), item_id_list[a].as_str()) {
                    proof {
                        assert(item_id_list@[b as int]@ == item_id_list@[a as int]@);
                        assert(!item_ids_fresh(old(self).sale_items@, item_id_list@));
                    }
                    return Err(AppError::Conflict("duplicate line item ids".to_owned()));
                }
                b = b + 1;
            }
            a = a + 1;
        }
        assert(item_ids_fresh(old(self).sale_items@, item_id_list@));

        // everything checked: build the rows, then commit
        let date_str = match crate::dates::format_receipt_date(now) {
            Ok(s) => s,
            Err(e) => {
                proof {
                    assert(false);
                }
                return Err(e);
            },
        };

        let mut new_items: Vec<SaleItem> = Vec::new();
        let mut receipt_items: Vec<ReceiptItem> = Vec::new();
        let mut k2: usize = 0;
        while k2 < lines.len()
            invariant
                items_g == data.items@,
                item_id_list@.len() == items_g.len(),
                lines@.len() == items_g.len(),
                wf_timestamp(now@),
                k2 <= lines@.len(),
                forall|j: int|
                    0 <= j < k ==> has_product_id(orig, (#[trigger] items_g[j]).product_id@),
                k == items_g.len(),
                forall|j: int|
                    0 <= j < items_g.len() ==> line_matches(
                        #[trigger] lines@[j],
                        items_g[j],
                        orig[product_idx(orig, items_g[j].product_id@)],
                    ),
                new_items@.len() == k2,
                receipt_items@.len() == k2,
                forall|j: int|
                    0 <= j < k2 ==> built_item_matches(
                        #[trigger] new_items@[j],
                        lines@[j],
                        item_id_list@[j]@,
                        sale_id@,
                        now@,
                    ),
                forall|j: int|
                    0 <= j < k2 ==> receipt_item_matches(
                        #[trigger] receipt_items@[j],
                        lines@[j],
                    ),
                items_total(new_items@, sale_id@) == line_sum(lines@.subrange(0, k2 as int)),
            decreases lines@.len() - k2,
        {
            let ghost old_new = new_items@;
            let ld = &lines[k2];
            let item = SaleItem {
                id: item_id_list[k2].clone(),
                sale_id: sale_id.clone(),
                product_id: ld.product_id.clone(),
                quantity: ld.quantity,
                unit_price: ld.unit_price,
                total_price: ld.total_price,
                created_at: now.to_owned(),
                updated_at: now.to_owned(),
            };
            new_items.push(item);
            receipt_items.push(
                ReceiptItem {
                    product_name: ld.product_name.clone(),
                    packaging_description: ld.packaging_description.clone(),
                    quantity: ld.quantity,
                    unit_price: ld.unit_price,
                    total_price: ld.total_price,
                },
            );
            proof {
                crate::store::lemma_items_total_push(old_new, new_items@.last(), sale_id@);
                assert(new_items@ =~= old_new.push(new_items@.last()));
                assert(new_items@.last().sale_id@ == sale_id@);
                let sub1 = lines@.subrange(0, k2 + 1);
                assert(sub1.drop_last() =~= lines@.subrange(0, k2 as int));
                assert(sub1.last() == lines@[k2 as int]);
                assert(line_sum(sub1) == line_sum(lines@.subrange(0, k2 as int))
                    + lines@[k2 as int].total_price.val());
                assert(items_total(new_items@, sale_id@) == items_total(old_new, sale_id@)
                    + lines@[k2 as int].total_price.val());
            }
            k2 = k2 + 1;
        }
        proof {
            assert(lines@.subrange(0, lines@.len() as int) =~= lines@);
        }

        let total_money = acc;
        let new_sale = Sale {
            id: sale_id,
            user_id: data.user_id.clone(),
            sale_number: number.clone(),
            total_amount: total_money,
            date: now.to_owned(),
            created_at: now.to_owned(),
            updated_at: now.to_owned(),
        };

        // commit
        let ghost pre = *self;
        let ghost gsale = new_sale;
        self.products = work;
        self.sales.push(new_sale);
        let mut k3: usize = 0;
        while k3 < new_items.len()
            invariant
                k3 <= new_items@.len(),
                self.products@ == work@,
                self.sales@ == pre.sales@.push(gsale),
                self.users == pre.users,
                self.sale_seq == pre.sale_seq,
                self.sale_items@ == pre.sale_items@ + new_items@.subrange(0, k3 as int),
            decreases new_items@.len() - k3,
        {
            self.sale_items.push(new_items[k3].clone());
            proof {
                assert(self.sale_items@ =~= pre.sale_items@ + new_items@.subrange(0, k3 + 1));
            }
            k3 = k3 + 1;
        }
        self.sale_seq = self.sale_seq + 1;
        let receipt = Receipt {
            sale_number: number,
            date: date_str,
            seller_name,
            items: receipt_items,
            total_amount: total_money,
        };
        proof {
            let pre0 = *old(self);
            let post = *self;
            let pl = pre0.sale_items@.len() as int;
            assert(pre == pre0);
            assert(new_items@.subrange(0, new_items@.len() as int) =~= new_items@);
            assert(post.sale_items@ == pre0.sale_items@ + new_items@);

            // per-row facts handed to the invariant lemma and the contract
            assert forall|j: int| 0 <= j < new_items@.len() implies {
                &&& (#[trigger] new_items@[j]).sale_id@ == sale_id@
                &&& new_items@[j].quantity > 0
                &&& new_items@[j].unit_price.val() >= 0
                &&& new_items@[j].total_price.val() == new_items@[j].unit_price.val()
                    * new_items@[j].quantity
                &&& !has_item_id(pre0.sale_items@, new_items@[j].id@)
                &&& has_product_id(orig, new_items@[j].product_id@)
            } by {
                assert(built_item_matches(
                    new_items@[j],
                    lines@[j],
                    item_id_list@[j]@,
                    sale_id@,
                    now@,
                ));
                assert(line_matches(
                    lines@[j],
                    items_g[j],
                    orig[product_idx(orig, items_g[j].product_id@)],
                ));
                assert(has_product_id(orig, items_g[j].product_id@));
                let oidx = product_idx(orig, items_g[j].product_id@);
                assert(0 <= oidx < orig.len() && orig[oidx].id@ == items_g[j].product_id@);
                assert(orig[oidx].price_per_sale_unit.val() > 0);
            }
            assert forall|j: int, l: int| 0 <= j < l < new_items@.len() implies new_items@[j].id@
                != new_items@[l].id@ by {
                assert(item_id_list@[j]@ != item_id_list@[l]@);
            }
            lemma_commit_wf(pre, post, new_items@, lines@, orig, items_g, acc.val(), sale_id@);

            // the committed rows match the request
            assert(post.sale_items@.subrange(0, pl) =~= pre0.sale_items@);
            assert forall|j: int| 0 <= j < items_g.len() implies sale_item_committed(
                #[trigger] post.sale_items@[pl + j],
                pre0.products@,
                items_g[j],
                item_id_list@[j]@,
                sale_id@,
                now@,
            ) by {
                assert(post.sale_items@[pl + j] == new_items@[j]);
                assert(built_item_matches(
                    new_items@[j],
                    lines@[j],
                    item_id_list@[j]@,
                    sale_id@,
                    now@,
                ));
                assert(line_matches(
                    lines@[j],
                    items_g[j],
                    orig[product_idx(orig, items_g[j].product_id@)],
                ));
            }
            assert forall|j: int| 0 <= j < items_g.len() implies receipt_line_committed(
                #[trigger] receipt.items@[j],
                pre0.products@,
                items_g[j],
            ) by {
                assert(receipt_item_matches(receipt.items@[j], lines@[j]));
                assert(line_matches(
                    lines@[j],
                    items_g[j],
                    orig[product_idx(orig, items_g[j].product_id@)],
                ));
            }
            assert(post.sales@.last() == gsale);
            assert(create_sale_ok(pre0, post, receipt, data, now@, sale_id@, item_id_list@));
        }
        Ok(receipt)
    }

    /// Creates a sale: generates the sale and line-item identifiers and
    /// runs the coordinator.  Everything the request and the store alone
    /// decide is an iff here: validation, unknown products or sellers,
    /// insufficient stock and range overflow each force their error.
    /// Only `Conflict` depends on the identifier draw, and then nothing
    /// has changed.
    pub fn create_sale(&mut self, data: CreateSaleData, now: &str) -> (r: AppResult<Receipt>)
        requires
            old(self).wf(),
        ensures
            final(self).wf(),
            final(self).users == old(self).users,
            match r {
                Ok(receipt) => exists|sid: Seq<char>, ids: Seq<String>|
                    create_sale_ok(*old(self), *final(self), receipt, data, now@, sid, ids),
                Err(e) => *final(self) == *old(self) && match e {
                    AppError::ValidationError(_) => !wf_timestamp(now@) || !sale_valid(data.items@)
                        || (sale_eval(old(self).products@, data.items@, 0, 0) is TooLargeAt),
                    AppError::NotFound(_) => wf_timestamp(now@) && sale_valid(data.items@) && (
                    sale_eval(old(self).products@, data.items@, 0, 0) is MissingAt || (sale_eval(
                        old(self).products@,
                        data.items@,
                        0,
                        0,
                    ) is Fits && !has_user_id(old(self).users@, data.user_id@))),
                    AppError::InsufficientStock { product_name, requested, available } => short_stock_err(
                        *old(self),
                        data,
                        now@,
                        product_name@,
                        requested as int,
                        available as int,
                    ),
                    AppError::Conflict(_) => wf_timestamp(now@) && sale_valid(data.items@) && (
                    sale_eval(old(self).products@, data.items@, 0, 0) is Fits) && has_user_id(
                        old(self).users@,
                        data.user_id@,
                    ),
                    _ => false,
                },
            },
            // the deterministic failures are forced, not merely allowed
            (!wf_timestamp(now@) || !sale_valid(data.items@)) ==> (r matches Err(
                AppError::ValidationError(_),
            )),
            (wf_timestamp(now@) && sale_valid(data.items@) && sale_eval(
                old(self).products@,
                data.items@,
                0,
                0,
            ) is TooLargeAt) ==> (r matches Err(AppError::ValidationError(_))),
            (wf_timestamp(now@) && sale_valid(data.items@) && sale_eval(
                old(self).products@,
                data.items@,
                0,
                0,
            ) is MissingAt) ==> (r matches Err(AppError::NotFound(_))),
            (wf_timestamp(now@) && sale_valid(data.items@) && sale_eval(
                old(self).products@,
                data.items@,
                0,
                0,
            ) is ShortAt) ==> (r matches Err(AppError::InsufficientStock { .. })),
            (wf_timestamp(now@) && sale_valid(data.items@) && sale_eval(
                old(self).products@,
                data.items@,
                0,
                0,
            ) is Fits && !has_user_id(old(self).users@, data.user_id@)) ==> (r matches Err(
                AppError::NotFound(_),
            )),
    {
        let sale_id = new_uuid_string();
        let mut item_id_list: Vec<String> = Vec::new();
        let n = data.items.len();
        let mut i: usize = 0;
        while i < n
            invariant
                i <= n,
                item_id_list@.len() == i,
            decreases n - i,
        {
            item_id_list.push(new_uuid_string());
            i = i + 1;
        }
        let ghost sid = sale_id@;
        let ghost ids = item_id_list@;
        let r = self.create_sale_with_ids(data, now, sale_id, item_id_list);
        proof {
            if r is Ok {
                assert(create_sale_ok(
                    *old(self),
                    *final(self),
                    r->Ok_0,
                    data,
                    now@,
                    sid,
                    ids,
                ));
            }
        }
        r
    }
}

impl Store {
    /// Creates a sale stamped with the wall clock: reads the current
    /// time and runs the coordinator on it.  The clock is outside the
    /// store, so the timestamp is existential here; everything else a
    /// committed sale promises — the exact stock decrements, the
    /// appended rows, the receipt — holds for whatever time was read.
    pub fn create_sale_now(&mut self, data: CreateSaleData) -> (r: AppResult<Receipt>)
        requires
            old(self).wf(),
        ensures
            final(self).wf(),
            final(self).users == old(self).users,
            r is Err ==> *final(self) == *old(self),
            match r {
                Ok(receipt) => exists|n: Seq<char>, sid: Seq<char>, ids: Seq<String>|
                    create_sale_ok(*old(self), *final(self), receipt, data, n, sid, ids),
                Err(_) => true,
            },
    {
        let now = crate::trusted::current_timestamp();
        let r = self.create_sale(data, now.as_str());
        proof {
            if r is Ok {
                let (sid, ids) = choose|sid: Seq<char>, ids: Seq<String>|
                    create_sale_ok(*old(self), *self, r->Ok_0, data, now@, sid, ids);
                assert(create_sale_ok(*old(self), *self, r->Ok_0, data, now@, sid, ids));
            }
        }
        r
    }
}

/// Every field of the two products agrees except possibly the stock count.
pub open spec fn same_except_stock(a: Product, b: Product) -> bool {
    &&& a.id == b.id
    &&& a.name == b.name
    &&& a.packaging_description == b.packaging_description
    &&& a.sku == b.sku
    &&& a.price_per_sale_unit == b.price_per_sale_unit
    &&& a.created_at == b.created_at
    &&& a.updated_at == b.updated_at
}

/// An evaluated line carries the requested product and quantity and the
/// catalog's snapshot of name, packaging and price, with an exact total.
spec fn line_matches(ld: LineData, it: CreateSaleItemData, p: Product) -> bool {
    &&& ld.product_id@ == it.product_id@
    &&& ld.product_name@ == p.name@
    &&& ld.packaging_description@ == p.packaging_description@
    &&& ld.quantity == it.quantity
    &&& ld.unit_price == p.price_per_sale_unit
    &&& ld.total_price.val() == ld.unit_price.val() * ld.quantity
}

/// A stored line item carries its line's data under the given identifiers.
spec fn built_item_matches(
    it: SaleItem,
    ld: LineData,
    id: Seq<char>,
    sale_id: Seq<char>,
    now: Seq<char>,
) -> bool {
    &&& it.id@ == id
    &&& it.sale_id@ == sale_id
    &&& it.product_id@ == ld.product_id@
    &&& it.quantity == ld.quantity
    &&& it.unit_price == ld.unit_price
    &&& it.total_price == ld.total_price
    &&& it.created_at@ == now
    &&& it.updated_at@ == now
}

/// A receipt line mirrors its evaluated line.
spec fn receipt_item_matches(ri: ReceiptItem, ld: LineData) -> bool {
    &&& ri.product_name@ == ld.product_name@
    &&& ri.packaging_description@ == ld.packaging_description@
    &&& ri.quantity == ld.quantity
    &&& ri.unit_price == ld.unit_price
    &&& ri.total_price == ld.total_price
}

/// What a successful sale did to the store, and what the receipt shows:
/// the request was valid and fit the catalog; the catalog took exactly
/// the evaluated decrements; one sale row was appended carrying the next
/// sale number and the exact total; one line item per requested line was
/// appended with the snapshot price; the counter moved by one; and the
/// receipt mirrors the committed rows.
pub open spec fn create_sale_ok(
    pre: Store,
    post: Store,
    receipt: Receipt,
    data: CreateSaleData,
    now: Seq<char>,
    sale_id: Seq<char>,
    ids: Seq<String>,
) -> bool {
    let eval = sale_eval(pre.products@, data.items@, 0, 0);
    let items = data.items@;
    &&& wf_timestamp(now)
    &&& sale_valid(items)
    &&& eval is Fits
    &&& has_user_id(pre.users@, data.user_id@)
    &&& pre.sale_seq < u64::MAX
    &&& !has_sale_number(pre.sales@, sale_num_of(pre.sale_seq as nat))
    &&& !has_sale_id(pre.sales@, sale_id)
    &&& ids.len() == items.len()
    &&& item_ids_fresh(pre.sale_items@, ids)
    &&& post.products@ == eval->Fits_catalog
    &&& post.sale_seq == pre.sale_seq + 1
    &&& post.sales@.len() == pre.sales@.len() + 1
    &&& post.sales@ == pre.sales@.push(post.sales@.last())
    &&& {
        let s = post.sales@.last();
        &&& s.id@ == sale_id
        &&& s.user_id@ == data.user_id@
        &&& s.sale_number@ == sale_num_of(pre.sale_seq as nat)
        &&& s.total_amount.val() == eval->Fits_total
        &&& s.date@ == now
        &&& s.created_at@ == now
        &&& s.updated_at@ == now
    }
    &&& post.sale_items@.len() == pre.sale_items@.len() + items.len()
    &&& post.sale_items@.subrange(0, pre.sale_items@.len() as int) == pre.sale_items@
    &&& forall|j: int|
        0 <= j < items.len() ==> sale_item_committed(
            #[trigger] post.sale_items@[pre.sale_items@.len() + j],
            pre.products@,
            items[j],
            ids[j]@,
            sale_id,
            now,
        )
    &&& receipt.sale_number@ == sale_num_of(pre.sale_seq as nat)
    &&& receipt.date@ == receipt_date_of(now)
    &&& receipt.seller_name@ == pre.users@[user_idx(pre.users@, data.user_id@)].name@
    &&& receipt.total_amount.val() == eval->Fits_total
    &&& receipt.items@.len() == items.len()
    &&& forall|j: int|
        0 <= j < items.len() ==> receipt_line_committed(
            #[trigger] receipt.items@[j],
            pre.products@,
            items[j],
        )
}

/// A committed line item: the requested product and quantity under the
/// given identifiers, priced at the catalog's snapshot, stamped `now`.
pub open spec fn sale_item_committed(
    it: SaleItem,
    products: Seq<Product>,
    req: CreateSaleItemData,
    id: Seq<char>,
    sale_id: Seq<char>,
    now: Seq<char>,
) -> bool {
    let p = products[product_idx(products, req.product_id@)];
    &&& it.id@ == id
    &&& it.sale_id@ == sale_id
    &&& it.product_id@ == req.product_id@
    &&& it.quantity == req.quantity
    &&& it.unit_price == p.price_per_sale_unit
    &&& it.total_price.val() == it.unit_price.val() * it.quantity
    &&& it.created_at@ == now
    &&& it.updated_at@ == now
}

/// A receipt line for one requested product: the catalog's display
/// fields and price snapshot with an exact line total.
pub open spec fn receipt_line_committed(
    ri: ReceiptItem,
    products: Seq<Product>,
    req: CreateSaleItemData,
) -> bool {
    let p = products[product_idx(products, req.product_id@)];
    &&& ri.product_name@ == p.name@
    &&& ri.packaging_description@ == p.packaging_description@
    &&& ri.quantity == req.quantity
    &&& ri.unit_price == p.price_per_sale_unit
    &&& ri.total_price.val() == ri.unit_price.val() * ri.quantity
}

/// The exact condition under which a sale fails with `InsufficientStock`
/// and the payload it then carries.
pub open spec fn short_stock_err(
    pre: Store,
    data: CreateSaleData,
    now: Seq<char>,
    product_name: Seq<char>,
    requested: int,
    available: int,
) -> bool {
    let eval = sale_eval(pre.products@, data.items@, 0, 0);
    &&& wf_timestamp(now)
    &&& sale_valid(data.items@)
    &&& eval is ShortAt
    &&& {
        let at = eval->ShortAt_at;
        let pid = data.items@[at].product_id@;
        let oidx = product_idx(pre.products@, pid);
        &&& product_name == pre.products@[oidx].name@
        &&& requested == data.items@[at].quantity
        &&& available == pre.products@[oidx].stock_in_sale_units - requested_before(
            data.items@,
            at,
            pid,
        )
    }
}

/// The exact error classification of a failed sale.
pub open spec fn create_sale_err(
    pre: Store,
    e: AppError,
    data: CreateSaleData,
    now: Seq<char>,
    sale_id: Seq<char>,
    ids: Seq<String>,
) -> bool {
    let eval = sale_eval(pre.products@, data.items@, 0, 0);
    match e {
        AppError::ValidationError(_) => !wf_timestamp(now) || !sale_valid(data.items@) || (
        eval is TooLargeAt),
        AppError::NotFound(_) => wf_timestamp(now) && sale_valid(data.items@) && (
        eval is MissingAt || (eval is Fits && !has_user_id(pre.users@, data.user_id@))),
        AppError::InsufficientStock { product_name, requested, available } => short_stock_err(
            pre,
            data,
            now,
            product_name@,
            requested as int,
            available as int,
        ),
        AppError::Conflict(_) => wf_timestamp(now) && sale_valid(data.items@) && (eval is Fits)
            && has_user_id(pre.users@, data.user_id@) && (pre.sale_seq == u64::MAX
            || has_sale_number(pre.sales@, sale_num_of(pre.sale_seq as nat)) || has_sale_id(
            pre.sales@,
            sale_id,
        ) || !item_ids_fresh(pre.sale_items@, ids)),
        _ => false,
    }
}

/// The committed store is well formed, given everything the coordinator
/// established about the working catalog and the new rows.
proof fn lemma_commit_wf(
    pre: Store,
    post: Store,
    new_items: Seq<SaleItem>,
    lines: Seq<LineData>,
    orig: Seq<Product>,
    items_g: Seq<CreateSaleItemData>,
    total: int,
    sale_id: Seq<char>,
)
    requires
        pre.wf(),
        orig == pre.products@,
        sale_valid(items_g),
        lines.len() == items_g.len(),
        new_items.len() == items_g.len(),
        post.users == pre.users,
        post.sale_seq == pre.sale_seq + 1,
        post.sales@.len() == pre.sales@.len() + 1,
        post.sales@ == pre.sales@.push(post.sales@.last()),
        post.sales@.last().id@ == sale_id,
        post.sales@.last().total_amount.val() == total,
        !has_sale_id(pre.sales@, sale_id),
        !has_sale_number(pre.sales@, post.sales@.last().sale_number@),
        post.sale_items@ == pre.sale_items@ + new_items,
        total == line_sum(lines),
        items_total(new_items, sale_id) == line_sum(lines),
        forall|j: int|
            0 <= j < new_items.len() ==> (#[trigger] new_items[j]).sale_id@ == sale_id,
        forall|j: int|
            0 <= j < new_items.len() ==> (#[trigger] new_items[j]).quantity > 0,
        forall|j: int|
            0 <= j < new_items.len() ==> (#[trigger] new_items[j]).unit_price.val() >= 0,
        forall|j: int|
            0 <= j < new_items.len() ==> (#[trigger] new_items[j]).total_price.val() == new_items[
                j
            ].unit_price.val() * new_items[j].quantity,
        forall|j: int, l: int| 0 <= j < l < new_items.len() ==> new_items[j].id@ != new_items[l].id@,
        forall|j: int|
            0 <= j < new_items.len() ==> !has_item_id(pre.sale_items@, (#[trigger] new_items[j]).id@),
        forall|j: int|
            0 <= j < new_items.len() ==> has_product_id(orig, (#[trigger] new_items[j]).product_id@),
        post.products@.len() == orig.len(),
        forall|j: int|
            0 <= j < orig.len() ==> same_except_stock(#[trigger] post.products@[j], orig[j]),
        forall|j: int|
            0 <= j < orig.len() ==> (#[trigger] post.products@[j]).stock_in_sale_units >= 0,
    ensures
        post.wf(),
{
    let sale = post.sales@.last();

    // identifiers stay distinct
    assert(product_ids(post.products@) =~= product_ids(pre.products@));
    assert(distinct_ids(sale_ids(post.sales@))) by {
        let ids = sale_ids(post.sales@);
        assert forall|i: int, j: int| 0 <= i < j < ids.len() implies ids[i] != ids[j] by {
            if j < ids.len() - 1 {
                assert(sale_ids(pre.sales@)[i] == ids[i] && sale_ids(pre.sales@)[j] == ids[j]);
            } else {
                assert(ids[j] == sale_id);
                assert(pre.sales@[i].id@ == ids[i]);
            }
        }
    }
    assert(distinct_ids(sale_numbers(post.sales@))) by {
        let nums = sale_numbers(post.sales@);
        assert forall|i: int, j: int| 0 <= i < j < nums.len() implies nums[i] != nums[j] by {
            if j < nums.len() - 1 {
                assert(sale_numbers(pre.sales@)[i] == nums[i] && sale_numbers(pre.sales@)[j]
                    == nums[j]);
            } else {
                assert(nums[j] == sale.sale_number@);
                assert(pre.sales@[i].sale_number@ == nums[i]);
            }
        }
    }
    assert(item_ids(post.sale_items@) =~= item_ids(pre.sale_items@) + item_ids(new_items));
    assert(distinct_ids(item_ids(post.sale_items@))) by {
        let pl = pre.sale_items@.len() as int;
        let ids = item_ids(post.sale_items@);
        assert forall|i: int, j: int| 0 <= i < j < ids.len() implies ids[i] != ids[j] by {
            if j < pl {
                assert(item_ids(pre.sale_items@)[i] == ids[i] && item_ids(pre.sale_items@)[j]
                    == ids[j]);
            } else if i >= pl {
                assert(ids[i] == new_items[i - pl].id@ && ids[j] == new_items[j - pl].id@);
            } else {
                assert(ids[i] == pre.sale_items@[i].id@ && ids[j] == new_items[j - pl].id@);
                assert(!has_item_id(pre.sale_items@, new_items[j - pl].id@));
            }
        }
    }

    // every line item references a product still in the catalog
    assert forall|i: int| 0 <= i < post.sale_items@.len() implies has_product_id(
        post.products@,
        (#[trigger] post.sale_items@[i]).product_id@,
    ) by {
        let pl = pre.sale_items@.len() as int;
        let pid = post.sale_items@[i].product_id@;
        if i < pl {
            assert(post.sale_items@[i] == pre.sale_items@[i]);
            assert(has_product_id(pre.products@, pid));
        } else {
            assert(post.sale_items@[i] == new_items[i - pl]);
            assert(has_product_id(orig, pid));
        }
        crate::store::lemma_has_product_same_ids(orig, post.products@, pid);
    }

    // every line item points at a sale
    assert forall|i: int| 0 <= i < post.sale_items@.len() implies has_sale_id(
        post.sales@,
        (#[trigger] post.sale_items@[i]).sale_id@,
    ) by {
        let pl = pre.sale_items@.len() as int;
        if i < pl {
            assert(post.sale_items@[i] == pre.sale_items@[i]);
            assert(has_sale_id(pre.sales@, pre.sale_items@[i].sale_id@));
            let w = choose|w: int|
                0 <= w < pre.sales@.len() && (#[trigger] pre.sales@[w]).id@
                    == pre.sale_items@[i].sale_id@;
            assert(post.sales@[w].id@ == post.sale_items@[i].sale_id@);
        } else {
            assert(post.sale_items@[i] == new_items[i - pl]);
            assert(post.sales@[post.sales@.len() - 1].id@ == sale_id);
        }
    }

    // every sale's total is the exact sum of its items
    assert forall|i: int| 0 <= i < post.sales@.len() implies (
    #[trigger] post.sales@[i]).total_amount.val() == items_total(
        post.sale_items@,
        post.sales@[i].id@,
    ) by {
        crate::store::lemma_items_total_concat(pre.sale_items@, new_items, post.sales@[i].id@);
        if i < post.sales@.len() - 1 {
            // an old sale: the new items belong to the new sale only
            assert(post.sales@[i] == pre.sales@[i]);
            assert(post.sales@[i].id@ != sale_id);
            crate::store::lemma_items_total_absent(new_items, post.sales@[i].id@);
        } else {
            // the new sale: the old items belong to old sales only
            assert forall|w: int| 0 <= w < pre.sale_items@.len() implies (
            #[trigger] pre.sale_items@[w]).sale_id@ != sale_id by {
                assert(has_sale_id(pre.sales@, pre.sale_items@[w].sale_id@));
            }
            crate::store::lemma_items_total_absent(pre.sale_items@, sale_id);
        }
    }
}


/// Date window of the sales listing.
#[derive(Debug, Clone, Copy, PartialEq, Eq, Structural)]
pub enum DateFilter {
    All,
    Today,
    Week,
    Month,
}

/// The closed set of fields a sales listing can sort by.
#[derive(Debug, Clone, Copy, PartialEq, Eq, Structural)]
pub enum SortFieldSale {
    Date,
    Amount,
    SaleNumber,
}

/// Filter, sort and page parameters of the sales listing.
#[derive(Debug)]
pub struct SaleSearchParams {
    /// When set, only this seller's sales are listed.
    pub user_id_filter: Option<String>,
    /// Matched against the sale number and the seller name.
    pub search_query: Option<String>,
    pub date_filter: DateFilter,
    pub sort_by: SortFieldSale,
    pub sort_order: crate::query::SortOrder,
    pub page: i64,
    pub page_size: i64,
}

impl Default for SaleSearchParams {
    /// Everything, newest first, first page of five.
    fn default() -> (r: Self)
        ensures
            r.user_id_filter is None,
            r.search_query is None,
            r.date_filter == DateFilter::All,
            r.sort_by == SortFieldSale::Date,
            r.sort_order == crate::query::SortOrder::Desc,
            r.page == 1,
            r.page_size == 5,
    {
        SaleSearchParams {
            user_id_filter: None,
            search_query: None,
            date_filter: DateFilter::All,
            sort_by: SortFieldSale::Date,
            sort_order: crate::query::SortOrder::Desc,
            page: 1,
            page_size: 5,
        }
    }
}

/// Narrows the parameters to what the caller may see: administrators
/// see every sale, other users only their own.
pub fn create_search_params_for_user(
    base_params: SaleSearchParams,
    current_user_id: String,
    is_admin: bool,
) -> (r: SaleSearchParams)
    ensures
        r.user_id_filter == if is_admin {
            Option::<String>::None
        } else {
            Some(current_user_id)
        },
        r.search_query == base_params.search_query,
        r.date_filter == base_params.date_filter,
        r.sort_by == base_params.sort_by,
        r.sort_order == base_params.sort_order,
        r.page == base_params.page,
        r.page_size == base_params.page_size,
{
    SaleSearchParams {
        user_id_filter: if is_admin {
            None
        } else {
            Some(current_user_id)
        },
        ..base_params
    }
}

/// One listed sale with its seller's name and its number of line items.
#[derive(Debug)]
pub struct SaleWithSeller {
    pub sale: Sale,
    pub seller_name: String,
    pub items_count: i64,
}

/// One page of sales with count metadata.
#[derive(Debug)]
pub struct PaginatedSales {
    pub sales: Vec<SaleWithSeller>,
    pub total_count: i64,
    pub page: i64,
    pub page_size: i64,
    pub total_pages: i64,
}

/// A committed sale with its line items, each joined with its product,
/// and the seller's name.
#[derive(Debug)]
pub struct SaleWithItems {
    pub sale: Sale,
    pub items: Vec<(SaleItem, Product)>,
    pub seller_name: String,
}

/// The name of the user who recorded a sale.
pub open spec fn seller_name_of(users: Seq<crate::store::User>, s: Sale) -> Seq<char> {
    users[user_idx(users, s.user_id@)].name@
}

/// Whether a sale passes the listing filter: its seller exists, the
/// seller filter and the date window hold, and the search term, if any,
/// occurs case-insensitively in the sale number or the seller name.
pub open spec fn sale_matches(
    s: Sale,
    users: Seq<crate::store::User>,
    user_filter: Option<Seq<char>>,
    search: Option<Seq<char>>,
    window: DateFilter,
    now: Seq<char>,
) -> bool {
    &&& has_user_id(users, s.user_id@)
    &&& match user_filter {
        Some(u) => s.user_id@ == u,
        None => true,
    }
    &&& match search {
        Some(q) => crate::text::contains_fold(s.sale_number@, q) || crate::text::contains_fold(
            seller_name_of(users, s),
            q,
        ),
        None => true,
    }
    &&& match window {
        DateFilter::All => true,
        DateFilter::Today => crate::text::lex_le(crate::dates::day_floor_of(now), s.date@)
            && crate::text::lex_le(s.date@, crate::dates::day_ceil_of(now)),
        DateFilter::Week => crate::text::lex_le(crate::dates::days_back_of(now, 7), s.date@),
        DateFilter::Month => crate::text::lex_le(crate::dates::days_back_of(now, 30), s.date@),
    }
}

/// The sort key of a listed sale under the chosen sort field.
pub open spec fn sale_key(s: Sale, field: SortFieldSale) -> crate::query::KeyV {
    match field {
        SortFieldSale::Date => crate::query::KeyV::Text(s.date@),
        SortFieldSale::Amount => crate::query::KeyV::Num(s.total_amount.val()),
        SortFieldSale::SaleNumber => crate::query::KeyV::Text(s.sale_number@),
    }
}

/// The sales that pass the listing filter, in store order.
pub open spec fn sale_filter(
    sales: Seq<Sale>,
    users: Seq<crate::store::User>,
    params: SaleSearchParams,
    now: Seq<char>,
) -> Seq<Sale> {
    sales.filter(
        |s: Sale| sale_matches(
            s,
            users,
            crate::catalog::opt_text_view(params.user_id_filter),
            crate::catalog::opt_text_view(params.search_query),
            params.date_filter,
            now,
        ),
    )
}

/// The canonical page of sales for these parameters: ties on the sort
/// field are broken by the sale identifier.
pub open spec fn sale_page(
    sales: Seq<Sale>,
    users: Seq<crate::store::User>,
    params: SaleSearchParams,
    now: Seq<char>,
) -> Seq<Sale> {
    let rows = sale_filter(sales, users, params, now);
    let keys = rows.map_values(|s: Sale| sale_key(s, params.sort_by));
    let ids = rows.map_values(|s: Sale| s.id@);
    crate::query::page_of(
        rows,
        keys,
        ids,
        params.sort_order.is_asc(),
        crate::query::page_lo(rows.len() as int, params.page, params.page_size),
        crate::query::page_hi(rows.len() as int, params.page, params.page_size),
    )
}

/// How many line items a sale has.
pub open spec fn items_count_of(items: Seq<SaleItem>, sid: Seq<char>) -> int {
    items.filter(|it: SaleItem| it.sale_id@ == sid).len() as int
}

/// The line items of one sale, each joined with its product.
pub open spec fn items_of_sale_joined(
    items: Seq<SaleItem>,
    products: Seq<Product>,
    sid: Seq<char>,
) -> Seq<(SaleItem, Product)> {
    items.filter(
        |it: SaleItem| it.sale_id@ == sid && has_product_id(products, it.product_id@),
    ).map_values(|it: SaleItem| (it, products[product_idx(products, it.product_id@)]))
}

impl Store {
    /// How many line items the given sale has.
    fn count_items_of(&self, sid: &str) -> (r: usize)
        ensures
            r as int == items_count_of(self.sale_items@, sid@),
    {
        let ghost pred = |it: SaleItem| it.sale_id@ == sid@;
        let mut count: usize = 0;
        let mut i: usize = 0;
        proof {
            assert(self.sale_items@.subrange(0, 0).filter(pred) =~= Seq::<SaleItem>::empty());
        }
        while i < self.sale_items.len()
            invariant
                i <= self.sale_items@.len(),
                pred == (|it: SaleItem| it.sale_id@ == sid@),
                count as int == self.sale_items@.subrange(0, i as int).filter(pred).len(),
                count <= i,
            decreases self.sale_items@.len() - i,
        {
            let ghost prefix = self.sale_items@.subrange(0, i as int);
            proof {
                prefix.lemma_filter_push(self.sale_items@[i as int], pred);
                assert(self.sale_items@.subrange(0, i + 1) =~= prefix.push(
                    self.sale_items@[i as int],
                ));
            }
            if crate::text::str_eq(self.sale_items[i].sale_id.as_str(), sid) {
                count = count + 1;
            }
            i = i + 1;
        }
        proof {
            assert(self.sale_items@.subrange(0, self.sale_items@.len() as int)
                =~= self.sale_items@);
        }
        count
    }

    /// The filtered, sorted, paginated sales listing: each listed sale
    /// carries its seller's name and its item count, the filter drives
    /// both the rows and `total_count`, and ties are broken by the sale
    /// identifier.  Fails `ValidationError` exactly when `now` is
    /// malformed.
    pub fn get_sales_paginated(&self, params: SaleSearchParams, now: &str) -> (r: AppResult<
        PaginatedSales,
    >)
        requires
            self.wf(),
            self.sales@.len() + crate::query::MAX_PAGE_SIZE <= i64::MAX,
            self.sale_items@.len() <= i64::MAX,
        ensures
            match r {
                Ok(res) => {
                    let rows = sale_filter(self.sales@, self.users@, params, now@);
                    let page = sale_page(self.sales@, self.users@, params, now@);
                    &&& wf_timestamp(now@)
                    &&& res.total_count == rows.len()
                    &&& res.page as int == crate::query::clamped_page(params.page)
                    &&& res.page_size as int == crate::query::clamped_size(params.page_size)
                    &&& res.total_pages as int == crate::query::pages_needed(
                        rows.len() as int,
                        crate::query::clamped_size(params.page_size),
                    )
                    &&& res.sales@.len() == page.len()
                    &&& forall|p: int|
                        0 <= p < page.len() ==> {
                            let row = #[trigger] res.sales@[p];
                            &&& row.sale == page[p]
                            &&& row.seller_name@ == seller_name_of(self.users@, page[p])
                            &&& row.items_count as int == items_count_of(
                                self.sale_items@,
                                page[p].id@,
                            )
                        }
                },
                Err(AppError::ValidationError(_)) => !wf_timestamp(now@),
                Err(_) => false,
            },
    {
        if !crate::dates::validate_timestamp(now) {
            return Err(AppError::ValidationError("malformed timestamp".to_owned()));
        }
        let ghost ufilter = crate::catalog::opt_text_view(params.user_id_filter);
        let ghost search = crate::catalog::opt_text_view(params.search_query);
        let needle: Option<Vec<char>> = match &params.search_query {
            Some(s) => Some(crate::text::chars_of(s.as_str())),
            None => None,
        };
        let window_lo: Option<Vec<char>> = match params.date_filter {
            DateFilter::All => None,
            DateFilter::Today => Some(
                crate::text::chars_of(crate::dates::day_floor(now).as_str()),
            ),
            DateFilter::Week => Some(
                crate::text::chars_of(crate::dates::days_back(now, 7).as_str()),
            ),
            DateFilter::Month => Some(
                crate::text::chars_of(crate::dates::days_back(now, 30).as_str()),
            ),
        };
        let window_hi: Option<Vec<char>> = match params.date_filter {
            DateFilter::Today => Some(crate::text::chars_of(crate::dates::day_ceil(now).as_str())),
            _ => None,
        };
        let ghost pred = |s: Sale| sale_matches(
            s,
            self.users@,
            ufilter,
            search,
            params.date_filter,
            now@,
        );

        let mut rows: Vec<Sale> = Vec::new();
        let mut i: usize = 0;
        proof {
            assert(self.sales@.subrange(0, 0).filter(pred) =~= Seq::<Sale>::empty());
        }
        while i < self.sales.len()
            invariant
                self.wf(),
                i <= self.sales@.len(),
                ufilter == crate::catalog::opt_text_view(params.user_id_filter),
                search == crate::catalog::opt_text_view(params.search_query),
                (match needle {
                    Some(v) => search == Some(v@),
                    None => search is None,
                }),
                wf_timestamp(now@),
                (match window_lo {
                    Some(v) => match params.date_filter {
                        DateFilter::Today => v@ == crate::dates::day_floor_of(now@),
                        DateFilter::Week => v@ == crate::dates::days_back_of(now@, 7),
                        DateFilter::Month => v@ == crate::dates::days_back_of(now@, 30),
                        DateFilter::All => false,
                    },
                    None => params.date_filter == DateFilter::All,
                }),
                (match window_hi {
                    Some(v) => params.date_filter == DateFilter::Today && v@
                        == crate::dates::day_ceil_of(now@),
                    None => params.date_filter != DateFilter::Today,
                }),
                pred == (|s: Sale| sale_matches(
                    s,
                    self.users@,
                    ufilter,
                    search,
                    params.date_filter,
                    now@,
                )),
                rows@ == self.sales@.subrange(0, i as int).filter(pred),
            decreases self.sales@.len() - i,
        {
            let ghost prefix = self.sales@.subrange(0, i as int);
            proof {
                prefix.lemma_filter_push(self.sales@[i as int], pred);
                assert(self.sales@.subrange(0, i + 1) =~= prefix.push(self.sales@[i as int]));
            }
            let s = &self.sales[i];
            let seller = self.find_user(s.user_id.as_str());
            let keep: bool = match seller {
                None => false,
                Some(u) => {
                    proof {
                        crate::store::lemma_user_idx_unique(self.users@, s.user_id@, u as int);
                    }
                    let user_ok = match &params.user_id_filter {
                        Some(uf) => crate::text::str_eq(s.user_id.as_str(), uf.as_str()),
                        None => true,
                    };
                    let search_ok = match &needle {
                        Some(q) => {
                            let num_chars = crate::text::chars_of(s.sale_number.as_str());
                            if crate::text::contains_ci(&num_chars, q) {
                                true
                            } else {
                                let name_chars = crate::text::chars_of(
                                    self.users[u].name.as_str(),
                                );
                                crate::text::contains_ci(&name_chars, q)
                            }
                        },
                        None => true,
                    };
                    let date_chars = crate::text::chars_of(s.date.as_str());
                    let lo_ok = match &window_lo {
                        Some(lo) => !crate::text::lex_lt_exec(&date_chars, lo),
                        None => true,
                    };
                    let hi_ok = match &window_hi {
                        Some(hi) => !crate::text::lex_lt_exec(hi, &date_chars),
                        None => true,
                    };
                    user_ok && search_ok && lo_ok && hi_ok
                },
            };
            if keep {
                rows.push(s.clone());
            }
            proof {
                assert(rows@ =~= self.sales@.subrange(0, i + 1).filter(pred));
            }
            i = i + 1;
        }
        proof {
            assert(self.sales@.subrange(0, self.sales@.len() as int) =~= self.sales@);
            self.sales@.lemma_filter_len(pred);
        }

        let total = rows.len();
        let (lo, hi, page_c, size_c, pages) = crate::query::page_bounds(
            total,
            params.page,
            params.page_size,
        );

        let mut keys: Vec<crate::query::SortKey> = Vec::new();
        let mut idv: Vec<Vec<char>> = Vec::new();
        let mut j: usize = 0;
        while j < rows.len()
            invariant
                j <= rows@.len(),
                keys@.len() == j,
                idv@.len() == j,
                forall|q: int|
                    0 <= q < j ==> (#[trigger] keys@[q]).view_key() == sale_key(
                        rows@[q],
                        params.sort_by,
                    ),
                forall|q: int| 0 <= q < j ==> (#[trigger] idv@[q])@ == rows@[q].id@,
            decreases rows@.len() - j,
        {
            let k = match params.sort_by {
                SortFieldSale::Date => crate::query::SortKey::Text(
                    crate::text::chars_of(rows[j].date.as_str()),
                ),
                SortFieldSale::Amount => crate::query::SortKey::Num(rows[j].total_amount.cents),
                SortFieldSale::SaleNumber => crate::query::SortKey::Text(
                    crate::text::chars_of(rows[j].sale_number.as_str()),
                ),
            };
            keys.push(k);
            idv.push(crate::text::chars_of(rows[j].id.as_str()));
            j = j + 1;
        }
        proof {
            assert(crate::query::key_views(keys@) =~= rows@.map_values(
                |s: Sale| sale_key(s, params.sort_by),
            ));
            assert(crate::query::ids_views(idv@) =~= rows@.map_values(|s: Sale| s.id@));
        }

        let order = crate::query::sort_positions(&keys, &idv, params.sort_order.ascending());
        let page_sales = crate::query::select_page(&rows, &order, lo, hi);
        let ghost page = sale_page(self.sales@, self.users@, params, now@);
        proof {
            let target = order@.subrange(lo as int, hi as int).map_values(
                |q: usize| rows@[q as int],
            );
            assert forall|q: int| 0 <= q < page_sales@.len() implies page_sales@[q] == target[q] by {
                assert(vstd::pervasive::cloned::<Sale>(target[q], page_sales@[q]));
            }
            assert(page_sales@ =~= target);
            assert(page_sales@ =~= page);
        }

        // decorate the page with seller names and item counts
        let mut out: Vec<SaleWithSeller> = Vec::new();
        let mut p: usize = 0;
        while p < page_sales.len()
            invariant
                self.wf(),
                self.sale_items@.len() <= i64::MAX,
                page == sale_page(self.sales@, self.users@, params, now@),
                page_sales@ == page,
                p <= page_sales@.len(),
                out@.len() == p,
                forall|q: int|
                    0 <= q < p ==> {
                        let row = #[trigger] out@[q];
                        &&& row.sale == page[q]
                        &&& row.seller_name@ == seller_name_of(self.users@, page[q])
                        &&& row.items_count as int == items_count_of(
                            self.sale_items@,
                            page[q].id@,
                        )
                    },
                forall|q: int|
                    0 <= q < page.len() ==> has_user_id(self.users@, (#[trigger] page[q]).user_id@),
            decreases page_sales@.len() - p,
        {
            let s = &page_sales[p];
            let uidx = match self.find_user(s.user_id.as_str()) {
                Some(u) => u,
                None => {
                    proof {
                        assert(false);
                    }
                    return Err(AppError::NotFound("seller vanished".to_owned()));
                },
            };
            proof {
                crate::store::lemma_user_idx_unique(self.users@, s.user_id@, uidx as int);
            }
            let count = self.count_items_of(s.id.as_str());
            out.push(
                SaleWithSeller {
                    sale: s.clone(),
                    seller_name: self.users[uidx].name.clone(),
                    items_count: count as i64,
                },
            );
            proof {
                self.sale_items@.lemma_filter_len(|it: SaleItem| it.sale_id@ == page[p as int].id@);
            }
            p = p + 1;
        }

        // the page rows all satisfy the filter, so their sellers exist
        Ok(
            PaginatedSales {
                sales: out,
                total_count: total as i64,
                page: page_c,
                page_size: size_c,
                total_pages: pages,
            },
        )
    }
}


impl Store {
    /// The line items of one sale, each joined with its product.
    fn join_items_of_sale(&self, sid: &str) -> (r: Vec<(SaleItem, Product)>)
        requires
            self.wf(),
        ensures
            r@ == items_of_sale_joined(self.sale_items@, self.products@, sid@),
    {
        let ghost pred = |it: SaleItem| it.sale_id@ == sid@ && has_product_id(
            self.products@,
            it.product_id@,
        );
        let ghost f = |it: SaleItem| (
            it,
            self.products@[product_idx(self.products@, it.product_id@)],
        );
        let mut out: Vec<(SaleItem, Product)> = Vec::new();
        let mut i: usize = 0;
        proof {
            assert(self.sale_items@.subrange(0, 0).filter(pred).map_values(f) =~= Seq::<(
                SaleItem,
                Product,
            )>::empty());
        }
        while i < self.sale_items.len()
            invariant
                self.wf(),
                i <= self.sale_items@.len(),
                pred == (|it: SaleItem| it.sale_id@ == sid@ && has_product_id(
                    self.products@,
                    it.product_id@,
                )),
                f == (|it: SaleItem| (
                    it,
                    self.products@[product_idx(self.products@, it.product_id@)],
                )),
                out@ == self.sale_items@.subrange(0, i as int).filter(pred).map_values(f),
            decreases self.sale_items@.len() - i,
        {
            let ghost prefix = self.sale_items@.subrange(0, i as int);
            proof {
                prefix.lemma_filter_push(self.sale_items@[i as int], pred);
                assert(self.sale_items@.subrange(0, i + 1) =~= prefix.push(
                    self.sale_items@[i as int],
                ));
            }
            let it = &self.sale_items[i];
            if crate::text::str_eq(it.sale_id.as_str(), sid) {
                match self.find_product(it.product_id.as_str()) {
                    Some(pi) => {
                        proof {
                            crate::store::lemma_product_idx_unique(
                                self.products@,
                                it.product_id@,
                                pi as int,
                            );
                        }
                        out.push((it.clone(), self.products[pi].clone()));
                    },
                    None => {},
                }
            }
            proof {
                let sub1 = self.sale_items@.subrange(0, i + 1);
                assert(out@ =~= sub1.filter(pred).map_values(f)) by {
                    if pred(self.sale_items@[i as int]) {
                        assert(sub1.filter(pred) =~= prefix.filter(pred).push(
                            self.sale_items@[i as int],
                        ));
                        assert(sub1.filter(pred).map_values(f) =~= prefix.filter(
                            pred,
                        ).map_values(f).push(f(self.sale_items@[i as int])));
                    }
                }
            }
            i = i + 1;
        }
        proof {
            assert(self.sale_items@.subrange(0, self.sale_items@.len() as int)
                =~= self.sale_items@);
        }
        out
    }

    /// One sale with its items and seller, for callers allowed to see
    /// it: administrators see every sale, other users only their own.
    pub fn get_sale_details(&self, sale_id: &str, current_user_id: &str, is_admin: bool) -> (r:
        AppResult<SaleWithItems>)
        requires
            self.wf(),
        ensures
            match r {
                Ok(d) => {
                    let si = crate::store::sale_idx(self.sales@, sale_id@);
                    &&& has_sale_id(self.sales@, sale_id@)
                    &&& has_user_id(self.users@, self.sales@[si].user_id@)
                    &&& (is_admin || self.sales@[si].user_id@ == current_user_id@)
                    &&& d.sale == self.sales@[si]
                    &&& d.seller_name@ == seller_name_of(self.users@, self.sales@[si])
                    &&& d.items@ == items_of_sale_joined(
                        self.sale_items@,
                        self.products@,
                        sale_id@,
                    )
                },
                Err(AppError::NotFound(_)) => !has_sale_id(self.sales@, sale_id@) || !has_user_id(
                    self.users@,
                    self.sales@[crate::store::sale_idx(self.sales@, sale_id@)].user_id@,
                ),
                Err(AppError::Unauthorized(_)) => {
                    let si = crate::store::sale_idx(self.sales@, sale_id@);
                    &&& has_sale_id(self.sales@, sale_id@)
                    &&& has_user_id(self.users@, self.sales@[si].user_id@)
                    &&& !is_admin
                    &&& self.sales@[si].user_id@ != current_user_id@
                },
                Err(_) => false,
            },
    {
        let si = match self.find_sale(sale_id) {
            Some(i) => i,
            None => {
                return Err(AppError::NotFound("no sale with this id".to_owned()));
            },
        };
        proof {
            crate::store::lemma_sale_idx_unique(self.sales@, sale_id@, si as int);
        }
        let sale = self.sales[si].clone();
        let uidx = match self.find_user(sale.user_id.as_str()) {
            Some(u) => u,
            None => {
                return Err(AppError::NotFound("unknown seller".to_owned()));
            },
        };
        proof {
            crate::store::lemma_user_idx_unique(self.users@, sale.user_id@, uidx as int);
        }
        if !is_admin && !crate::text::str_eq(sale.user_id.as_str(), current_user_id) {
            return Err(
                AppError::Unauthorized("only the seller or an administrator may see this sale".to_owned()),
            );
        }
        let seller_name = self.users[uidx].name.clone();
        let items = self.join_items_of_sale(sale_id);
        Ok(SaleWithItems { sale, items, seller_name })
    }

    /// Rebuilds the receipt of a committed sale from the ledger: the
    /// stored snapshots, never the current catalog prices.  Fails
    /// `NotFound` when the sale or its seller is unknown, and
    /// `ValidationError` when the stored date is malformed.
    pub fn generate_receipt(&self, sale_id: &str) -> (r: AppResult<Receipt>)
        requires
            self.wf(),
        ensures
            match r {
                Ok(receipt) => {
                    let si = crate::store::sale_idx(self.sales@, sale_id@);
                    let sale = self.sales@[si];
                    let joined = items_of_sale_joined(
                        self.sale_items@,
                        self.products@,
                        sale_id@,
                    );
                    &&& has_sale_id(self.sales@, sale_id@)
                    &&& has_user_id(self.users@, sale.user_id@)
                    &&& wf_timestamp(sale.date@)
                    &&& receipt.sale_number@ == sale.sale_number@
                    &&& receipt.date@ == receipt_date_of(sale.date@)
                    &&& receipt.seller_name@ == seller_name_of(self.users@, sale)
                    &&& receipt.total_amount == sale.total_amount
                    &&& receipt.items@.len() == joined.len()
                    &&& forall|k: int|
                        0 <= k < joined.len() ==> {
                            let ri = #[trigger] receipt.items@[k];
                            &&& ri.product_name@ == joined[k].1.name@
                            &&& ri.packaging_description@ == joined[k].1.packaging_description@
                            &&& ri.quantity == joined[k].0.quantity
                            &&& ri.unit_price == joined[k].0.unit_price
                            &&& ri.total_price == joined[k].0.total_price
                        }
                },
                Err(AppError::NotFound(_)) => !has_sale_id(self.sales@, sale_id@) || !has_user_id(
                    self.users@,
                    self.sales@[crate::store::sale_idx(self.sales@, sale_id@)].user_id@,
                ),
                Err(AppError::ValidationError(_)) => {
                    let si = crate::store::sale_idx(self.sales@, sale_id@);
                    &&& has_sale_id(self.sales@, sale_id@)
                    &&& has_user_id(self.users@, self.sales@[si].user_id@)
                    &&& !wf_timestamp(self.sales@[si].date@)
                },
                Err(_) => false,
            },
    {
        let si = match self.find_sale(sale_id) {
            Some(i) => i,
            None => {
                return Err(AppError::NotFound("no sale with this id".to_owned()));
            },
        };
        proof {
            crate::store::lemma_sale_idx_unique(self.sales@, sale_id@, si as int);
        }
        let sale = self.sales[si].clone();
        let uidx = match self.find_user(sale.user_id.as_str()) {
            Some(u) => u,
            None => {
                return Err(AppError::NotFound("unknown seller".to_owned()));
            },
        };
        proof {
            crate::store::lemma_user_idx_unique(self.users@, sale.user_id@, uidx as int);
        }
        let seller_name = self.users[uidx].name.clone();
        let joined = self.join_items_of_sale(sale_id);
        let date = match crate::dates::format_receipt_date(sale.date.as_str()) {
            Ok(d) => d,
            Err(e) => {
                return Err(e);
            },
        };
        let mut receipt_items: Vec<ReceiptItem> = Vec::new();
        let mut k: usize = 0;
        while k < joined.len()
            invariant
                k <= joined@.len(),
                receipt_items@.len() == k,
                forall|q: int|
                    0 <= q < k ==> {
                        let ri = #[trigger] receipt_items@[q];
                        &&& ri.product_name@ == joined@[q].1.name@
                        &&& ri.packaging_description@ == joined@[q].1.packaging_description@
                        &&& ri.quantity == joined@[q].0.quantity
                        &&& ri.unit_price == joined@[q].0.unit_price
                        &&& ri.total_price == joined@[q].0.total_price
                    },
            decreases joined@.len() - k,
        {
            let pair = &joined[k];
            receipt_items.push(
                ReceiptItem {
                    product_name: pair.1.name.clone(),
                    packaging_description: pair.1.packaging_description.clone(),
                    quantity: pair.0.quantity,
                    unit_price: pair.0.unit_price,
                    total_price: pair.0.total_price,
                },
            );
            k = k + 1;
        }
        Ok(
            Receipt {
                sale_number: sale.sale_number,
                date,
                seller_name,
                items: receipt_items,
                total_amount: sale.total_amount,
            },
        )
    }
}


/// The sales screen's current filters, page and caller identity.
#[derive(Debug)]
pub struct SalesState {
    pub search_query: String,
    pub date_filter: DateFilter,
    pub sort_by: SortFieldSale,
    pub sort_order: crate::query::SortOrder,
    pub current_page: i64,
    pub page_size: i64,
    pub current_user_id: String,
    pub is_admin: bool,
}

impl SalesState {
    /// The opening state for a caller: everything they may see, newest
    /// first, first page of five.
    pub fn new(current_user_id: String, is_admin: bool) -> (r: Self)
        ensures
            r.search_query@.len() == 0,
            r.date_filter == DateFilter::All,
            r.sort_by == SortFieldSale::Date,
            r.sort_order == crate::query::SortOrder::Desc,
            r.current_page == 1,
            r.page_size == 5,
            r.current_user_id == current_user_id,
            r.is_admin == is_admin,
    {
        SalesState {
            search_query: String::new(),
            date_filter: DateFilter::All,
            sort_by: SortFieldSale::Date,
            sort_order: crate::query::SortOrder::Desc,
            current_page: 1,
            page_size: 5,
            current_user_id,
            is_admin,
        }
    }
}

} // verus!
