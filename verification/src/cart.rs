//! The in-progress sale being assembled on a till: a cart of lines with
//! price snapshots whose running total is always exactly the sum of the
//! line totals.

use vstd::prelude::*;
use vstd::pervasive::VecAdditionalExecFns;

use crate::error::{AppError, AppResult};
use crate::money::Money;
use crate::sales::CreateSaleItemData;

verus! {

/// One line of the cart.
#[derive(Debug)]
pub struct CartItemData {
    pub product_id: String,
    pub product_name: String,
    pub unit_price: Money,
    pub quantity: i32,
    pub total_price: Money,
    pub packaging_description: String,
}

impl Clone for CartItemData {
    /// A clone equals the original in every field.
    fn clone(&self) -> (r: Self)
        ensures
            r == *self,
    {
        CartItemData {
            product_id: self.product_id.clone(),
            product_name: self.product_name.clone(),
            unit_price: self.unit_price,
            quantity: self.quantity,
            total_price: self.total_price,
            packaging_description: self.packaging_description.clone(),
        }
    }
}

/// The cart of a sale being assembled.
#[derive(Debug)]
pub struct NewSaleState {
    pub cart_items: Vec<CartItemData>,
    pub total_amount: Money,
}

/// The exact sum of the cart lines' totals.
pub open spec fn cart_sum(items: Seq<CartItemData>) -> int
    decreases items.len(),
{
    if items.len() == 0 {
        0
    } else {
        cart_sum(items.drop_last()) + items.last().total_price.val()
    }
}

impl NewSaleState {
    /// The cart invariant: one line per product, every line total exact,
    /// every quantity positive, and the running total exactly the sum.
    pub open spec fn wf(self) -> bool {
        &&& forall|i: int, j: int|
            0 <= i < j < self.cart_items@.len() ==> self.cart_items@[i].product_id@
                != self.cart_items@[j].product_id@
        &&& forall|i: int|
            0 <= i < self.cart_items@.len() ==> {
                let it = #[trigger] self.cart_items@[i];
                &&& it.quantity > 0
                &&& it.unit_price.val() >= 0
                &&& it.total_price.val() == it.unit_price.val() * it.quantity
            }
        &&& self.total_amount.val() == cart_sum(self.cart_items@)
    }

    /// An empty cart.
    pub fn new() -> (r: Self)
        ensures
            r.wf(),
            r.cart_items@.len() == 0,
            r.total_amount.val() == 0,
    {
        NewSaleState { cart_items: Vec::new(), total_amount: Money::zero() }
    }

    /// Where the product already has a line, if anywhere.
    fn find_line(&self, product_id: &str) -> (r: Option<usize>)
        ensures
            match r {
                Some(i) => i < self.cart_items@.len() && self.cart_items@[i as int].product_id@
                    == product_id@,
                None => forall|i: int|
                    0 <= i < self.cart_items@.len() ==> (
                    #[trigger] self.cart_items@[i]).product_id@ != product_id@,
            },
    {
        let mut i: usize = 0;
        while i < self.cart_items.len()
            invariant
                i <= self.cart_items@.len(),
                forall|j: int|
                    0 <= j < i ==> (#[trigger] self.cart_items@[j]).product_id@ != product_id@,
            decreases self.cart_items@.len() - i,
        {
            if crate::text::str_eq(self.cart_items[i].product_id.as_str(), product_id) {
                return Some(i);
            }
            i = i + 1;
        }
        None
    }

    /// Recomputes the running total from the lines.
    fn update_total(&mut self) -> (r: AppResult<()>)
        requires
            forall|i: int|
                0 <= i < old(self).cart_items@.len() ==> {
                    let it = #[trigger] old(self).cart_items@[i];
                    &&& it.quantity > 0
                    &&& it.unit_price.val() >= 0
                    &&& it.total_price.val() == it.unit_price.val() * it.quantity
                },
        ensures
            final(self).cart_items == old(self).cart_items,
            match r {
                Ok(_) => final(self).total_amount.val() == cart_sum(final(self).cart_items@),
                Err(AppError::ValidationError(_)) => final(self).total_amount == old(
                    self,
                ).total_amount,
                Err(_) => false,
            },
    {
        let mut acc = Money::zero();
        let mut i: usize = 0;
        proof {
            assert(cart_sum(self.cart_items@.subrange(0, 0)) == 0);
        }
        while i < self.cart_items.len()
            invariant
                i <= self.cart_items@.len(),
                self.cart_items == old(self).cart_items,
                self.total_amount == old(self).total_amount,
                acc.val() == cart_sum(self.cart_items@.subrange(0, i as int)),
            decreases self.cart_items@.len() - i,
        {
            let next = match acc.checked_add(self.cart_items[i].total_price) {
                Some(v) => v,
                None => {
                    return Err(AppError::ValidationError("cart total out of range".to_owned()));
                },
            };
            proof {
                assert(self.cart_items@.subrange(0, i + 1).drop_last() =~= self.cart_items@
                    .subrange(0, i as int));
            }
            acc = next;
            i = i + 1;
        }
        proof {
            assert(self.cart_items@.subrange(0, self.cart_items@.len() as int)
                =~= self.cart_items@);
        }
        self.total_amount = acc;
        Ok(())
    }

    /// Adds a line, or raises the quantity of the product's existing
    /// line, keeping the total exact.  Rejects a non-positive quantity,
    /// a negative price, and amounts out of range; the cart is then
    /// unchanged except possibly for an already-recomputed total.
    pub fn add_item(
        &mut self,
        product_id: String,
        product_name: String,
        unit_price: Money,
        quantity: i32,
        packaging_description: String,
    ) -> (r: AppResult<()>)
        requires
            old(self).wf(),
        ensures
            r is Ok ==> final(self).wf(),
            r is Err ==> final(self).cart_items@ == old(self).cart_items@
                && final(self).total_amount == old(self).total_amount,
            r is Ok ==> exists|i: int|
                0 <= i < final(self).cart_items@.len() && (
                #[trigger] final(self).cart_items@[i]).product_id@ == product_id@,
    {
        if quantity <= 0 {
            return Err(AppError::ValidationError("quantity must be positive".to_owned()));
        }
        if !unit_price.is_nonnegative() {
            return Err(AppError::ValidationError("price must not be negative".to_owned()));
        }
        let found = self.find_line(product_id.as_str());
        match found {
            Some(i) => {
                let prev = self.cart_items[i].clone();
                let new_qty = match prev.quantity.checked_add(quantity) {
                    Some(q) => q,
                    None => {
                        return Err(
                            AppError::ValidationError("quantity out of range".to_owned()),
                        );
                    },
                };
                let new_total = match prev.unit_price.checked_mul_int(new_qty) {
                    Some(t) => t,
                    None => {
                        return Err(AppError::ValidationError("amount out of range".to_owned()));
                    },
                };
                let updated = CartItemData {
                    quantity: new_qty,
                    total_price: new_total,
                    ..prev.clone()
                };
                let ghost old_items = self.cart_items@;
                let old_total = self.total_amount;
                self.cart_items.set(i, updated);
                match self.update_total() {
                    Ok(_) => {
                        proof {
                            assert(self.cart_items@[i as int].product_id@ == product_id@);
                        }
                        Ok(())
                    },
                    Err(e) => {
                        self.cart_items.set(i, prev);
                        self.total_amount = old_total;
                        proof {
                            assert(self.cart_items@ =~= old_items);
                        }
                        Err(e)
                    },
                }
            },
            None => {
                let total_price = match unit_price.checked_mul_int(quantity) {
                    Some(t) => t,
                    None => {
                        return Err(AppError::ValidationError("amount out of range".to_owned()));
                    },
                };
                let line = CartItemData {
                    product_id,
                    product_name,
                    unit_price,
                    quantity,
                    total_price,
                    packaging_description,
                };
                let ghost old_items = self.cart_items@;
                let old_total = self.total_amount;
                self.cart_items.push(line);
                match self.update_total() {
                    Ok(_) => {
                        proof {
                            assert(self.cart_items@[self.cart_items@.len() - 1].product_id@
                                == product_id@);
                        }
                        Ok(())
                    },
                    Err(e) => {
                        self.cart_items.pop();
                        self.total_amount = old_total;
                        proof {
                            assert(self.cart_items@ =~= old_items);
                        }
                        Err(e)
                    },
                }
            },
        }
    }

    /// Removes the product's line, if it has one, keeping the total exact.
    pub fn remove_item(&mut self, product_id: &str) -> (r: AppResult<()>)
        requires
            old(self).wf(),
        ensures
            r is Ok ==> final(self).wf(),
            r is Ok ==> forall|i: int|
                0 <= i < final(self).cart_items@.len() ==> (
                #[trigger] final(self).cart_items@[i]).product_id@ != product_id@,
    {
        let found = self.find_line(product_id);
        match found {
            None => Ok(()),
            Some(i) => {
                let ghost old_items = self.cart_items@;
                self.cart_items.remove(i);
                proof {
                    assert forall|a: int, b: int|
                        0 <= a < b < self.cart_items@.len() implies self.cart_items@[a].product_id@
                        != self.cart_items@[b].product_id@ by {
                        let oa = if a < i { a } else { a + 1 };
                        let ob = if b < i { b } else { b + 1 };
                        assert(self.cart_items@[a] == old_items[oa]);
                        assert(self.cart_items@[b] == old_items[ob]);
                    }
                    assert forall|a: int| 0 <= a < self.cart_items@.len() implies (
                    #[trigger] self.cart_items@[a]).product_id@ != product_id@ by {
                        let oa = if a < i { a } else { a + 1 };
                        assert(self.cart_items@[a] == old_items[oa]);
                        if oa != i {
                            assert(old_items[oa].product_id@ != old_items[i as int].product_id@);
                        }
                    }
                }
                match self.update_total() {
                    Ok(_) => Ok(()),
                    Err(e) => Err(e),
                }
            },
        }
    }

    /// Sets the quantity of the product's line, keeping the total exact.
    /// A product without a line is left alone.
    pub fn update_quantity(&mut self, product_id: &str, new_quantity: i32) -> (r: AppResult<()>)
        requires
            old(self).wf(),
        ensures
            r is Ok ==> final(self).wf(),
    {
        if new_quantity <= 0 {
            return Err(AppError::ValidationError("quantity must be positive".to_owned()));
        }
        let found = self.find_line(product_id);
        match found {
            None => Ok(()),
            Some(i) => {
                let prev = self.cart_items[i].clone();
                let new_total = match prev.unit_price.checked_mul_int(new_quantity) {
                    Some(t) => t,
                    None => {
                        return Err(AppError::ValidationError("amount out of range".to_owned()));
                    },
                };
                let updated = CartItemData {
                    quantity: new_quantity,
                    total_price: new_total,
                    ..prev
                };
                self.cart_items.set(i, updated);
                match self.update_total() {
                    Ok(_) => Ok(()),
                    Err(e) => Err(e),
                }
            },
        }
    }

    /// Empties the cart.
    pub fn clear_cart(&mut self)
        ensures
            final(self).wf(),
            final(self).cart_items@.len() == 0,
            final(self).total_amount.val() == 0,
    {
        self.cart_items = Vec::new();
        self.total_amount = Money::zero();
    }

    /// The cart as the request lines a sale takes.
    pub fn to_sale_items(&self) -> (r: Vec<CreateSaleItemData>)
        ensures
            r@.len() == self.cart_items@.len(),
            forall|i: int|
                0 <= i < r@.len() ==> (#[trigger] r@[i]).product_id@ == self.cart_items@[
                    i
                ].product_id@ && r@[i].quantity == self.cart_items@[i].quantity,
    {
        let mut r: Vec<CreateSaleItemData> = Vec::new();
        let mut i: usize = 0;
        while i < self.cart_items.len()
            invariant
                i <= self.cart_items@.len(),
                r@.len() == i,
                forall|j: int|
                    0 <= j < i ==> (#[trigger] r@[j]).product_id@ == self.cart_items@[
                        j
                    ].product_id@ && r@[j].quantity == self.cart_items@[j].quantity,
            decreases self.cart_items@.len() - i,
        {
            r.push(
                CreateSaleItemData {
                    product_id: self.cart_items[i].product_id.clone(),
                    quantity: self.cart_items[i].quantity,
                },
            );
            i = i + 1;
        }
        r
    }
}

} // verus!
