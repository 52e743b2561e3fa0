//! The relational store, modelled in memory.
//!
//! The store holds the catalog of products, the append-only ledger of
//! sales and their line items, and the users.  Its well-formedness
//! predicate [`Store::wf`] is the data-layer contract: identifiers and
//! sale numbers are unique, stock counts are never negative, every line
//! item's total is exactly its snapshot unit price times its quantity,
//! and every committed sale's total is exactly the sum of its items'
//! totals.  Every mutating operation of the crate preserves it.

use vstd::prelude::*;

use crate::money::Money;

verus! {

/// A sellable catalog item with a stock count and a current price.
#[derive(Debug)]
pub struct Product {
    pub id: String,
    pub name: String,
    pub packaging_description: String,
    pub sku: Option<String>,
    pub stock_in_sale_units: i32,
    pub price_per_sale_unit: Money,
    pub created_at: String,
    pub updated_at: String,
}

/// An immutable ledger record of a completed transaction.
#[derive(Debug)]
pub struct Sale {
    pub id: String,
    pub user_id: String,
    pub sale_number: String,
    pub total_amount: Money,
    pub date: String,
    pub created_at: String,
    pub updated_at: String,
}

/// One product/quantity/price entry within a sale, with the unit price
/// frozen at sale time.
#[derive(Debug)]
pub struct SaleItem {
    pub id: String,
    pub sale_id: String,
    pub product_id: String,
    pub quantity: i32,
    pub unit_price: Money,
    pub total_price: Money,
    pub created_at: String,
    pub updated_at: String,
}

/// An account that can record sales.
#[derive(Debug)]
pub struct User {
    pub id: String,
    pub password: String,
    pub name: String,
    pub role: String,
    pub must_change_password: i32,
    pub created_at: String,
    pub updated_at: String,
}

/// Clones an optional text field, keeping the value.
pub fn clone_opt_string(o: &Option<String>) -> (r: Option<String>)
    ensures
        r == *o,
{
    match o {
        Some(s) => Some(s.clone()),
        None => None,
    }
}

impl Clone for Product {
    /// A clone equals the original in every field.
    fn clone(&self) -> (r: Self)
        ensures
            r == *self,
    {
        Product {
            id: self.id.clone(),
            name: self.name.clone(),
            packaging_description: self.packaging_description.clone(),
            sku: clone_opt_string(&self.sku),
            stock_in_sale_units: self.stock_in_sale_units,
            price_per_sale_unit: self.price_per_sale_unit,
            created_at: self.created_at.clone(),
            updated_at: self.updated_at.clone(),
        }
    }
}

impl Clone for Sale {
    /// A clone equals the original in every field.
    fn clone(&self) -> (r: Self)
        ensures
            r == *self,
    {
        Sale {
            id: self.id.clone(),
            user_id: self.user_id.clone(),
            sale_number: self.sale_number.clone(),
            total_amount: self.total_amount,
            date: self.date.clone(),
            created_at: self.created_at.clone(),
            updated_at: self.updated_at.clone(),
        }
    }
}

impl Clone for SaleItem {
    /// A clone equals the original in every field.
    fn clone(&self) -> (r: Self)
        ensures
            r == *self,
    {
        SaleItem {
            id: self.id.clone(),
            sale_id: self.sale_id.clone(),
            product_id: self.product_id.clone(),
            quantity: self.quantity,
            unit_price: self.unit_price,
            total_price: self.total_price,
            created_at: self.created_at.clone(),
            updated_at: self.updated_at.clone(),
        }
    }
}

impl Clone for User {
    /// A clone equals the original in every field.
    fn clone(&self) -> (r: Self)
        ensures
            r == *self,
    {
        User {
            id: self.id.clone(),
            password: self.password.clone(),
            name: self.name.clone(),
            role: self.role.clone(),
            must_change_password: self.must_change_password,
            created_at: self.created_at.clone(),
            updated_at: self.updated_at.clone(),
        }
    }
}

impl User {
    /// The stored flag as a boolean.
    pub fn must_change_password_as_bool(&self) -> (r: bool)
        ensures
            r == (self.must_change_password != 0),
    {
        self.must_change_password != 0
    }
}

/// The shared relational store.
#[derive(Debug)]
pub struct Store {
    pub products: Vec<Product>,
    pub sales: Vec<Sale>,
    pub sale_items: Vec<SaleItem>,
    pub users: Vec<User>,
    /// Feeds the next sale number; strictly above every number issued.
    pub sale_seq: u64,
}

/// No two positions hold the same identifier.
pub open spec fn distinct_ids(ids: Seq<Seq<char>>) -> bool {
    forall|i: int, j: int| 0 <= i < j < ids.len() ==> ids[i] != ids[j]
}

pub open spec fn product_ids(products: Seq<Product>) -> Seq<Seq<char>> {
    products.map_values(|p: Product| p.id@)
}

pub open spec fn sale_ids(sales: Seq<Sale>) -> Seq<Seq<char>> {
    sales.map_values(|s: Sale| s.id@)
}

pub open spec fn sale_numbers(sales: Seq<Sale>) -> Seq<Seq<char>> {
    sales.map_values(|s: Sale| s.sale_number@)
}

pub open spec fn item_ids(items: Seq<SaleItem>) -> Seq<Seq<char>> {
    items.map_values(|it: SaleItem| it.id@)
}

pub open spec fn user_ids(users: Seq<User>) -> Seq<Seq<char>> {
    users.map_values(|u: User| u.id@)
}

/// Some product carries this identifier.
pub open spec fn has_product_id(products: Seq<Product>, id: Seq<char>) -> bool {
    exists|i: int| 0 <= i < products.len() && (#[trigger] products[i]).id@ == id
}

/// The position of the product with this identifier.
pub open spec fn product_idx(products: Seq<Product>, id: Seq<char>) -> int {
    choose|i: int| 0 <= i < products.len() && (#[trigger] products[i]).id@ == id
}

/// Some sale carries this identifier.
pub open spec fn has_sale_id(sales: Seq<Sale>, id: Seq<char>) -> bool {
    exists|i: int| 0 <= i < sales.len() && (#[trigger] sales[i]).id@ == id
}

/// The position of the sale with this identifier.
pub open spec fn sale_idx(sales: Seq<Sale>, id: Seq<char>) -> int {
    choose|i: int| 0 <= i < sales.len() && (#[trigger] sales[i]).id@ == id
}

/// Some sale carries this sale number.
pub open spec fn has_sale_number(sales: Seq<Sale>, number: Seq<char>) -> bool {
    exists|i: int| 0 <= i < sales.len() && (#[trigger] sales[i]).sale_number@ == number
}

/// Some line item carries this identifier.
pub open spec fn has_item_id(items: Seq<SaleItem>, id: Seq<char>) -> bool {
    exists|i: int| 0 <= i < items.len() && (#[trigger] items[i]).id@ == id
}

/// Some user carries this identifier.
pub open spec fn has_user_id(users: Seq<User>, id: Seq<char>) -> bool {
    exists|i: int| 0 <= i < users.len() && (#[trigger] users[i]).id@ == id
}

/// The position of the user with this identifier.
pub open spec fn user_idx(users: Seq<User>, id: Seq<char>) -> int {
    choose|i: int| 0 <= i < users.len() && (#[trigger] users[i]).id@ == id
}

/// Some line item references this product.
pub open spec fn product_referenced(items: Seq<SaleItem>, product_id: Seq<char>) -> bool {
    exists|i: int| 0 <= i < items.len() && (#[trigger] items[i]).product_id@ == product_id
}

/// With distinct identifiers, the position found for an identifier is
/// the only one that carries it.
pub proof fn lemma_product_idx_unique(products: Seq<Product>, id: Seq<char>, i: int)
    requires
        distinct_ids(product_ids(products)),
        0 <= i < products.len(),
        products[i].id@ == id,
    ensures
        has_product_id(products, id),
        product_idx(products, id) == i,
{
    assert(has_product_id(products, id));
    let j = product_idx(products, id);
    assert(0 <= j < products.len() && products[j].id@ == id);
    if i != j {
        assert(product_ids(products)[i] == id);
        assert(product_ids(products)[j] == id);
        assert(false);
    }
}

/// With distinct identifiers, the position found for a sale identifier
/// is the only one that carries it.
pub proof fn lemma_sale_idx_unique(sales: Seq<Sale>, id: Seq<char>, i: int)
    requires
        distinct_ids(sale_ids(sales)),
        0 <= i < sales.len(),
        sales[i].id@ == id,
    ensures
        has_sale_id(sales, id),
        sale_idx(sales, id) == i,
{
    assert(has_sale_id(sales, id));
    let j = sale_idx(sales, id);
    assert(0 <= j < sales.len() && sales[j].id@ == id);
    if i != j {
        assert(sale_ids(sales)[i] == id);
        assert(sale_ids(sales)[j] == id);
        assert(false);
    }
}

/// With distinct identifiers, the position found for a user identifier
/// is the only one that carries it.
pub proof fn lemma_user_idx_unique(users: Seq<User>, id: Seq<char>, i: int)
    requires
        distinct_ids(user_ids(users)),
        0 <= i < users.len(),
        users[i].id@ == id,
    ensures
        has_user_id(users, id),
        user_idx(users, id) == i,
{
    assert(has_user_id(users, id));
    let j = user_idx(users, id);
    assert(0 <= j < users.len() && users[j].id@ == id);
    if i != j {
        assert(user_ids(users)[i] == id);
        assert(user_ids(users)[j] == id);
        assert(false);
    }
}


/// An identifier found among products is still found when the identifier
/// sequence is unchanged position for position.
pub proof fn lemma_has_product_same_ids(a: Seq<Product>, b: Seq<Product>, id: Seq<char>)
    requires
        a.len() == b.len(),
        forall|j: int| 0 <= j < a.len() ==> (#[trigger] a[j]).id@ == b[j].id@,
        has_product_id(a, id),
    ensures
        has_product_id(b, id),
{
    let j = choose|j: int| 0 <= j < a.len() && (#[trigger] a[j]).id@ == id;
    assert(b[j].id@ == id);
}

/// Removing a position keeps identifiers distinct.
pub proof fn lemma_distinct_remove(ids: Seq<Seq<char>>, at: int)
    requires
        distinct_ids(ids),
        0 <= at < ids.len(),
    ensures
        distinct_ids(ids.remove(at)),
{
    let out = ids.remove(at);
    assert forall|i: int, j: int| 0 <= i < j < out.len() implies out[i] != out[j] by {
        let oi = if i < at { i } else { i + 1 };
        let oj = if j < at { j } else { j + 1 };
        assert(out[i] == ids[oi] && out[j] == ids[oj]);
    }
}

/// The exact sum of the totals of the line items belonging to one sale.
pub open spec fn items_total(items: Seq<SaleItem>, sale_id: Seq<char>) -> int
    decreases items.len(),
{
    if items.len() == 0 {
        0
    } else {
        items_total(items.drop_last(), sale_id) + if items.last().sale_id@ == sale_id {
            items.last().total_price.val()
        } else {
            0
        }
    }
}

/// One line item is internally consistent: positive quantity,
/// non-negative snapshot price, and an exact line total.
pub open spec fn item_wf(it: SaleItem) -> bool {
    &&& it.quantity > 0
    &&& it.unit_price.val() >= 0
    &&& it.total_price.val() == it.unit_price.val() * it.quantity
}

impl Store {
    /// The well-formedness invariant of the whole store.
    pub open spec fn wf(self) -> bool {
        &&& distinct_ids(product_ids(self.products@))
        &&& distinct_ids(sale_ids(self.sales@))
        &&& distinct_ids(sale_numbers(self.sales@))
        &&& distinct_ids(item_ids(self.sale_items@))
        &&& distinct_ids(user_ids(self.users@))
        &&& forall|i: int|
            0 <= i < self.products@.len() ==> (#[trigger] self.products@[i]).stock_in_sale_units
                >= 0
        &&& forall|i: int|
            0 <= i < self.products@.len() ==> (
            #[trigger] self.products@[i]).price_per_sale_unit.val() > 0
        &&& forall|i: int| 0 <= i < self.sale_items@.len() ==> item_wf(#[trigger] self.sale_items@[i])
        &&& forall|i: int|
            0 <= i < self.sale_items@.len() ==> has_sale_id(
                self.sales@,
                (#[trigger] self.sale_items@[i]).sale_id@,
            )
        &&& forall|i: int|
            0 <= i < self.sale_items@.len() ==> has_product_id(
                self.products@,
                (#[trigger] self.sale_items@[i]).product_id@,
            )
        &&& forall|i: int|
            0 <= i < self.sales@.len() ==> (#[trigger] self.sales@[i]).total_amount.val()
                == items_total(self.sale_items@, self.sales@[i].id@)
    }

    /// An empty store is well formed.
    pub fn new() -> (r: Store)
        ensures
            r.wf(),
            r.products@.len() == 0,
            r.sales@.len() == 0,
            r.sale_items@.len() == 0,
            r.users@.len() == 0,
            r.sale_seq == 1,
    {
        Store {
            products: Vec::new(),
            sales: Vec::new(),
            sale_items: Vec::new(),
            users: Vec::new(),
            sale_seq: 1,
        }
    }

    /// Where the product with this identifier sits, if anywhere.
    pub fn find_product(&self, product_id: &str) -> (r: Option<usize>)
        ensures
            match r {
                Some(i) => i < self.products@.len() && self.products@[i as int].id@ == product_id@,
                None => forall|i: int|
                    0 <= i < self.products@.len() ==> (#[trigger] self.products@[i]).id@
                        != product_id@,
            },
    {
        let mut i: usize = 0;
        while i < self.products.len()
            invariant
                i <= self.products@.len(),
                forall|j: int|
                    0 <= j < i ==> (#[trigger] self.products@[j]).id@ != product_id@,
            decreases self.products@.len() - i,
        {
            if crate::text::str_eq(self.products[i].id.as_str(), product_id) {
                return Some(i);
            }
            i = i + 1;
        }
        None
    }

    /// Where the sale with this identifier sits, if anywhere.
    pub fn find_sale(&self, sale_id: &str) -> (r: Option<usize>)
        ensures
            match r {
                Some(i) => i < self.sales@.len() && self.sales@[i as int].id@ == sale_id@,
                None => forall|i: int|
                    0 <= i < self.sales@.len() ==> (#[trigger] self.sales@[i]).id@ != sale_id@,
            },
    {
        let mut i: usize = 0;
        while i < self.sales.len()
            invariant
                i <= self.sales@.len(),
                forall|j: int| 0 <= j < i ==> (#[trigger] self.sales@[j]).id@ != sale_id@,
            decreases self.sales@.len() - i,
        {
            if crate::text::str_eq(self.sales[i].id.as_str(), sale_id) {
                return Some(i);
            }
            i = i + 1;
        }
        None
    }

    /// Where the user with this identifier sits, if anywhere.
    pub fn find_user(&self, user_id: &str) -> (r: Option<usize>)
        ensures
            match r {
                Some(i) => i < self.users@.len() && self.users@[i as int].id@ == user_id@,
                None => forall|i: int|
                    0 <= i < self.users@.len() ==> (#[trigger] self.users@[i]).id@ != user_id@,
            },
    {
        let mut i: usize = 0;
        while i < self.users.len()
            invariant
                i <= self.users@.len(),
                forall|j: int| 0 <= j < i ==> (#[trigger] self.users@[j]).id@ != user_id@,
            decreases self.users@.len() - i,
        {
            if crate::text::str_eq(self.users[i].id.as_str(), user_id) {
                return Some(i);
            }
            i = i + 1;
        }
        None
    }

    /// Where the user with this name sits, if anywhere.
    pub fn find_user_by_name(&self, name: &str) -> (r: Option<usize>)
        ensures
            match r {
                Some(i) => i < self.users@.len() && self.users@[i as int].name@ == name@
                    && forall|j: int|
                    0 <= j < i ==> (#[trigger] self.users@[j]).name@ != name@,
                None => forall|i: int|
                    0 <= i < self.users@.len() ==> (#[trigger] self.users@[i]).name@ != name@,
            },
    {
        let mut i: usize = 0;
        while i < self.users.len()
            invariant
                i <= self.users@.len(),
                forall|j: int| 0 <= j < i ==> (#[trigger] self.users@[j]).name@ != name@,
            decreases self.users@.len() - i,
        {
            if crate::text::str_eq(self.users[i].name.as_str(), name) {
                return Some(i);
            }
            i = i + 1;
        }
        None
    }

    /// Whether any sale carries this sale number.
    pub fn sale_number_taken(&self, number: &str) -> (r: bool)
        ensures
            r == exists|i: int|
                0 <= i < self.sales@.len() && (#[trigger] self.sales@[i]).sale_number@ == number@,
    {
        let mut i: usize = 0;
        while i < self.sales.len()
            invariant
                i <= self.sales@.len(),
                forall|j: int|
                    0 <= j < i ==> (#[trigger] self.sales@[j]).sale_number@ != number@,
            decreases self.sales@.len() - i,
        {
            if crate::text::str_eq(self.sales[i].sale_number.as_str(), number) {
                return true;
            }
            i = i + 1;
        }
        false
    }

    /// Whether any line item carries this identifier.
    pub fn item_id_taken(&self, item_id: &str) -> (r: bool)
        ensures
            r == exists|i: int|
                0 <= i < self.sale_items@.len() && (#[trigger] self.sale_items@[i]).id@
                    == item_id@,
    {
        let mut i: usize = 0;
        while i < self.sale_items.len()
            invariant
                i <= self.sale_items@.len(),
                forall|j: int| 0 <= j < i ==> (#[trigger] self.sale_items@[j]).id@ != item_id@,
            decreases self.sale_items@.len() - i,
        {
            if crate::text::str_eq(self.sale_items[i].id.as_str(), item_id) {
                return true;
            }
            i = i + 1;
        }
        false
    }
}

/// Appending an item changes exactly the total of the sale it belongs to.
pub proof fn lemma_items_total_push(items: Seq<SaleItem>, it: SaleItem, sale_id: Seq<char>)
    ensures
        items_total(items.push(it), sale_id) == items_total(items, sale_id) + if it.sale_id@
            == sale_id {
            it.total_price.val()
        } else {
            0
        },
{
    assert(items.push(it).drop_last() =~= items);
    assert(items.push(it).last() == it);
}

/// Well-formed line items only add non-negative totals.
pub proof fn lemma_items_total_nonneg(items: Seq<SaleItem>, sale_id: Seq<char>)
    requires
        forall|k: int| 0 <= k < items.len() ==> item_wf(#[trigger] items[k]),
    ensures
        items_total(items, sale_id) >= 0,
    decreases items.len(),
{
    if items.len() > 0 {
        assert forall|k: int| 0 <= k < items.len() - 1 implies item_wf(
            #[trigger] items.drop_last()[k],
        ) by {
            assert(items.drop_last()[k] == items[k]);
        }
        lemma_items_total_nonneg(items.drop_last(), sale_id);
        let last = items.last();
        assert(last.total_price.val() >= 0) by (nonlinear_arith)
            requires
                last.total_price.val() == last.unit_price.val() * last.quantity,
                last.unit_price.val() >= 0,
                last.quantity > 0,
        ;
    }
}

/// Line-item totals sum across concatenation.
pub proof fn lemma_items_total_concat(a: Seq<SaleItem>, b: Seq<SaleItem>, sale_id: Seq<char>)
    ensures
        items_total(a + b, sale_id) == items_total(a, sale_id) + items_total(b, sale_id),
    decreases b.len(),
{
    if b.len() == 0 {
        assert(a + b =~= a);
    } else {
        lemma_items_total_concat(a, b.drop_last(), sale_id);
        assert(a + b =~= (a + b.drop_last()).push(b.last()));
        lemma_items_total_push(a + b.drop_last(), b.last(), sale_id);
        lemma_items_total_push(b.drop_last(), b.last(), sale_id);
        assert(b.drop_last().push(b.last()) =~= b);
    }
}

/// A sale identifier no item carries sums to zero.
pub proof fn lemma_items_total_absent(items: Seq<SaleItem>, sale_id: Seq<char>)
    requires
        forall|k: int| 0 <= k < items.len() ==> (#[trigger] items[k]).sale_id@ != sale_id,
    ensures
        items_total(items, sale_id) == 0,
    decreases items.len(),
{
    if items.len() > 0 {
        lemma_items_total_absent(items.drop_last(), sale_id);
    }
}

/// A sale identifier no appended item carries keeps its total.
pub proof fn lemma_items_total_append(items: Seq<SaleItem>, added: Seq<SaleItem>, sale_id: Seq<char>)
    requires
        forall|k: int| 0 <= k < added.len() ==> (#[trigger] added[k]).sale_id@ != sale_id,
    ensures
        items_total(items + added, sale_id) == items_total(items, sale_id),
    decreases added.len(),
{
    if added.len() == 0 {
        assert(items + added =~= items);
    } else {
        let prefix = added.drop_last();
        lemma_items_total_append(items, prefix, sale_id);
        assert(items + added =~= (items + prefix).push(added.last()));
        lemma_items_total_push(items + prefix, added.last(), sale_id);
    }
}

} // verus!
