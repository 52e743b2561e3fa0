//! Catalog store: product CRUD, SKU generation, and the atomic
//! conditional stock decrement that keeps stock counts non-negative.

use vstd::prelude::*;
use vstd::pervasive::VecAdditionalExecFns;

use crate::error::{AppError, AppResult};
use crate::money::Money;
use crate::store::{
    has_product_id, product_ids, product_idx, product_referenced, Product, Store,
};
use crate::query::{
    clamped_page, clamped_size, ids_views, key_views, page_bounds, page_hi, page_lo, page_of,
    pages_needed, select_page, sort_positions, KeyV, SortKey, SortOrder,
};
use crate::text::{chars_of, contains_fold};
use crate::trusted::{
    alnum_of, char_is_alphanumeric, char_is_whitespace, new_uuid_string, space_of,
    string_from_chars, to_uppercase_string, upper_of,
};

verus! {

/// Stock-level filter of the product listing.
#[derive(Debug, Clone, Copy, PartialEq, Eq, Structural)]
pub enum StockFilter {
    All,
    InStock,
    OutOfStock,
}

/// The closed set of fields a product listing can sort by.
#[derive(Debug, Clone, Copy, PartialEq, Eq, Structural)]
pub enum SortFieldProduct {
    Name,
    Stock,
    Price,
    CreatedAt,
}

/// Filter, sort and page parameters of the product listing.
#[derive(Debug)]
pub struct ProductSearchParams {
    pub search_query: Option<String>,
    pub stock_filter: StockFilter,
    pub sort_by: SortFieldProduct,
    pub sort_order: SortOrder,
    pub page: i64,
    pub page_size: i64,
}

/// One page of products with count metadata.
#[derive(Debug)]
pub struct PaginatedProducts {
    pub products: Vec<Product>,
    pub total_count: i64,
    pub page: i64,
    pub page_size: i64,
    pub total_pages: i64,
}

/// The view of an optional text parameter.
pub open spec fn opt_text_view(o: Option<String>) -> Option<Seq<char>> {
    match o {
        Some(s) => Some(s@),
        None => None,
    }
}

/// Whether a product passes the listing filter: the search term, if any,
/// occurs case-insensitively in the name or the packaging description,
/// and the stock level matches the stock filter.
pub open spec fn product_matches(
    p: Product,
    search: Option<Seq<char>>,
    stock: StockFilter,
) -> bool {
    &&& match search {
        Some(q) => contains_fold(p.name@, q) || contains_fold(p.packaging_description@, q),
        None => true,
    }
    &&& match stock {
        StockFilter::All => true,
        StockFilter::InStock => p.stock_in_sale_units > 0,
        StockFilter::OutOfStock => p.stock_in_sale_units <= 0,
    }
}

/// The sort key of a product under the chosen sort field.
pub open spec fn product_key(p: Product, field: SortFieldProduct) -> KeyV {
    match field {
        SortFieldProduct::Name => KeyV::Text(p.name@),
        SortFieldProduct::Stock => KeyV::Num(p.stock_in_sale_units as int),
        SortFieldProduct::Price => KeyV::Num(p.price_per_sale_unit.val()),
        SortFieldProduct::CreatedAt => KeyV::Text(p.created_at@),
    }
}

/// The products that pass the listing filter, in store order.
pub open spec fn product_filter(
    products: Seq<Product>,
    search: Option<Seq<char>>,
    stock: StockFilter,
) -> Seq<Product> {
    products.filter(|p: Product| product_matches(p, search, stock))
}

/// The canonical page the listing returns for these parameters: ties on
/// the sort field are broken by the product identifier.
pub open spec fn product_page(products: Seq<Product>, params: ProductSearchParams) -> Seq<
    Product,
> {
    let rows = product_filter(products, opt_text_view(params.search_query), params.stock_filter);
    let keys = rows.map_values(|p: Product| product_key(p, params.sort_by));
    let ids = rows.map_values(|p: Product| p.id@);
    page_of(
        rows,
        keys,
        ids,
        params.sort_order.is_asc(),
        page_lo(rows.len() as int, params.page, params.page_size),
        page_hi(rows.len() as int, params.page, params.page_size),
    )
}

fn product_matches_exec(p: &Product, needle: &Option<Vec<char>>, stock: StockFilter) -> (r: bool)
    ensures
        r == product_matches(
            *p,
            match needle {
                Some(v) => Some(v@),
                None => None,
            },
            stock,
        ),
{
    let search_ok = match needle {
        Some(q) => {
            let name_chars = chars_of(p.name.as_str());
            if crate::text::contains_ci(&name_chars, q) {
                true
            } else {
                let pack_chars = chars_of(p.packaging_description.as_str());
                crate::text::contains_ci(&pack_chars, q)
            }
        },
        None => true,
    };
    let stock_ok = match stock {
        StockFilter::All => true,
        StockFilter::InStock => p.stock_in_sale_units > 0,
        StockFilter::OutOfStock => p.stock_in_sale_units <= 0,
    };
    search_ok && stock_ok
}

fn product_key_exec(p: &Product, field: SortFieldProduct) -> (r: SortKey)
    ensures
        r.view_key() == product_key(*p, field),
{
    match field {
        SortFieldProduct::Name => SortKey::Text(chars_of(p.name.as_str())),
        SortFieldProduct::Stock => SortKey::Num(p.stock_in_sale_units as i128),
        SortFieldProduct::Price => SortKey::Num(p.price_per_sale_unit.cents),
        SortFieldProduct::CreatedAt => SortKey::Text(chars_of(p.created_at.as_str())),
    }
}

/// The first `k` alphanumeric characters of `s`, in order.
pub open spec fn take_alnum(s: Seq<char>, k: nat) -> Seq<char>
    decreases s.len(),
{
    if k == 0 || s.len() == 0 {
        Seq::empty()
    } else if alnum_of(s[0]) {
        seq![s[0]] + take_alnum(s.drop_first(), (k - 1) as nat)
    } else {
        take_alnum(s.drop_first(), k)
    }
}

/// The first character of every whitespace-separated word of `s`.
pub open spec fn word_initials(s: Seq<char>, at_word_start: bool) -> Seq<char>
    decreases s.len(),
{
    if s.len() == 0 {
        Seq::empty()
    } else if space_of(s[0]) {
        word_initials(s.drop_first(), true)
    } else if at_word_start {
        seq![s[0]] + word_initials(s.drop_first(), false)
    } else {
        word_initials(s.drop_first(), false)
    }
}

/// The SKU assembled from a product name, a packaging description and a
/// six-character unique part.
pub open spec fn sku_of(name: Seq<char>, packaging: Seq<char>, unique: Seq<char>) -> Seq<char> {
    upper_of(take_alnum(name, 4)) + seq!['-'] + upper_of(word_initials(packaging, true))
        + seq!['-'] + unique
}

fn take_alnum_exec(s: &Vec<char>, k: usize) -> (r: Vec<char>)
    ensures
        r@ == take_alnum(s@, k as nat),
{
    let mut out: Vec<char> = Vec::new();
    let mut i: usize = 0;
    let mut left: usize = k;
    proof {
        assert(s@.skip(0) =~= s@);
        assert(out@ + take_alnum(s@, k as nat) =~= take_alnum(s@, k as nat));
    }
    while i < s.len() && left > 0
        invariant
            i <= s@.len(),
            left <= k,
            take_alnum(s@, k as nat) == out@ + take_alnum(s@.skip(i as int), left as nat),
        decreases s@.len() - i,
    {
        let c = s[i];
        proof {
            assert(s@.skip(i as int)[0] == s@[i as int]);
            assert(s@.skip(i as int).drop_first() =~= s@.skip(i + 1));
        }
        if char_is_alphanumeric(c) {
            out.push(c);
            proof {
                assert(out@ + take_alnum(s@.skip(i + 1), (left - 1) as nat) =~= out@.drop_last()
                    + (seq![c] + take_alnum(s@.skip(i + 1), (left - 1) as nat)));
            }
            left = left - 1;
        }
        i = i + 1;
    }
    proof {
        if left == 0 || i == s@.len() {
            assert(take_alnum(s@.skip(i as int), left as nat) =~= Seq::<char>::empty());
        }
        assert(out@ =~= take_alnum(s@, k as nat));
    }
    out
}

fn word_initials_exec(s: &Vec<char>) -> (r: Vec<char>)
    ensures
        r@ == word_initials(s@, true),
{
    let mut out: Vec<char> = Vec::new();
    let mut i: usize = 0;
    let mut at_start: bool = true;
    proof {
        assert(s@.skip(0) =~= s@);
        assert(out@ + word_initials(s@, true) =~= word_initials(s@, true));
    }
    while i < s.len()
        invariant
            i <= s@.len(),
            word_initials(s@, true) == out@ + word_initials(s@.skip(i as int), at_start),
        decreases s@.len() - i,
    {
        let c = s[i];
        proof {
            assert(s@.skip(i as int)[0] == s@[i as int]);
            assert(s@.skip(i as int).drop_first() =~= s@.skip(i + 1));
        }
        if char_is_whitespace(c) {
            at_start = true;
        } else {
            if at_start {
                out.push(c);
                proof {
                    assert(out@ + word_initials(s@.skip(i + 1), false) =~= out@.drop_last() + (
                    seq![c] + word_initials(s@.skip(i + 1), false)));
                }
            }
            at_start = false;
        }
        i = i + 1;
    }
    proof {
        assert(word_initials(s@.skip(i as int), at_start) =~= Seq::<char>::empty());
        assert(out@ =~= word_initials(s@, true));
    }
    out
}

/// Builds the SKU for the given name and packaging around a fixed
/// six-character unique part.
pub fn sku_with_unique(product_name: &str, packaging: &str, unique: &str) -> (r: String)
    requires
        unique@.len() == 6,
    ensures
        r@ == sku_of(product_name@, packaging@, unique@),
{
    let name_chars = crate::text::chars_of(product_name);
    let pack_chars = crate::text::chars_of(packaging);
    let name_part = string_from_chars(&take_alnum_exec(&name_chars, 4));
    let pack_part = string_from_chars(&word_initials_exec(&pack_chars));
    let name_up = to_uppercase_string(name_part.as_str());
    let pack_up = to_uppercase_string(pack_part.as_str());
    proof {
        reveal_strlit("-");
    }
    let r = name_up.concat("-").concat(pack_up.as_str()).concat("-").concat(unique);
    proof {
        assert("-"@ =~= seq!['-']);
        assert(r@ =~= sku_of(product_name@, packaging@, unique@));
    }
    r
}

/// Generates a standardized SKU: four alphanumerics of the name and the
/// packaging word initials, upper-cased, plus a random six-character
/// unique part.
pub fn generate_sku(product_name: &str, packaging: &str) -> (r: String)
    ensures
        exists|u: Seq<char>|
            u.len() == 6 && r@ == sku_of(product_name@, packaging@, u),
{
    let uuid = new_uuid_string();
    let unique = uuid.as_str().substring_char(0, 6);
    let r = sku_with_unique(product_name, packaging, unique);
    proof {
        let u = unique@;
        assert(u.len() == 6 && r@ == sku_of(product_name@, packaging@, u));
    }
    r
}

impl Store {
    /// Inserts a product under a caller-chosen identifier.  Fails
    /// `ValidationError` when the price is not positive or the stock is
    /// negative, and `Conflict` when the identifier is already taken;
    /// nothing changes on failure.
    pub fn create_product_with_id(
        &mut self,
        product_id: String,
        p_name: String,
        p_packaging: String,
        p_stock: i32,
        p_price: Money,
        p_sku: Option<String>,
        now: &str,
    ) -> (r: AppResult<Product>)
        requires
            old(self).wf(),
        ensures
            final(self).wf(),
            final(self).sales == old(self).sales,
            final(self).sale_items == old(self).sale_items,
            final(self).users == old(self).users,
            final(self).sale_seq == old(self).sale_seq,
            match r {
                Ok(p) => {
                    &&& p_price.val() > 0
                    &&& p_stock >= 0
                    &&& !has_product_id(old(self).products@, product_id@)
                    &&& final(self).products@ == old(self).products@.push(p)
                    &&& p.id@ == product_id@
                    &&& p.name@ == p_name@
                    &&& p.packaging_description@ == p_packaging@
                    &&& p.sku == p_sku
                    &&& p.stock_in_sale_units == p_stock
                    &&& p.price_per_sale_unit == p_price
                    &&& p.created_at@ == now@
                    &&& p.updated_at@ == now@
                },
                Err(AppError::ValidationError(_)) => {
                    &&& (p_price.val() <= 0 || p_stock < 0)
                    &&& *final(self) == *old(self)
                },
                Err(AppError::Conflict(_)) => {
                    &&& p_price.val() > 0
                    &&& p_stock >= 0
                    &&& has_product_id(old(self).products@, product_id@)
                    &&& *final(self) == *old(self)
                },
                _ => false,
            },
            // each outcome is forced by its condition
            (p_price.val() <= 0 || p_stock < 0) ==> (r matches Err(AppError::ValidationError(_))),
            (p_price.val() > 0 && p_stock >= 0 && has_product_id(
                old(self).products@,
                product_id@,
            )) ==> (r matches Err(AppError::Conflict(_))),
            (p_price.val() > 0 && p_stock >= 0 && !has_product_id(
                old(self).products@,
                product_id@,
            )) ==> r is Ok,
    {
        if !p_price.is_positive() {
            return Err(AppError::ValidationError("price must be positive".to_owned()));
        }
        if p_stock < 0 {
            return Err(AppError::ValidationError("stock must not be negative".to_owned()));
        }
        if self.find_product(product_id.as_str()).is_some() {
            return Err(AppError::Conflict("product id already taken".to_owned()));
        }
        let product = Product {
            id: product_id,
            name: p_name,
            packaging_description: p_packaging,
            sku: p_sku,
            stock_in_sale_units: p_stock,
            price_per_sale_unit: p_price,
            created_at: now.to_owned(),
            updated_at: now.to_owned(),
        };
        let result = product.clone();
        let ghost old_products = self.products@;
        self.products.push(product);
        proof {
            assert(product_ids(self.products@) =~= product_ids(old_products).push(
                self.products@.last().id@,
            ));
            assert forall|w: int| 0 <= w < self.sale_items@.len() implies has_product_id(
                self.products@,
                (#[trigger] self.sale_items@[w]).product_id@,
            ) by {
                let pid = self.sale_items@[w].product_id@;
                let j = choose|j: int|
                    0 <= j < old_products.len() && (#[trigger] old_products[j]).id@ == pid;
                assert(self.products@[j].id@ == pid);
            }
        }
        Ok(result)
    }

    /// Creates a new product: generates an identifier and an SKU, then
    /// inserts.  Fails `ValidationError` exactly when the price is not
    /// positive or the stock is negative.
    pub fn create_product(
        &mut self,
        p_name: String,
        p_packaging: String,
        p_stock: i32,
        p_price: Money,
        now: &str,
    ) -> (r: AppResult<Product>)
        requires
            old(self).wf(),
        ensures
            final(self).wf(),
            final(self).sales == old(self).sales,
            final(self).sale_items == old(self).sale_items,
            final(self).users == old(self).users,
            final(self).sale_seq == old(self).sale_seq,
            match r {
                Ok(p) => {
                    &&& p_price.val() > 0
                    &&& p_stock >= 0
                    &&& final(self).products@ == old(self).products@.push(p)
                    &&& !has_product_id(old(self).products@, p.id@)
                    &&& p.name@ == p_name@
                    &&& p.packaging_description@ == p_packaging@
                    &&& p.sku is Some
                    &&& p.stock_in_sale_units == p_stock
                    &&& p.price_per_sale_unit == p_price
                    &&& p.created_at@ == now@
                    &&& p.updated_at@ == now@
                },
                Err(AppError::ValidationError(_)) => {
                    &&& (p_price.val() <= 0 || p_stock < 0)
                    &&& *final(self) == *old(self)
                },
                Err(AppError::Conflict(_)) => {
                    &&& p_price.val() > 0
                    &&& p_stock >= 0
                    &&& *final(self) == *old(self)
                },
                _ => false,
            },
            // invalid input is rejected, never anything else
            (p_price.val() <= 0 || p_stock < 0) ==> (r matches Err(AppError::ValidationError(_))),
    {
        if !p_price.is_positive() {
            return Err(AppError::ValidationError("price must be positive".to_owned()));
        }
        if p_stock < 0 {
            return Err(AppError::ValidationError("stock must not be negative".to_owned()));
        }
        let product_id = new_uuid_string();
        let sku = generate_sku(p_name.as_str(), p_packaging.as_str());
        self.create_product_with_id(product_id, p_name, p_packaging, p_stock, p_price, Some(sku), now)
    }

    /// Replaces a product's caller-editable fields, regenerating its SKU
    /// and stamping the update time.  Snapshots inside committed sale
    /// items are untouched.
    pub fn update_product(
        &mut self,
        product_id: &str,
        new_name: String,
        new_packaging: String,
        new_stock: i32,
        new_price: Money,
        now: &str,
    ) -> (r: AppResult<Product>)
        requires
            old(self).wf(),
        ensures
            final(self).wf(),
            final(self).sales == old(self).sales,
            final(self).sale_items == old(self).sale_items,
            final(self).users == old(self).users,
            final(self).sale_seq == old(self).sale_seq,
            match r {
                Ok(p) => {
                    &&& new_price.val() > 0
                    &&& new_stock >= 0
                    &&& has_product_id(old(self).products@, product_id@)
                    &&& {
                        let i = product_idx(old(self).products@, product_id@);
                        &&& final(self).products@ == old(self).products@.update(i, p)
                        &&& p.created_at == old(self).products@[i].created_at
                    }
                    &&& p.id@ == product_id@
                    &&& p.name@ == new_name@
                    &&& p.packaging_description@ == new_packaging@
                    &&& p.sku is Some
                    &&& p.stock_in_sale_units == new_stock
                    &&& p.price_per_sale_unit == new_price
                    &&& p.updated_at@ == now@
                },
                Err(AppError::ValidationError(_)) => {
                    &&& (new_price.val() <= 0 || new_stock < 0)
                    &&& *final(self) == *old(self)
                },
                Err(AppError::NotFound(_)) => {
                    &&& new_price.val() > 0
                    &&& new_stock >= 0
                    &&& !has_product_id(old(self).products@, product_id@)
                    &&& *final(self) == *old(self)
                },
                _ => false,
            },
    {
        if !new_price.is_positive() {
            return Err(AppError::ValidationError("price must be positive".to_owned()));
        }
        if new_stock < 0 {
            return Err(AppError::ValidationError("stock must not be negative".to_owned()));
        }
        let found = self.find_product(product_id);
        match found {
            None => Err(AppError::NotFound("no product with this id".to_owned())),
            Some(i) => {
                let sku = generate_sku(new_name.as_str(), new_packaging.as_str());
                let created_at = self.products[i].created_at.clone();
                let product = Product {
                    id: product_id.to_owned(),
                    name: new_name,
                    packaging_description: new_packaging,
                    sku: Some(sku),
                    stock_in_sale_units: new_stock,
                    price_per_sale_unit: new_price,
                    created_at,
                    updated_at: now.to_owned(),
                };
                let result = product.clone();
                let ghost old_products = self.products@;
                self.products.set(i, product);
                proof {
                    crate::store::lemma_product_idx_unique(old_products, product_id@, i as int);
                    assert(product_ids(self.products@) =~= product_ids(old_products));
                    assert forall|w: int| 0 <= w < self.sale_items@.len() implies has_product_id(
                        self.products@,
                        (#[trigger] self.sale_items@[w]).product_id@,
                    ) by {
                        crate::store::lemma_has_product_same_ids(
                            old_products,
                            self.products@,
                            self.sale_items@[w].product_id@,
                        );
                    }
                }
                Ok(result)
            },
        }
    }

    /// Looks a product up by its identifier.
    pub fn get_product_by_id(&self, product_id: &str) -> (r: AppResult<Product>)
        requires
            self.wf(),
        ensures
            match r {
                Ok(p) => has_product_id(self.products@, product_id@) && p == self.products@[
                    product_idx(self.products@, product_id@)
                ] && p.id@ == product_id@,
                Err(AppError::NotFound(_)) => !has_product_id(self.products@, product_id@),
                _ => false,
            },
    {
        match self.find_product(product_id) {
            Some(i) => {
                let p = self.products[i].clone();
                proof {
                    crate::store::lemma_product_idx_unique(self.products@, product_id@, i as int);
                }
                Ok(p)
            },
            None => Err(AppError::NotFound("no product with this id".to_owned())),
        }
    }

    /// Looks a product up by its identifier (detail view).
    pub fn get_product_details(&self, product_id: &str) -> (r: AppResult<Product>)
        requires
            self.wf(),
        ensures
            match r {
                Ok(p) => has_product_id(self.products@, product_id@) && p == self.products@[
                    product_idx(self.products@, product_id@)
                ],
                Err(AppError::NotFound(_)) => !has_product_id(self.products@, product_id@),
                _ => false,
            },
    {
        self.get_product_by_id(product_id)
    }

    /// Whether the product can be deleted: true exactly when no sale
    /// item references it.
    pub fn can_delete_product(&self, p_id: &str) -> (r: AppResult<bool>)
        ensures
            r matches Ok(b) && b == !product_referenced(self.sale_items@, p_id@),
    {
        let mut i: usize = 0;
        while i < self.sale_items.len()
            invariant
                i <= self.sale_items@.len(),
                forall|j: int|
                    0 <= j < i ==> (#[trigger] self.sale_items@[j]).product_id@ != p_id@,
            decreases self.sale_items@.len() - i,
        {
            if crate::text::str_eq(self.sale_items[i].product_id.as_str(), p_id) {
                return Ok(false);
            }
            i = i + 1;
        }
        Ok(true)
    }

    /// Deletes a product.  Fails `Conflict` while any sale item
    /// references it; returns how many rows were removed (one when the
    /// product existed, zero otherwise).
    pub fn delete_product(&mut self, product_id: &str) -> (r: AppResult<usize>)
        requires
            old(self).wf(),
        ensures
            final(self).wf(),
            final(self).sales == old(self).sales,
            final(self).sale_items == old(self).sale_items,
            final(self).users == old(self).users,
            final(self).sale_seq == old(self).sale_seq,
            match r {
                Ok(n) => {
                    &&& !product_referenced(old(self).sale_items@, product_id@)
                    &&& if has_product_id(old(self).products@, product_id@) {
                        n == 1 && final(self).products@ == old(self).products@.remove(
                            product_idx(old(self).products@, product_id@),
                        )
                    } else {
                        n == 0 && *final(self) == *old(self)
                    }
                },
                Err(AppError::Conflict(_)) => {
                    &&& product_referenced(old(self).sale_items@, product_id@)
                    &&& *final(self) == *old(self)
                },
                _ => false,
            },
    {
        let deletable = match self.can_delete_product(product_id) {
            Ok(b) => b,
            Err(e) => {
                return Err(e);
            },
        };
        if !deletable {
            return Err(AppError::Conflict("product is referenced by sale items".to_owned()));
        }
        match self.find_product(product_id) {
            None => Ok(0),
            Some(i) => {
                let ghost old_products = self.products@;
                self.products.remove(i);
                proof {
                    crate::store::lemma_product_idx_unique(old_products, product_id@, i as int);
                    assert(product_ids(self.products@) =~= product_ids(old_products).remove(
                        i as int,
                    ));
                    crate::store::lemma_distinct_remove(product_ids(old_products), i as int);
                    assert forall|w: int| 0 <= w < self.sale_items@.len() implies has_product_id(
                        self.products@,
                        (#[trigger] self.sale_items@[w]).product_id@,
                    ) by {
                        let pid = self.sale_items@[w].product_id@;
                        let j = choose|j: int|
                            0 <= j < old_products.len() && (#[trigger] old_products[j]).id@
                                == pid;
                        assert(old_products[j].id@ != product_id@);
                        if j < i {
                            assert(self.products@[j].id@ == pid);
                        } else {
                            assert(self.products@[j - 1].id@ == pid);
                        }
                    }
                }
                Ok(1)
            },
        }
    }

    /// The atomic conditional stock decrement: subtracts `quantity` only
    /// if the current stock covers it, in one indivisible step against
    /// the store, and returns the updated product.  Fails
    /// `InsufficientStock` (leaving everything unchanged) otherwise.
    pub fn decrement_stock(&mut self, product_id: &str, quantity: i32) -> (r: AppResult<Product>)
        requires
            old(self).wf(),
        ensures
            final(self).wf(),
            final(self).sales == old(self).sales,
            final(self).sale_items == old(self).sale_items,
            final(self).users == old(self).users,
            final(self).sale_seq == old(self).sale_seq,
            match r {
                Ok(p) => {
                    &&& quantity >= 0
                    &&& has_product_id(old(self).products@, product_id@)
                    &&& {
                        let i = product_idx(old(self).products@, product_id@);
                        let prev = old(self).products@[i];
                        &&& prev.stock_in_sale_units >= quantity
                        &&& final(self).products@ == old(self).products@.update(i, p)
                        &&& p == Product {
                            stock_in_sale_units: (prev.stock_in_sale_units - quantity) as i32,
                            ..prev
                        }
                    }
                },
                Err(AppError::ValidationError(_)) => {
                    &&& quantity < 0
                    &&& *final(self) == *old(self)
                },
                Err(AppError::NotFound(_)) => {
                    &&& quantity >= 0
                    &&& !has_product_id(old(self).products@, product_id@)
                    &&& *final(self) == *old(self)
                },
                Err(AppError::InsufficientStock { product_name, requested, available }) => {
                    &&& quantity >= 0
                    &&& has_product_id(old(self).products@, product_id@)
                    &&& {
                        let prev = old(self).products@[
                            product_idx(old(self).products@, product_id@)
                        ];
                        &&& prev.stock_in_sale_units < quantity
                        &&& product_name@ == prev.name@
                        &&& requested == quantity
                        &&& available == prev.stock_in_sale_units
                    }
                    &&& *final(self) == *old(self)
                },
                _ => false,
            },
    {
        if quantity < 0 {
            return Err(AppError::ValidationError("quantity must not be negative".to_owned()));
        }
        let found = self.find_product(product_id);
        match found {
            None => Err(AppError::NotFound("no product with this id".to_owned())),
            Some(i) => {
                proof {
                    crate::store::lemma_product_idx_unique(self.products@, product_id@, i as int);
                }
                let prev = &self.products[i];
                if prev.stock_in_sale_units < quantity {
                    return Err(AppError::InsufficientStock {
                        product_name: prev.name.clone(),
                        requested: quantity,
                        available: prev.stock_in_sale_units,
                    });
                }
                let updated = Product {
                    stock_in_sale_units: prev.stock_in_sale_units - quantity,
                    ..prev.clone()
                };
                let result = updated.clone();
                let ghost old_products = self.products@;
                self.products.set(i, updated);
                proof {
                    assert(product_ids(self.products@) =~= product_ids(old_products));
                    assert forall|w: int| 0 <= w < self.sale_items@.len() implies has_product_id(
                        self.products@,
                        (#[trigger] self.sale_items@[w]).product_id@,
                    ) by {
                        crate::store::lemma_has_product_same_ids(
                            old_products,
                            self.products@,
                            self.sale_items@[w].product_id@,
                        );
                    }
                }
                Ok(result)
            },
        }
    }

    /// Overwrites a product's stock count and stamps the update time.
    /// A negative count is rejected; an unknown identifier changes
    /// nothing, as an update of zero rows.
    pub fn update_product_stock(&mut self, product_id: &str, new_stock: i32, now: &str) -> (r:
        AppResult<()>)
        requires
            old(self).wf(),
        ensures
            final(self).wf(),
            final(self).sales == old(self).sales,
            final(self).sale_items == old(self).sale_items,
            final(self).users == old(self).users,
            final(self).sale_seq == old(self).sale_seq,
            match r {
                Ok(_) => {
                    &&& new_stock >= 0
                    &&& if has_product_id(old(self).products@, product_id@) {
                        let i = product_idx(old(self).products@, product_id@);
                        final(self).products@ == old(self).products@.update(
                            i,
                            Product {
                                stock_in_sale_units: new_stock,
                                updated_at: final(self).products@[i].updated_at,
                                ..old(self).products@[i]
                            },
                        ) && final(self).products@[i].updated_at@ == now@
                    } else {
                        *final(self) == *old(self)
                    }
                },
                Err(AppError::ValidationError(_)) => new_stock < 0 && *final(self) == *old(self),
                _ => false,
            },
    {
        if new_stock < 0 {
            return Err(AppError::ValidationError("stock must not be negative".to_owned()));
        }
        let found = self.find_product(product_id);
        match found {
            None => Ok(()),
            Some(i) => {
                proof {
                    crate::store::lemma_product_idx_unique(self.products@, product_id@, i as int);
                }
                let updated = Product {
                    stock_in_sale_units: new_stock,
                    updated_at: now.to_owned(),
                    ..self.products[i].clone()
                };
                let ghost old_products = self.products@;
                self.products.set(i, updated);
                proof {
                    assert(product_ids(self.products@) =~= product_ids(old_products));
                    assert forall|w: int| 0 <= w < self.sale_items@.len() implies has_product_id(
                        self.products@,
                        (#[trigger] self.sale_items@[w]).product_id@,
                    ) by {
                        crate::store::lemma_has_product_same_ids(
                            old_products,
                            self.products@,
                            self.sale_items@[w].product_id@,
                        );
                    }
                }
                Ok(())
            },
        }
    }

    /// Decreases a product's stock for a sale, stamping the update time.
    /// Fails `InsufficientStock` when the stock does not cover the
    /// quantity, and changes nothing then.
    pub fn decrease_product_stock(&mut self, product_id: &str, quantity: i32, now: &str) -> (r:
        AppResult<()>)
        requires
            old(self).wf(),
        ensures
            final(self).wf(),
            final(self).sales == old(self).sales,
            final(self).sale_items == old(self).sale_items,
            final(self).users == old(self).users,
            final(self).sale_seq == old(self).sale_seq,
            match r {
                Ok(_) => {
                    &&& quantity >= 0
                    &&& has_product_id(old(self).products@, product_id@)
                    &&& {
                        let i = product_idx(old(self).products@, product_id@);
                        let prev = old(self).products@[i];
                        &&& prev.stock_in_sale_units >= quantity
                        &&& final(self).products@ == old(self).products@.update(
                            i,
                            Product {
                                stock_in_sale_units: (prev.stock_in_sale_units - quantity) as i32,
                                updated_at: final(self).products@[i].updated_at,
                                ..prev
                            },
                        )
                        &&& final(self).products@[i].updated_at@ == now@
                    }
                },
                Err(AppError::ValidationError(_)) => quantity < 0 && *final(self) == *old(self),
                Err(AppError::NotFound(_)) => quantity >= 0 && !has_product_id(
                    old(self).products@,
                    product_id@,
                ) && *final(self) == *old(self),
                Err(AppError::InsufficientStock { .. }) => {
                    &&& quantity >= 0
                    &&& has_product_id(old(self).products@, product_id@)
                    &&& old(self).products@[
                        product_idx(old(self).products@, product_id@)
                    ].stock_in_sale_units < quantity
                    &&& *final(self) == *old(self)
                },
                _ => false,
            },
    {
        if quantity < 0 {
            return Err(AppError::ValidationError("quantity must not be negative".to_owned()));
        }
        let found = self.find_product(product_id);
        match found {
            None => Err(AppError::NotFound("no product with this id".to_owned())),
            Some(i) => {
                proof {
                    crate::store::lemma_product_idx_unique(self.products@, product_id@, i as int);
                }
                let prev = &self.products[i];
                if prev.stock_in_sale_units < quantity {
                    return Err(AppError::InsufficientStock {
                        product_name: prev.name.clone(),
                        requested: quantity,
                        available: prev.stock_in_sale_units,
                    });
                }
                let updated = Product {
                    stock_in_sale_units: prev.stock_in_sale_units - quantity,
                    updated_at: now.to_owned(),
                    ..prev.clone()
                };
                let ghost old_products = self.products@;
                self.products.set(i, updated);
                proof {
                    assert(product_ids(self.products@) =~= product_ids(old_products));
                    assert forall|w: int| 0 <= w < self.sale_items@.len() implies has_product_id(
                        self.products@,
                        (#[trigger] self.sale_items@[w]).product_id@,
                    ) by {
                        crate::store::lemma_has_product_same_ids(
                            old_products,
                            self.products@,
                            self.sale_items@[w].product_id@,
                        );
                    }
                }
                Ok(())
            },
        }
    }

    /// The filtered, sorted, paginated product listing.  The page, the
    /// counts and the order are exactly those of [`product_page`]: the
    /// filter drives both the rows and `total_count`, ties are broken by
    /// the product identifier, and a page past the end is empty, not an
    /// error.
    pub fn get_products_paginated(&self, params: ProductSearchParams) -> (r: AppResult<
        PaginatedProducts,
    >)
        requires
            self.products@.len() + crate::query::MAX_PAGE_SIZE <= i64::MAX,
        ensures
            match r {
                Ok(res) => {
                    let rows = product_filter(
                        self.products@,
                        opt_text_view(params.search_query),
                        params.stock_filter,
                    );
                    &&& res.products@ == product_page(self.products@, params)
                    &&& res.total_count == rows.len()
                    &&& res.page as int == clamped_page(params.page)
                    &&& res.page_size as int == clamped_size(params.page_size)
                    &&& res.total_pages as int == pages_needed(
                        rows.len() as int,
                        clamped_size(params.page_size),
                    )
                },
                Err(_) => false,
            },
    {
        let ghost search = opt_text_view(params.search_query);
        let needle: Option<Vec<char>> = match &params.search_query {
            Some(s) => Some(chars_of(s.as_str())),
            None => None,
        };
        let ghost pred = |p: Product| product_matches(p, search, params.stock_filter);

        // filter
        let mut rows: Vec<Product> = Vec::new();
        let mut i: usize = 0;
        proof {
            assert(self.products@.subrange(0, 0).filter(pred) =~= Seq::<Product>::empty());
        }
        while i < self.products.len()
            invariant
                i <= self.products@.len(),
                search == opt_text_view(params.search_query),
                pred == (|p: Product| product_matches(p, search, params.stock_filter)),
                (match needle {
                    Some(v) => search == Some(v@),
                    None => search is None,
                }),
                rows@ == self.products@.subrange(0, i as int).filter(pred),
            decreases self.products@.len() - i,
        {
            let ghost prefix = self.products@.subrange(0, i as int);
            let p = &self.products[i];
            proof {
                prefix.lemma_filter_push(self.products@[i as int], pred);
                assert(self.products@.subrange(0, i + 1) =~= prefix.push(
                    self.products@[i as int],
                ));
            }
            if product_matches_exec(p, &needle, params.stock_filter) {
                rows.push(p.clone());
            }
            proof {
                assert(rows@ =~= self.products@.subrange(0, i + 1).filter(pred));
            }
            i = i + 1;
        }
        proof {
            assert(self.products@.subrange(0, self.products@.len() as int) =~= self.products@);
            self.products@.lemma_filter_len(pred);
        }

        let total = rows.len();
        let (lo, hi, page_c, size_c, pages) = page_bounds(total, params.page, params.page_size);

        // extract the sort keys and the identifier tie-break keys
        let mut keys: Vec<SortKey> = Vec::new();
        let mut idv: Vec<Vec<char>> = Vec::new();
        let mut j: usize = 0;
        while j < rows.len()
            invariant
                j <= rows@.len(),
                keys@.len() == j,
                idv@.len() == j,
                forall|q: int|
                    0 <= q < j ==> (#[trigger] keys@[q]).view_key() == product_key(
                        rows@[q],
                        params.sort_by,
                    ),
                forall|q: int| 0 <= q < j ==> (#[trigger] idv@[q])@ == rows@[q].id@,
            decreases rows@.len() - j,
        {
            keys.push(product_key_exec(&rows[j], params.sort_by));
            idv.push(chars_of(rows[j].id.as_str()));
            j = j + 1;
        }
        proof {
            assert(key_views(keys@) =~= rows@.map_values(
                |p: Product| product_key(p, params.sort_by),
            ));
            assert(ids_views(idv@) =~= rows@.map_values(|p: Product| p.id@));
        }

        let order = sort_positions(&keys, &idv, params.sort_order.ascending());
        let items = select_page(&rows, &order, lo, hi);
        proof {
            let target = order@.subrange(lo as int, hi as int).map_values(
                |q: usize| rows@[q as int],
            );
            assert forall|q: int| 0 <= q < items@.len() implies items@[q] == target[q] by {
                assert(vstd::pervasive::cloned::<Product>(target[q], items@[q]));
            }
            assert(items@ =~= target);
            assert(items@ =~= product_page(self.products@, params));
        }
        Ok(
            PaginatedProducts {
                products: items,
                total_count: total as i64,
                page: page_c,
                page_size: size_c,
                total_pages: pages,
            },
        )
    }

    /// All products with stock on hand, sorted by name ascending.
    pub fn get_available_products(&self) -> (r: AppResult<Vec<Product>>)
        ensures
            match r {
                Ok(items) => {
                    let rows = product_filter(self.products@, None, StockFilter::InStock);
                    items@ == page_of(
                        rows,
                        rows.map_values(|p: Product| product_key(p, SortFieldProduct::Name)),
                        rows.map_values(|p: Product| p.id@),
                        true,
                        0,
                        rows.len() as int,
                    )
                },
                Err(_) => false,
            },
    {
        let ghost pred = |p: Product| product_matches(p, None, StockFilter::InStock);
        let mut rows: Vec<Product> = Vec::new();
        let mut i: usize = 0;
        proof {
            assert(self.products@.subrange(0, 0).filter(pred) =~= Seq::<Product>::empty());
        }
        while i < self.products.len()
            invariant
                i <= self.products@.len(),
                pred == (|p: Product| product_matches(p, None, StockFilter::InStock)),
                rows@ == self.products@.subrange(0, i as int).filter(pred),
            decreases self.products@.len() - i,
        {
            let ghost prefix = self.products@.subrange(0, i as int);
            let p = &self.products[i];
            proof {
                prefix.lemma_filter_push(self.products@[i as int], pred);
                assert(self.products@.subrange(0, i + 1) =~= prefix.push(
                    self.products@[i as int],
                ));
            }
            if p.stock_in_sale_units > 0 {
                rows.push(p.clone());
            }
            proof {
                assert(rows@ =~= self.products@.subrange(0, i + 1).filter(pred));
            }
            i = i + 1;
        }
        proof {
            assert(self.products@.subrange(0, self.products@.len() as int) =~= self.products@);
        }

        let mut keys: Vec<SortKey> = Vec::new();
        let mut idv: Vec<Vec<char>> = Vec::new();
        let mut j: usize = 0;
        while j < rows.len()
            invariant
                j <= rows@.len(),
                keys@.len() == j,
                idv@.len() == j,
                forall|q: int|
                    0 <= q < j ==> (#[trigger] keys@[q]).view_key() == product_key(
                        rows@[q],
                        SortFieldProduct::Name,
                    ),
                forall|q: int| 0 <= q < j ==> (#[trigger] idv@[q])@ == rows@[q].id@,
            decreases rows@.len() - j,
        {
            keys.push(product_key_exec(&rows[j], SortFieldProduct::Name));
            idv.push(chars_of(rows[j].id.as_str()));
            j = j + 1;
        }
        proof {
            assert(key_views(keys@) =~= rows@.map_values(
                |p: Product| product_key(p, SortFieldProduct::Name),
            ));
            assert(ids_views(idv@) =~= rows@.map_values(|p: Product| p.id@));
        }

        let order = sort_positions(&keys, &idv, true);
        let n = rows.len();
        let items = select_page(&rows, &order, 0, n);
        proof {
            let rowsg = product_filter(self.products@, None, StockFilter::InStock);
            let target = order@.subrange(0, n as int).map_values(|q: usize| rows@[q as int]);
            assert forall|q: int| 0 <= q < items@.len() implies items@[q] == target[q] by {
                assert(vstd::pervasive::cloned::<Product>(target[q], items@[q]));
            }
            assert(items@ =~= target);
            assert(items@ =~= page_of(
                rowsg,
                rowsg.map_values(|p: Product| product_key(p, SortFieldProduct::Name)),
                rowsg.map_values(|p: Product| p.id@),
                true,
                0,
                rowsg.len() as int,
            ));
        }
        Ok(items)
    }
}

impl ProductSearchParams {
    /// The default listing: everything, by name ascending, first page of ten.
    pub fn new() -> (r: Self)
        ensures
            r.search_query is None,
            r.stock_filter == StockFilter::All,
            r.sort_by == SortFieldProduct::Name,
            r.sort_order == SortOrder::Asc,
            r.page == 1,
            r.page_size == 10,
    {
        ProductSearchParams {
            search_query: None,
            stock_filter: StockFilter::All,
            sort_by: SortFieldProduct::Name,
            sort_order: SortOrder::Asc,
            page: 1,
            page_size: 10,
        }
    }

    /// Sets the search term; a term of only whitespace counts as none.
    pub fn with_search(self, query: Option<String>) -> (r: Self)
        ensures
            r.stock_filter == self.stock_filter,
            r.sort_by == self.sort_by,
            r.sort_order == self.sort_order,
            r.page == self.page,
            r.page_size == self.page_size,
            match query {
                None => r.search_query is None,
                Some(q) => if exists|k: int| 0 <= k < q@.len() && !space_of(#[trigger] q@[k]) {
                    r.search_query == Some(q)
                } else {
                    r.search_query is None
                },
            },
    {
        let search_query = match query {
            None => None,
            Some(q) => {
                let cs = chars_of(q.as_str());
                if crate::text::any_non_space(&cs) {
                    Some(q)
                } else {
                    None
                }
            },
        };
        ProductSearchParams { search_query, ..self }
    }

    /// Sets the stock filter.
    pub fn with_stock_filter(self, filter: StockFilter) -> (r: Self)
        ensures
            r == (ProductSearchParams { stock_filter: filter, ..self }),
    {
        ProductSearchParams { stock_filter: filter, ..self }
    }

    /// Sets the sort field and direction.
    pub fn with_sort(self, field: SortFieldProduct, order: SortOrder) -> (r: Self)
        ensures
            r == (ProductSearchParams { sort_by: field, sort_order: order, ..self }),
    {
        ProductSearchParams { sort_by: field, sort_order: order, ..self }
    }

    /// Sets the page and page size, clamped to at least page one and a
    /// size between one and one hundred.
    pub fn with_pagination(self, page: i64, page_size: i64) -> (r: Self)
        ensures
            r.search_query == self.search_query,
            r.stock_filter == self.stock_filter,
            r.sort_by == self.sort_by,
            r.sort_order == self.sort_order,
            r.page as int == clamped_page(page),
            r.page_size as int == clamped_size(page_size),
    {
        let p: i64 = if page < 1 {
            1
        } else {
            page
        };
        let s: i64 = if page_size < 1 {
            1
        } else if page_size > crate::query::MAX_PAGE_SIZE {
            crate::query::MAX_PAGE_SIZE
        } else {
            page_size
        };
        ProductSearchParams { page: p, page_size: s, ..self }
    }
}

impl Default for ProductSearchParams {
    /// Same as [`ProductSearchParams::new`].
    fn default() -> (r: Self)
        ensures
            r.search_query is None,
            r.stock_filter == StockFilter::All,
            r.sort_by == SortFieldProduct::Name,
            r.sort_order == SortOrder::Asc,
            r.page == 1,
            r.page_size == 10,
    {
        ProductSearchParams::new()
    }
}


/// The product screen's current filters and page.
#[derive(Debug)]
pub struct ProductsState {
    pub search_query: String,
    pub stock_filter: StockFilter,
    pub sort_by: SortFieldProduct,
    pub sort_order: SortOrder,
    pub current_page: i64,
    pub page_size: i64,
}

impl Default for ProductsState {
    /// Everything, by name ascending, first page of five.
    fn default() -> (r: Self)
        ensures
            r.search_query@.len() == 0,
            r.stock_filter == StockFilter::All,
            r.sort_by == SortFieldProduct::Name,
            r.sort_order == SortOrder::Asc,
            r.current_page == 1,
            r.page_size == 5,
    {
        ProductsState {
            search_query: String::new(),
            stock_filter: StockFilter::All,
            sort_by: SortFieldProduct::Name,
            sort_order: SortOrder::Asc,
            current_page: 1,
            page_size: 5,
        }
    }
}

} // verus!
