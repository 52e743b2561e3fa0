//! Generic filter / sort / pagination engine.
//!
//! Every listing in the data layer follows the same shape: filter the rows,
//! sort them by one field with the row's identifier as the secondary key,
//! and return one page together with count metadata.  The engine works on
//! extracted sort keys, so one verified sorting routine serves products,
//! sales and users.
//!
//! The canonical result is fixed at the specification level by
//! [`rank_of`]: the unique permutation of row positions that is sorted by
//! the key order.  Because ties between keys are broken by the identifier,
//! two queries over the same rows always produce identical pages, and
//! pages never overlap and never skip a row.

use vstd::prelude::*;
use vstd::multiset::Multiset;
use vstd::relations::{sorted_by, total_ordering};
use vstd::seq_lib::lemma_sorted_unique;

use crate::text::{lex_lt, lex_lt_exec, lemma_lex_lt_asymmetric, lemma_lex_lt_connected,
    lemma_lex_lt_transitive};

verus! {

/// An extracted sort key: a text field or a numeric field.
pub enum SortKey {
    Text(Vec<char>),
    Num(i128),
}

/// The mathematical value of a sort key.
pub ghost enum KeyV {
    Text(Seq<char>),
    Num(int),
}

impl SortKey {
    pub open spec fn view_key(self) -> KeyV {
        match self {
            SortKey::Text(s) => KeyV::Text(s@),
            SortKey::Num(n) => KeyV::Num(n as int),
        }
    }
}

/// The key sequence a key vector stands for.
pub open spec fn key_views(keys: Seq<SortKey>) -> Seq<KeyV> {
    keys.map_values(|k: SortKey| k.view_key())
}

/// Strict order on key values: numbers before text, numbers by value,
/// text lexicographically.
pub open spec fn key_lt(x: KeyV, y: KeyV) -> bool {
    match (x, y) {
        (KeyV::Num(a), KeyV::Num(b)) => a < b,
        (KeyV::Num(_), KeyV::Text(_)) => true,
        (KeyV::Text(_), KeyV::Num(_)) => false,
        (KeyV::Text(a), KeyV::Text(b)) => lex_lt(a, b),
    }
}

pub proof fn lemma_key_lt_asymmetric(x: KeyV, y: KeyV)
    ensures
        !(key_lt(x, y) && key_lt(y, x)),
{
    if (x is Text) && (y is Text) {
        lemma_lex_lt_asymmetric(x->Text_0, y->Text_0);
    }
}

pub proof fn lemma_key_lt_connected(x: KeyV, y: KeyV)
    requires
        !key_lt(x, y),
        !key_lt(y, x),
    ensures
        x == y,
{
    if (x is Text) && (y is Text) {
        lemma_lex_lt_connected(x->Text_0, y->Text_0);
    }
}

pub proof fn lemma_key_lt_transitive(x: KeyV, y: KeyV, z: KeyV)
    requires
        key_lt(x, y),
        key_lt(y, z),
    ensures
        key_lt(x, z),
{
    if (x is Text) && (y is Text) && (z is Text) {
        lemma_lex_lt_transitive(x->Text_0, y->Text_0, z->Text_0);
    }
}

/// The identifier sequence an identifier vector stands for.
pub open spec fn ids_views(ids: Seq<Vec<char>>) -> Seq<Seq<char>> {
    ids.map_values(|v: Vec<char>| v@)
}

/// Row position `i` comes no later than `j`: first by the extracted
/// keys in the requested direction, equal keys by the rows' identifiers
/// ascending — the secondary key every listing shares — and identical
/// identifiers by position, which keeps the order total.
pub open spec fn pos_le_at(
    keys: Seq<KeyV>,
    ids: Seq<Seq<char>>,
    asc: bool,
    i: int,
    j: int,
) -> bool {
    let ki = keys[i];
    let kj = keys[j];
    if ki != kj {
        if asc {
            key_lt(ki, kj)
        } else {
            key_lt(kj, ki)
        }
    } else if ids[i] != ids[j] {
        lex_lt(ids[i], ids[j])
    } else {
        i <= j
    }
}

/// The position order as a binary relation on positions.
pub open spec fn pos_le(keys: Seq<KeyV>, ids: Seq<Seq<char>>, asc: bool) -> spec_fn(
    usize,
    usize,
) -> bool {
    |i: usize, j: usize| pos_le_at(keys, ids, asc, i as int, j as int)
}

pub proof fn lemma_pos_le_total(keys: Seq<KeyV>, ids: Seq<Seq<char>>, asc: bool)
    ensures
        total_ordering(pos_le(keys, ids, asc)),
{
    let r = pos_le(keys, ids, asc);
    assert forall|i: usize| #[trigger] r(i, i) by {}
    assert forall|i: usize, j: usize| #[trigger] r(i, j) && #[trigger] r(j, i) implies i == j by {
        let ki = keys[i as int];
        let kj = keys[j as int];
        if ki != kj {
            lemma_key_lt_asymmetric(ki, kj);
        } else if ids[i as int] != ids[j as int] {
            lemma_lex_lt_asymmetric(ids[i as int], ids[j as int]);
        }
    }
    assert forall|i: usize, j: usize, k: usize| #[trigger] r(i, j) && #[trigger] r(j, k) implies r(
        i,
        k,
    ) by {
        let ki = keys[i as int];
        let kj = keys[j as int];
        let kk = keys[k as int];
        let ii = ids[i as int];
        let ij = ids[j as int];
        let ik = ids[k as int];
        if ki == kj && kj == kk {
            // the keys agree, so the identifiers decide
            if ii != ij && ij != ik {
                lemma_lex_lt_transitive(ii, ij, ik);
                lemma_lex_lt_asymmetric(ii, ij);
                if ii == ik {
                    lemma_lex_lt_asymmetric(ij, ik);
                }
            }
        } else {
            // at least one strict key step
            lemma_key_lt_asymmetric(ki, kj);
            lemma_key_lt_asymmetric(kj, kk);
            if ki != kj && kj != kk {
                if asc {
                    lemma_key_lt_transitive(ki, kj, kk);
                } else {
                    lemma_key_lt_transitive(kk, kj, ki);
                }
                if ki == kk {
                    lemma_key_lt_asymmetric(ki, kj);
                }
            }
        }
    }
    assert forall|i: usize, j: usize| #[trigger] r(i, j) || #[trigger] r(j, i) by {
        let ki = keys[i as int];
        let kj = keys[j as int];
        if ki != kj {
            if !key_lt(ki, kj) && !key_lt(kj, ki) {
                lemma_key_lt_connected(ki, kj);
            }
        } else if ids[i as int] != ids[j as int] {
            if !lex_lt(ids[i as int], ids[j as int]) && !lex_lt(ids[j as int], ids[i as int]) {
                lemma_lex_lt_connected(ids[i as int], ids[j as int]);
            }
        }
    }
}

/// Positions `0 .. n`, in order.
pub open spec fn base_positions(n: nat) -> Seq<usize> {
    Seq::new(n, |i: int| i as usize)
}

/// The canonical visiting order of `n` rows: positions sorted by key in
/// the requested direction, ties broken by the rows' identifiers.
pub open spec fn rank_of(keys: Seq<KeyV>, ids: Seq<Seq<char>>, asc: bool) -> Seq<usize> {
    base_positions(keys.len()).sort_by(pos_le(keys, ids, asc))
}

fn key_eq_exec(a: &SortKey, b: &SortKey) -> (r: bool)
    ensures
        r == (a.view_key() == b.view_key()),
{
    match (a, b) {
        (SortKey::Num(x), SortKey::Num(y)) => x == y,
        (SortKey::Text(x), SortKey::Text(y)) => {
            if x.len() != y.len() {
                assert(x@ != y@);
                return false;
            }
            let mut k: usize = 0;
            while k < x.len()
                invariant
                    a.view_key() == KeyV::Text(x@),
                    b.view_key() == KeyV::Text(y@),
                    x@.len() == y@.len(),
                    k <= x@.len(),
                    forall|j: int| 0 <= j < k ==> x@[j] == y@[j],
                decreases x@.len() - k,
            {
                if x[k] != y[k] {
                    assert(x@[k as int] != y@[k as int]);
                    assert(x@ != y@);
                    return false;
                }
                k = k + 1;
            }
            proof {
                assert(x@ =~= y@);
            }
            true
        },
        _ => false,
    }
}

fn key_lt_exec(a: &SortKey, b: &SortKey) -> (r: bool)
    ensures
        r == key_lt(a.view_key(), b.view_key()),
{
    match (a, b) {
        (SortKey::Num(x), SortKey::Num(y)) => x < y,
        (SortKey::Num(_), SortKey::Text(_)) => true,
        (SortKey::Text(_), SortKey::Num(_)) => false,
        (SortKey::Text(x), SortKey::Text(y)) => lex_lt_exec(x, y),
    }
}

/// Character-vector equality.
fn chars_eq(a: &Vec<char>, b: &Vec<char>) -> (r: bool)
    ensures
        r == (a@ == b@),
{
    if a.len() != b.len() {
        return false;
    }
    let mut k: usize = 0;
    while k < a.len()
        invariant
            a@.len() == b@.len(),
            k <= a@.len(),
            forall|j: int| 0 <= j < k ==> a@[j] == b@[j],
        decreases a@.len() - k,
    {
        if a[k] != b[k] {
            assert(a@[k as int] != b@[k as int]);
            return false;
        }
        k = k + 1;
    }
    proof {
        assert(a@ =~= b@);
    }
    true
}

fn pos_le_exec(keys: &Vec<SortKey>, ids: &Vec<Vec<char>>, asc: bool, i: usize, j: usize) -> (r:
    bool)
    requires
        i < keys@.len(),
        j < keys@.len(),
        ids@.len() == keys@.len(),
    ensures
        r == pos_le(key_views(keys@), ids_views(ids@), asc)(i, j),
{
    if key_eq_exec(&keys[i], &keys[j]) {
        if chars_eq(&ids[i], &ids[j]) {
            i <= j
        } else {
            lex_lt_exec(&ids[i], &ids[j])
        }
    } else if asc {
        key_lt_exec(&keys[i], &keys[j])
    } else {
        key_lt_exec(&keys[j], &keys[i])
    }
}

/// Sorts the row positions `0 .. keys.len()` by the extracted keys with
/// the rows' identifiers as the secondary key: a verified selection sort
/// whose result is exactly the canonical order.
pub fn sort_positions(keys: &Vec<SortKey>, ids: &Vec<Vec<char>>, asc: bool) -> (order: Vec<usize>)
    requires
        ids@.len() == keys@.len(),
    ensures
        order@ == rank_of(key_views(keys@), ids_views(ids@), asc),
        order@.len() == keys@.len(),
        forall|p: int| 0 <= p < order@.len() ==> (#[trigger] order@[p]) < keys@.len(),
{
    let ghost kvs = key_views(keys@);
    let ghost idv = ids_views(ids@);
    let ghost leq = pos_le(kvs, idv, asc);
    let n = keys.len();

    let mut rem: Vec<usize> = Vec::new();
    let mut i: usize = 0;
    while i < n
        invariant
            i <= n,
            rem@ == base_positions(i as nat),
        decreases n - i,
    {
        rem.push(i);
        proof {
            assert(rem@ =~= base_positions((i + 1) as nat));
        }
        i = i + 1;
    }

    let mut out: Vec<usize> = Vec::new();
    proof {
        assert(base_positions(n as nat).to_multiset() =~= out@.to_multiset().add(
            rem@.to_multiset(),
        )) by {
            out@.to_multiset_ensures();
            assert(out@.to_multiset() =~= Multiset::<usize>::empty());
        }
    }
    while rem.len() > 0
        invariant
            n == keys@.len(),
            ids@.len() == keys@.len(),
            kvs == key_views(keys@),
            idv == ids_views(ids@),
            leq == pos_le(kvs, idv, asc),
            base_positions(n as nat).to_multiset() == out@.to_multiset().add(rem@.to_multiset()),
            forall|p: int| 0 <= p < out@.len() ==> (#[trigger] out@[p]) < n,
            forall|q: int| 0 <= q < rem@.len() ==> (#[trigger] rem@[q]) < n,
            sorted_by(out@, leq),
            forall|p: int, q: int|
                0 <= p < out@.len() && 0 <= q < rem@.len() ==> leq(
                    #[trigger] out@[p],
                    #[trigger] rem@[q],
                ),
        decreases rem@.len(),
    {
        // find the position of a minimal remaining element
        let mut m: usize = 0;
        let mut j: usize = 1;
        while j < rem.len()
            invariant
                n == keys@.len(),
                ids@.len() == keys@.len(),
                kvs == key_views(keys@),
                idv == ids_views(ids@),
                leq == pos_le(kvs, idv, asc),
                rem@.len() > 0,
                forall|q: int| 0 <= q < rem@.len() ==> (#[trigger] rem@[q]) < n,
                m < j,
                j <= rem@.len(),
                forall|q: int| 0 <= q < j ==> leq(rem@[m as int], #[trigger] rem@[q]),
            decreases rem@.len() - j,
        {
            proof {
                lemma_pos_le_total(kvs, idv, asc);
            }
            if !pos_le_exec(keys, ids, asc, rem[m], rem[j]) {
                assert forall|q: int| 0 <= q < j + 1 implies leq(
                    rem@[j as int],
                    #[trigger] rem@[q],
                ) by {
                    assert(leq(rem@[j as int], rem@[m as int]));
                    if q < j {
                        assert(leq(rem@[m as int], rem@[q]));
                    }
                }
                m = j;
            }
            j = j + 1;
        }
        let chosen = rem[m];
        let ghost old_out = out@;
        let ghost old_rem = rem@;
        out.push(chosen);
        rem.remove(m);
        proof {
            old_out.to_multiset_ensures();
            old_rem.to_multiset_ensures();
            assert(out@.to_multiset() =~= old_out.to_multiset().insert(chosen));
            assert(rem@.to_multiset() =~= old_rem.to_multiset().remove(chosen));
            assert(out@.to_multiset().add(rem@.to_multiset()) =~= old_out.to_multiset().add(
                old_rem.to_multiset(),
            ));
            // the new element keeps `out` sorted and below everything left
            lemma_pos_le_total(kvs, idv, asc);
            assert forall|p: int, q: int|
                0 <= p < out@.len() && 0 <= q < rem@.len() implies leq(
                #[trigger] out@[p],
                #[trigger] rem@[q],
            ) by {
                let v = rem@[q];
                let qq = if q < m { q } else { q + 1 };
                assert(old_rem[qq] == v);
                assert(leq(chosen, v));
                if p < out@.len() - 1 {
                    assert(leq(out@[p], chosen));
                }
            }
            assert(sorted_by(out@, leq)) by {
                assert forall|p: int, q: int| 0 <= p < q < out@.len() implies leq(
                    #[trigger] out@[p],
                    #[trigger] out@[q],
                ) by {
                    if q < out@.len() - 1 {
                        assert(leq(old_out[p], old_out[q]));
                    } else {
                        assert(leq(old_out[p], old_rem[m as int]));
                    }
                }
            }
        }
    }
    proof {
        lemma_pos_le_total(kvs, idv, asc);
        base_positions(n as nat).lemma_sort_by_ensures(leq);
        rem@.to_multiset_ensures();
        assert(rem@.to_multiset() =~= Multiset::<usize>::empty());
        assert(out@.to_multiset() =~= base_positions(n as nat).to_multiset());
        lemma_sorted_unique(out@, rank_of(kvs, idv, asc), leq);
        assert(out@ == rank_of(kvs, idv, asc));
        base_positions(n as nat).to_multiset_ensures();
        out@.to_multiset_ensures();
        assert(out@.len() == n);
        assert forall|p: int| 0 <= p < out@.len() implies (#[trigger] out@[p]) < n by {}
    }
    out
}

/// One page of rows in canonical order, as fixed by the keys, the rows'
/// identifiers and the bounds.
pub open spec fn page_of<T>(
    rows: Seq<T>,
    keys: Seq<KeyV>,
    ids: Seq<Seq<char>>,
    asc: bool,
    lo: int,
    hi: int,
) -> Seq<T> {
    rank_of(keys, ids, asc).subrange(lo, hi).map_values(|i: usize| rows[i as int])
}

/// Copies the rows a page selects, in page order.  Each output row is a
/// clone of the selected input row; for row types whose `clone` returns a
/// value equal to its input, the page equals the selected rows exactly.
pub fn select_page<T: Clone>(rows: &Vec<T>, order: &Vec<usize>, lo: usize, hi: usize) -> (r: Vec<
    T,
>)
    requires
        lo <= hi <= order@.len(),
        forall|p: int| 0 <= p < order@.len() ==> (#[trigger] order@[p]) < rows@.len(),
    ensures
        r@.len() == hi - lo,
        forall|p: int|
            0 <= p < r@.len() ==> vstd::pervasive::cloned::<T>(
                order@.subrange(lo as int, hi as int).map_values(|i: usize| rows@[i as int])[p],
                #[trigger] r@[p],
            ),
{
    let ghost target = order@.subrange(lo as int, hi as int).map_values(
        |i: usize| rows@[i as int],
    );
    let mut r: Vec<T> = Vec::new();
    let mut p: usize = lo;
    while p < hi
        invariant
            lo <= p <= hi <= order@.len(),
            forall|q: int| 0 <= q < order@.len() ==> (#[trigger] order@[q]) < rows@.len(),
            target == order@.subrange(lo as int, hi as int).map_values(
                |i: usize| rows@[i as int],
            ),
            r@.len() == p - lo,
            forall|q: int|
                0 <= q < r@.len() ==> vstd::pervasive::cloned::<T>(target[q], #[trigger] r@[q]),
        decreases hi - p,
    {
        let idx = order[p];
        r.push(rows[idx].clone());
        p = p + 1;
    }
    r
}

/// Sort direction shared by every listing.
#[derive(Debug, Clone, Copy, PartialEq, Eq, Structural)]
pub enum SortOrder {
    Asc,
    Desc,
}

impl SortOrder {
    pub open spec fn is_asc(self) -> bool {
        self is Asc
    }

    /// True for ascending order.
    pub fn ascending(&self) -> (r: bool)
        ensures
            r == self.is_asc(),
    {
        match self {
            SortOrder::Asc => true,
            SortOrder::Desc => false,
        }
    }
}

/// Reads a sort direction from user input: `desc`/`descending` in any
/// case select descending order, anything else ascending.
pub fn parse_sort_order(sort_order: &str) -> (r: SortOrder)
    ensures
        r == (if crate::text::eq_fold(sort_order@, "desc"@) || crate::text::eq_fold(
            sort_order@,
            "descending"@,
        ) {
            SortOrder::Desc
        } else {
            SortOrder::Asc
        }),
{
    let cs = crate::text::chars_of(sort_order);
    let d1 = crate::text::chars_of("desc");
    let d2 = crate::text::chars_of("descending");
    if crate::text::eq_ignore_case(&cs, &d1) || crate::text::eq_ignore_case(&cs, &d2) {
        SortOrder::Desc
    } else {
        SortOrder::Asc
    }
}

/// A page request: 1-based page number and page size.
#[derive(Debug, Clone, Copy, PartialEq, Eq, Structural)]
pub struct Pagination {
    pub page: i64,
    pub per_page: i64,
}

impl Default for Pagination {
    /// The first page of ten rows.
    fn default() -> (r: Self)
        ensures
            r.page == 1 && r.per_page == 10,
    {
        Pagination { page: 1, per_page: 10 }
    }
}

/// Largest page size a caller may request.
pub const MAX_PAGE_SIZE: i64 = 100;

/// The page number actually served: requests below one are clamped to one.
pub open spec fn clamped_page(page: i64) -> int {
    if page < 1 {
        1
    } else {
        page as int
    }
}

/// The page size actually served: clamped into `1 ..= 100`.
pub open spec fn clamped_size(per_page: i64) -> int {
    if per_page < 1 {
        1
    } else if per_page > MAX_PAGE_SIZE {
        MAX_PAGE_SIZE as int
    } else {
        per_page as int
    }
}

/// Number of pages needed for `total` rows at `size` rows per page.
pub open spec fn pages_needed(total: int, size: int) -> int {
    (total + size - 1) / size
}

/// First row position of the requested page, clamped to the row count.
pub open spec fn page_lo(total: int, page: i64, per_page: i64) -> int {
    let off = (clamped_page(page) - 1) * clamped_size(per_page);
    if off > total {
        total
    } else {
        off
    }
}

/// One past the last row position of the requested page.
pub open spec fn page_hi(total: int, page: i64, per_page: i64) -> int {
    let hi = page_lo(total, page, per_page) + clamped_size(per_page);
    if hi > total {
        total
    } else {
        hi
    }
}

/// Computes the clamped page bounds: `(lo, hi, page, size, total_pages)`.
pub fn page_bounds(total: usize, page: i64, per_page: i64) -> (r: (usize, usize, i64, i64, i64))
    requires
        total <= i64::MAX - MAX_PAGE_SIZE,
    ensures
        r.0 as int == page_lo(total as int, page, per_page),
        r.1 as int == page_hi(total as int, page, per_page),
        r.2 as int == clamped_page(page),
        r.3 as int == clamped_size(per_page),
        r.4 as int == pages_needed(total as int, clamped_size(per_page)),
        r.0 <= r.1 <= total,
{
    let p: i64 = if page < 1 {
        1
    } else {
        page
    };
    let s: i64 = if per_page < 1 {
        1
    } else if per_page > MAX_PAGE_SIZE {
        MAX_PAGE_SIZE
    } else {
        per_page
    };
    let t = total as i64;
    let off: i64 = match (p - 1).checked_mul(s) {
        Some(v) => {
            if v > t {
                t
            } else {
                v
            }
        },
        None => {
            proof {
                assert((p - 1) * s >= t) by (nonlinear_arith)
                    requires
                        p >= 1,
                        s >= 1,
                        t <= i64::MAX,
                        !(i64::MIN <= (p - 1) * s <= i64::MAX),
                ;
            }
            t
        },
    };
    proof {
        assert(off as int == page_lo(total as int, page, per_page)) by (nonlinear_arith)
            requires
                p as int == clamped_page(page),
                s as int == clamped_size(per_page),
                t == total as int,
                t >= 0,
                off == if (p - 1) * s > t { t as int } else { (p - 1) * s },
        ;
    }
    let hi: i64 = if off + s > t {
        t
    } else {
        off + s
    };
    let pages: i64 = (t + s - 1) / s;
    (off as usize, hi as usize, p, s, pages)
}

/// A paginated listing result, generic in the row type.
#[derive(Debug, Clone)]
pub struct PaginatedList<T> {
    pub items: Vec<T>,
    pub total_count: i64,
    pub current_page: i64,
    pub total_pages: i64,
    pub per_page: i64,
}

/// What every paginated result offers: construction from one page of rows
/// plus counts, and page navigation predicates.
pub trait PaginatedResult<T>: Sized {
    spec fn result_items(&self) -> Seq<T>;

    spec fn result_total_count(&self) -> int;

    spec fn result_page(&self) -> int;

    spec fn result_total_pages(&self) -> int;

    spec fn result_per_page(&self) -> int;

    fn new(items: Vec<T>, total_count: i64, current_page: i64, per_page: i64) -> (r: Self)
        requires
            per_page >= 1,
            total_count >= 0,
            total_count <= i64::MAX - per_page,
        ensures
            r.result_items() == items@,
            r.result_total_count() == total_count as int,
            r.result_page() == current_page as int,
            r.result_per_page() == per_page as int,
            r.result_total_pages() == pages_needed(total_count as int, per_page as int);

    fn total_pages(&self) -> (r: i64)
        ensures
            r as int == self.result_total_pages();

    fn has_previous(&self) -> (r: bool)
        ensures
            r == (self.result_page() > 1);

    fn has_next(&self) -> (r: bool)
        ensures
            r == (self.result_page() < self.result_total_pages());
}

impl<T> PaginatedResult<T> for PaginatedList<T> {
    open spec fn result_items(&self) -> Seq<T> {
        self.items@
    }

    open spec fn result_total_count(&self) -> int {
        self.total_count as int
    }

    open spec fn result_page(&self) -> int {
        self.current_page as int
    }

    open spec fn result_total_pages(&self) -> int {
        self.total_pages as int
    }

    open spec fn result_per_page(&self) -> int {
        self.per_page as int
    }

    fn new(items: Vec<T>, total_count: i64, current_page: i64, per_page: i64) -> (r: Self) {
        let total_pages = (total_count + per_page - 1) / per_page;
        PaginatedList { items, total_count, current_page, total_pages, per_page }
    }

    fn total_pages(&self) -> (r: i64) {
        self.total_pages
    }

    fn has_previous(&self) -> (r: bool) {
        self.current_page > 1
    }

    fn has_next(&self) -> (r: bool) {
        self.current_page < self.total_pages
    }
}

} // verus!
