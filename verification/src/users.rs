//! User accounts: CRUD, the filtered/sorted/paginated listing,
//! authentication, and password management.

use vstd::prelude::*;
use vstd::pervasive::VecAdditionalExecFns;

use crate::catalog::opt_text_view;
use crate::error::{AppError, AppResult};
use crate::query::{
    clamped_page, clamped_size, ids_views, key_views, page_bounds, page_hi, page_lo, page_of,
    pages_needed, select_page, sort_positions, KeyV, SortKey, SortOrder,
};
use crate::store::{has_user_id, user_ids, user_idx, Store, User};
use crate::text::{any_non_space, chars_of, contains_fold};
use crate::trusted::{bcrypt_hash, bcrypt_verdict, bcrypt_verify, new_uuid_string,
    random_alphanumeric, space_of};

verus! {

/// Filter and sort parameters of the user listing.
#[derive(Debug)]
pub struct UserFilter {
    /// Matched against the user name.
    pub search_term: Option<String>,
    /// When set, not blank and not `all`, only this role is listed.
    pub role_filter: Option<String>,
    pub sort_by: UserSortBy,
    pub sort_order: SortOrder,
}

/// The closed set of fields a user listing can sort by.
#[derive(Debug, Clone, Copy, PartialEq, Eq, Structural)]
pub enum UserSortBy {
    Name,
    Role,
    CreatedAt,
}

/// A page request for the user listing.
#[derive(Debug, Clone, Copy, PartialEq, Eq, Structural)]
pub struct UserPagination {
    pub page: i64,
    pub per_page: i64,
}

/// One page of users with count metadata.
#[derive(Debug)]
pub struct UserListResult {
    pub users: Vec<User>,
    pub total_count: i64,
    pub current_page: i64,
    pub total_pages: i64,
    pub per_page: i64,
}

impl Default for UserFilter {
    /// Everything, by name ascending.
    fn default() -> (r: Self)
        ensures
            r.search_term is None,
            r.role_filter is None,
            r.sort_by == UserSortBy::Name,
            r.sort_order == SortOrder::Asc,
    {
        UserFilter {
            search_term: None,
            role_filter: None,
            sort_by: UserSortBy::Name,
            sort_order: SortOrder::Asc,
        }
    }
}

impl Default for UserPagination {
    /// The first page of five.
    fn default() -> (r: Self)
        ensures
            r.page == 1 && r.per_page == 5,
    {
        UserPagination { page: 1, per_page: 5 }
    }
}

/// The view of an optional character vector.
pub open spec fn opt_chars_view(o: Option<Vec<char>>) -> Option<Seq<char>> {
    match o {
        Some(v) => Some(v@),
        None => None,
    }
}

/// A text parameter counts only when it holds a non-whitespace character.
pub open spec fn effective_text(o: Option<Seq<char>>) -> Option<Seq<char>> {
    match o {
        Some(q) => if exists|t: int| 0 <= t < q.len() && !space_of(#[trigger] q[t]) {
            Some(q)
        } else {
            None
        },
        None => None,
    }
}

/// Whether a user passes the listing filter: not the excluded user, the
/// search term (if effective) occurs case-insensitively in the name, and
/// the role filter (if effective and not `all`) matches exactly.
pub open spec fn user_matches(
    u: User,
    except_id: Seq<char>,
    search: Option<Seq<char>>,
    role: Option<Seq<char>>,
) -> bool {
    &&& u.id@ != except_id
    &&& match effective_text(search) {
        Some(q) => contains_fold(u.name@, q),
        None => true,
    }
    &&& match effective_text(role) {
        Some(rf) => rf == "all"@ || u.role@ == rf,
        None => true,
    }
}

/// The sort key of a user under the chosen sort field.
pub open spec fn user_key(u: User, field: UserSortBy) -> KeyV {
    match field {
        UserSortBy::Name => KeyV::Text(u.name@),
        UserSortBy::Role => KeyV::Text(u.role@),
        UserSortBy::CreatedAt => KeyV::Text(u.created_at@),
    }
}

/// The users that pass the listing filter, in store order.
pub open spec fn user_filter_rows(
    users: Seq<User>,
    except_id: Seq<char>,
    filter: UserFilter,
) -> Seq<User> {
    users.filter(
        |u: User| user_matches(
            u,
            except_id,
            opt_text_view(filter.search_term),
            opt_text_view(filter.role_filter),
        ),
    )
}

/// The canonical page of users for these parameters: ties on the sort
/// field are broken by the user identifier.
pub open spec fn user_page(
    users: Seq<User>,
    except_id: Seq<char>,
    filter: UserFilter,
    pagination: UserPagination,
) -> Seq<User> {
    let rows = user_filter_rows(users, except_id, filter);
    let keys = rows.map_values(|u: User| user_key(u, filter.sort_by));
    let ids = rows.map_values(|u: User| u.id@);
    page_of(
        rows,
        keys,
        ids,
        filter.sort_order.is_asc(),
        page_lo(rows.len() as int, pagination.page, pagination.per_page),
        page_hi(rows.len() as int, pagination.page, pagination.per_page),
    )
}

fn user_matches_exec(
    u: &User,
    except_id: &str,
    needle: &Option<Vec<char>>,
    role: &Option<Vec<char>>,
) -> (r: bool)
    ensures
        r == user_matches(*u, except_id@, opt_chars_view(*needle), opt_chars_view(*role)),
{
    if crate::text::str_eq(u.id.as_str(), except_id) {
        return false;
    }
    let search_ok = match needle {
        Some(q) => {
            if any_non_space(q) {
                proof {
                    assert(effective_text(Some(q@)) == Some(q@));
                }
                let name_chars = chars_of(u.name.as_str());
                crate::text::contains_ci(&name_chars, q)
            } else {
                proof {
                    assert(effective_text(Some(q@)) is None);
                }
                true
            }
        },
        None => true,
    };
    let role_ok = match role {
        Some(rf) => {
            if any_non_space(rf) {
                let rf_str = rf_to_str(rf);
                if crate::text::str_eq(rf_str.as_str(), "all") {
                    true
                } else {
                    let eq = crate::text::str_eq(u.role.as_str(), rf_str.as_str());
                    proof {
                        assert(effective_text(Some(rf@)) == Some(rf@));
                        assert(eq == (u.role@ == rf@));
                    }
                    eq
                }
            } else {
                proof {
                    assert(effective_text(Some(rf@)) is None);
                }
                true
            }
        },
        None => true,
    };
    proof {
        let gs = opt_chars_view(*needle);
        let gr = opt_chars_view(*role);
        assert(u.id@ != except_id@);
        assert(search_ok == match effective_text(gs) {
            Some(q) => contains_fold(u.name@, q),
            None => true,
        });
        assert(role_ok == match effective_text(gr) {
            Some(rf) => rf == "all"@ || u.role@ == rf,
            None => true,
        });
    }
    search_ok && role_ok
}

/// The text of a character vector.
fn rf_to_str(v: &Vec<char>) -> (r: String)
    ensures
        r@ == v@,
{
    crate::trusted::string_from_chars(v)
}

impl Store {
    /// The filtered, sorted, paginated user listing, excluding the
    /// calling user.  The filter drives both the rows and
    /// `total_count`; ties are broken by the row identifier.
    pub fn get_users_paginated(
        &self,
        except_user_id: &str,
        filter: UserFilter,
        pagination: UserPagination,
    ) -> (r: AppResult<UserListResult>)
        requires
            self.users@.len() + crate::query::MAX_PAGE_SIZE <= i64::MAX,
        ensures
            match r {
                Ok(res) => {
                    let rows = user_filter_rows(self.users@, except_user_id@, filter);
                    &&& res.users@ == user_page(self.users@, except_user_id@, filter, pagination)
                    &&& res.total_count == rows.len()
                    &&& res.current_page as int == clamped_page(pagination.page)
                    &&& res.per_page as int == clamped_size(pagination.per_page)
                    &&& res.total_pages as int == pages_needed(
                        rows.len() as int,
                        clamped_size(pagination.per_page),
                    )
                },
                Err(_) => false,
            },
    {
        let ghost search = opt_text_view(filter.search_term);
        let ghost role = opt_text_view(filter.role_filter);
        let needle: Option<Vec<char>> = match &filter.search_term {
            Some(s) => Some(chars_of(s.as_str())),
            None => None,
        };
        let rolev: Option<Vec<char>> = match &filter.role_filter {
            Some(s) => Some(chars_of(s.as_str())),
            None => None,
        };
        let ghost pred = |u: User| user_matches(u, except_user_id@, search, role);

        let mut rows: Vec<User> = Vec::new();
        let mut i: usize = 0;
        proof {
            assert(self.users@.subrange(0, 0).filter(pred) =~= Seq::<User>::empty());
        }
        while i < self.users.len()
            invariant
                i <= self.users@.len(),
                search == opt_text_view(filter.search_term),
                role == opt_text_view(filter.role_filter),
                search == opt_chars_view(needle),
                role == opt_chars_view(rolev),
                pred == (|u: User| user_matches(u, except_user_id@, search, role)),
                rows@ == self.users@.subrange(0, i as int).filter(pred),
            decreases self.users@.len() - i,
        {
            let ghost prefix = self.users@.subrange(0, i as int);
            proof {
                prefix.lemma_filter_push(self.users@[i as int], pred);
                assert(self.users@.subrange(0, i + 1) =~= prefix.push(self.users@[i as int]));
            }
            let u = &self.users[i];
            if user_matches_exec(u, except_user_id, &needle, &rolev) {
                rows.push(u.clone());
            }
            proof {
                assert(rows@ =~= self.users@.subrange(0, i + 1).filter(pred));
            }
            i = i + 1;
        }
        proof {
            assert(self.users@.subrange(0, self.users@.len() as int) =~= self.users@);
            self.users@.lemma_filter_len(pred);
        }

        let total = rows.len();
        let (lo, hi, page_c, size_c, pages) = page_bounds(
            total,
            pagination.page,
            pagination.per_page,
        );

        let mut keys: Vec<SortKey> = Vec::new();
        let mut idv: Vec<Vec<char>> = Vec::new();
        let mut j: usize = 0;
        while j < rows.len()
            invariant
                j <= rows@.len(),
                keys@.len() == j,
                idv@.len() == j,
                forall|q: int|
                    0 <= q < j ==> (#[trigger] keys@[q]).view_key() == user_key(
                        rows@[q],
                        filter.sort_by,
                    ),
                forall|q: int| 0 <= q < j ==> (#[trigger] idv@[q])@ == rows@[q].id@,
            decreases rows@.len() - j,
        {
            let k = match filter.sort_by {
                UserSortBy::Name => SortKey::Text(chars_of(rows[j].name.as_str())),
                UserSortBy::Role => SortKey::Text(chars_of(rows[j].role.as_str())),
                UserSortBy::CreatedAt => SortKey::Text(chars_of(rows[j].created_at.as_str())),
            };
            keys.push(k);
            idv.push(chars_of(rows[j].id.as_str()));
            j = j + 1;
        }
        proof {
            assert(key_views(keys@) =~= rows@.map_values(
                |u: User| user_key(u, filter.sort_by),
            ));
            assert(ids_views(idv@) =~= rows@.map_values(|u: User| u.id@));
        }

        let order = sort_positions(&keys, &idv, filter.sort_order.ascending());
        let items = select_page(&rows, &order, lo, hi);
        proof {
            let target = order@.subrange(lo as int, hi as int).map_values(
                |q: usize| rows@[q as int],
            );
            assert forall|q: int| 0 <= q < items@.len() implies items@[q] == target[q] by {
                assert(vstd::pervasive::cloned::<User>(target[q], items@[q]));
            }
            assert(items@ =~= target);
            assert(items@ =~= user_page(self.users@, except_user_id@, filter, pagination));
        }
        Ok(
            UserListResult {
                users: items,
                total_count: total as i64,
                current_page: page_c,
                total_pages: pages,
                per_page: size_c,
            },
        )
    }

    /// Every user but the excluded one, sorted by name ascending.
    pub fn get_all_users(&self, except_user_id: &str) -> (r: AppResult<Vec<User>>)
        ensures
            match r {
                Ok(items) => {
                    let rows = self.users@.filter(
                        |u: User| u.id@ != except_user_id@,
                    );
                    items@ == page_of(
                        rows,
                        rows.map_values(|u: User| user_key(u, UserSortBy::Name)),
                        rows.map_values(|u: User| u.id@),
                        true,
                        0,
                        rows.len() as int,
                    )
                },
                Err(_) => false,
            },
    {
        let ghost pred = |u: User| u.id@ != except_user_id@;
        let mut rows: Vec<User> = Vec::new();
        let mut i: usize = 0;
        proof {
            assert(self.users@.subrange(0, 0).filter(pred) =~= Seq::<User>::empty());
        }
        while i < self.users.len()
            invariant
                i <= self.users@.len(),
                pred == (|u: User| u.id@ != except_user_id@),
                rows@ == self.users@.subrange(0, i as int).filter(pred),
            decreases self.users@.len() - i,
        {
            let ghost prefix = self.users@.subrange(0, i as int);
            proof {
                prefix.lemma_filter_push(self.users@[i as int], pred);
                assert(self.users@.subrange(0, i + 1) =~= prefix.push(self.users@[i as int]));
            }
            let u = &self.users[i];
            if !crate::text::str_eq(u.id.as_str(), except_user_id) {
                rows.push(u.clone());
            }
            proof {
                assert(rows@ =~= self.users@.subrange(0, i + 1).filter(pred));
            }
            i = i + 1;
        }
        proof {
            assert(self.users@.subrange(0, self.users@.len() as int) =~= self.users@);
        }

        let mut keys: Vec<SortKey> = Vec::new();
        let mut idv: Vec<Vec<char>> = Vec::new();
        let mut j: usize = 0;
        while j < rows.len()
            invariant
                j <= rows@.len(),
                keys@.len() == j,
                idv@.len() == j,
                forall|q: int|
                    0 <= q < j ==> (#[trigger] keys@[q]).view_key() == user_key(
                        rows@[q],
                        UserSortBy::Name,
                    ),
                forall|q: int| 0 <= q < j ==> (#[trigger] idv@[q])@ == rows@[q].id@,
            decreases rows@.len() - j,
        {
            keys.push(SortKey::Text(chars_of(rows[j].name.as_str())));
            idv.push(chars_of(rows[j].id.as_str()));
            j = j + 1;
        }
        proof {
            assert(key_views(keys@) =~= rows@.map_values(
                |u: User| user_key(u, UserSortBy::Name),
            ));
            assert(ids_views(idv@) =~= rows@.map_values(|u: User| u.id@));
        }
        let order = sort_positions(&keys, &idv, true);
        let n = rows.len();
        let items = select_page(&rows, &order, 0, n);
        proof {
            let rowsg = self.users@.filter(pred);
            let target = order@.subrange(0, n as int).map_values(|q: usize| rows@[q as int]);
            assert forall|q: int| 0 <= q < items@.len() implies items@[q] == target[q] by {
                assert(vstd::pervasive::cloned::<User>(target[q], items@[q]));
            }
            assert(items@ =~= target);
            assert(items@ =~= page_of(
                rowsg,
                rowsg.map_values(|u: User| user_key(u, UserSortBy::Name)),
                rowsg.map_values(|u: User| u.id@),
                true,
                0,
                rowsg.len() as int,
            ));
        }
        Ok(items)
    }

    /// Looks a user up by identifier.
    pub fn get_user_by_id(&self, user_id: &str) -> (r: AppResult<User>)
        requires
            self.wf(),
        ensures
            match r {
                Ok(u) => has_user_id(self.users@, user_id@) && u == self.users@[
                    user_idx(self.users@, user_id@)
                ],
                Err(AppError::NotFound(_)) => !has_user_id(self.users@, user_id@),
                Err(_) => false,
            },
    {
        match self.find_user(user_id) {
            Some(i) => {
                proof {
                    crate::store::lemma_user_idx_unique(self.users@, user_id@, i as int);
                }
                Ok(self.users[i].clone())
            },
            None => Err(AppError::NotFound("no user with this id".to_owned())),
        }
    }

    /// Inserts a user under a caller-chosen identifier; the password
    /// must already be hashed.  Fails `Conflict` when the identifier is
    /// taken.
    pub fn create_user_with_id(
        &mut self,
        user_id: String,
        new_name: &str,
        hashed_password: &str,
        new_role: &str,
        now: &str,
    ) -> (r: AppResult<User>)
        requires
            old(self).wf(),
        ensures
            final(self).wf(),
            final(self).products == old(self).products,
            final(self).sales == old(self).sales,
            final(self).sale_items == old(self).sale_items,
            final(self).sale_seq == old(self).sale_seq,
            match r {
                Ok(u) => {
                    &&& !has_user_id(old(self).users@, user_id@)
                    &&& final(self).users@ == old(self).users@.push(u)
                    &&& u.id@ == user_id@
                    &&& u.name@ == new_name@
                    &&& u.password@ == hashed_password@
                    &&& u.role@ == new_role@
                    &&& u.must_change_password == 1
                    &&& u.created_at@ == now@
                    &&& u.updated_at@ == now@
                },
                Err(AppError::Conflict(_)) => has_user_id(old(self).users@, user_id@)
                    && *final(self) == *old(self),
                Err(_) => false,
            },
    {
        if self.find_user(user_id.as_str()).is_some() {
            return Err(AppError::Conflict("user id already taken".to_owned()));
        }
        let user = User {
            id: user_id,
            password: hashed_password.to_owned(),
            name: new_name.to_owned(),
            role: new_role.to_owned(),
            must_change_password: 1,
            created_at: now.to_owned(),
            updated_at: now.to_owned(),
        };
        let result = user.clone();
        let ghost old_users = self.users@;
        self.users.push(user);
        proof {
            assert(user_ids(self.users@) =~= user_ids(old_users).push(self.users@.last().id@));
        }
        Ok(result)
    }

    /// Creates a user with a fresh identifier; the password must already
    /// be hashed.  The account starts with a forced password change.
    pub fn create_user(
        &mut self,
        new_name: &str,
        hashed_password: &str,
        new_role: &str,
        now: &str,
    ) -> (r: AppResult<User>)
        requires
            old(self).wf(),
        ensures
            final(self).wf(),
            final(self).products == old(self).products,
            final(self).sales == old(self).sales,
            final(self).sale_items == old(self).sale_items,
            final(self).sale_seq == old(self).sale_seq,
            match r {
                Ok(u) => {
                    &&& final(self).users@ == old(self).users@.push(u)
                    &&& !has_user_id(old(self).users@, u.id@)
                    &&& u.name@ == new_name@
                    &&& u.password@ == hashed_password@
                    &&& u.role@ == new_role@
                    &&& u.must_change_password == 1
                    &&& u.created_at@ == now@
                    &&& u.updated_at@ == now@
                },
                Err(AppError::Conflict(_)) => *final(self) == *old(self),
                Err(_) => false,
            },
    {
        let user_id = new_uuid_string();
        self.create_user_with_id(user_id, new_name, hashed_password, new_role, now)
    }

    /// Updates a user's name and role, stamping the update time.
    pub fn update_user_info(&mut self, user_id: &str, new_name: &str, new_role: &str, now: &str)
        -> (r: AppResult<User>)
        requires
            old(self).wf(),
        ensures
            final(self).wf(),
            final(self).products == old(self).products,
            final(self).sales == old(self).sales,
            final(self).sale_items == old(self).sale_items,
            final(self).sale_seq == old(self).sale_seq,
            match r {
                Ok(u) => {
                    &&& has_user_id(old(self).users@, user_id@)
                    &&& {
                        let i = user_idx(old(self).users@, user_id@);
                        &&& final(self).users@ == old(self).users@.update(i, u)
                        &&& u == User {
                            name: u.name,
                            role: u.role,
                            updated_at: u.updated_at,
                            ..old(self).users@[i]
                        }
                    }
                    &&& u.name@ == new_name@
                    &&& u.role@ == new_role@
                    &&& u.updated_at@ == now@
                },
                Err(AppError::NotFound(_)) => !has_user_id(old(self).users@, user_id@)
                    && *final(self) == *old(self),
                Err(_) => false,
            },
    {
        let found = self.find_user(user_id);
        match found {
            None => Err(AppError::NotFound("no user with this id".to_owned())),
            Some(i) => {
                proof {
                    crate::store::lemma_user_idx_unique(self.users@, user_id@, i as int);
                }
                let updated = User {
                    name: new_name.to_owned(),
                    role: new_role.to_owned(),
                    updated_at: now.to_owned(),
                    ..self.users[i].clone()
                };
                let result = updated.clone();
                let ghost old_users = self.users@;
                self.users.set(i, updated);
                proof {
                    assert(user_ids(self.users@) =~= user_ids(old_users));
                }
                Ok(result)
            },
        }
    }

    /// Deletes a user; returns how many rows were removed.  Ledger rows
    /// are never touched: a deleted seller's sales stay committed, and
    /// their detail and receipt joins then report the seller as unknown,
    /// as the underlying inner join would.
    pub fn delete_user(&mut self, user_id_to_delete: &str) -> (r: AppResult<usize>)
        requires
            old(self).wf(),
        ensures
            final(self).wf(),
            final(self).products == old(self).products,
            final(self).sales == old(self).sales,
            final(self).sale_items == old(self).sale_items,
            final(self).sale_seq == old(self).sale_seq,
            match r {
                Ok(n) => if has_user_id(old(self).users@, user_id_to_delete@) {
                    n == 1 && final(self).users@ == old(self).users@.remove(
                        user_idx(old(self).users@, user_id_to_delete@),
                    )
                } else {
                    n == 0 && *final(self) == *old(self)
                },
                Err(_) => false,
            },
    {
        match self.find_user(user_id_to_delete) {
            None => Ok(0),
            Some(i) => {
                proof {
                    crate::store::lemma_user_idx_unique(self.users@, user_id_to_delete@, i as int);
                }
                let ghost old_users = self.users@;
                self.users.remove(i);
                proof {
                    assert(user_ids(self.users@) =~= user_ids(old_users).remove(i as int));
                    crate::store::lemma_distinct_remove(user_ids(old_users), i as int);
                }
                Ok(1)
            },
        }
    }

    /// Stores a new password hash and clears the forced-change flag.
    /// An unknown identifier changes nothing, as an update of zero rows.
    pub fn update_user_password(&mut self, user_id: &str, new_password_hash: &str) -> (r:
        AppResult<()>)
        requires
            old(self).wf(),
        ensures
            final(self).wf(),
            final(self).products == old(self).products,
            final(self).sales == old(self).sales,
            final(self).sale_items == old(self).sale_items,
            final(self).sale_seq == old(self).sale_seq,
            match r {
                Ok(_) => if has_user_id(old(self).users@, user_id@) {
                    let i = user_idx(old(self).users@, user_id@);
                    final(self).users@ == old(self).users@.update(
                        i,
                        User {
                            password: final(self).users@[i].password,
                            must_change_password: 0,
                            ..old(self).users@[i]
                        },
                    ) && final(self).users@[i].password@ == new_password_hash@
                } else {
                    *final(self) == *old(self)
                },
                Err(_) => false,
            },
    {
        match self.find_user(user_id) {
            None => Ok(()),
            Some(i) => {
                proof {
                    crate::store::lemma_user_idx_unique(self.users@, user_id@, i as int);
                }
                let updated = User {
                    password: new_password_hash.to_owned(),
                    must_change_password: 0,
                    ..self.users[i].clone()
                };
                let ghost old_users = self.users@;
                self.users.set(i, updated);
                proof {
                    assert(user_ids(self.users@) =~= user_ids(old_users));
                }
                Ok(())
            },
        }
    }

    /// Resets a user's password to a fresh twelve-character temporary
    /// one, stores its hash with a forced change, and returns the
    /// temporary password in the clear.  An unknown identifier changes
    /// nothing; `Database` reports a hashing failure.
    pub fn reset_user_password(&mut self, user_id: &str, now: &str) -> (r: AppResult<String>)
        requires
            old(self).wf(),
        ensures
            final(self).wf(),
            final(self).products == old(self).products,
            final(self).sales == old(self).sales,
            final(self).sale_items == old(self).sale_items,
            final(self).sale_seq == old(self).sale_seq,
            match r {
                Ok(temp) => {
                    &&& temp@.len() == 12
                    &&& forall|k: int|
                        0 <= k < temp@.len() ==> crate::text::ascii_alnum(#[trigger] temp@[k])
                    &&& if has_user_id(old(self).users@, user_id@) {
                        let i = user_idx(old(self).users@, user_id@);
                        &&& final(self).users@ == old(self).users@.update(
                            i,
                            User {
                                password: final(self).users@[i].password,
                                must_change_password: 1,
                                updated_at: final(self).users@[i].updated_at,
                                ..old(self).users@[i]
                            },
                        )
                        &&& final(self).users@[i].updated_at@ == now@
                        &&& bcrypt_verdict(temp@, final(self).users@[i].password@) == Some(true)
                    } else {
                        *final(self) == *old(self)
                    }
                },
                Err(AppError::Database(_)) => *final(self) == *old(self),
                Err(_) => false,
            },
    {
        let temp_password = random_alphanumeric(12);
        let hashed = match bcrypt_hash(temp_password.as_str()) {
            Some(h) => h,
            None => {
                return Err(AppError::Database("password hashing failed".to_owned()));
            },
        };
        match self.find_user(user_id) {
            None => Ok(temp_password),
            Some(i) => {
                proof {
                    crate::store::lemma_user_idx_unique(self.users@, user_id@, i as int);
                }
                let updated = User {
                    password: hashed,
                    must_change_password: 1,
                    updated_at: now.to_owned(),
                    ..self.users[i].clone()
                };
                let ghost old_users = self.users@;
                self.users.set(i, updated);
                proof {
                    assert(user_ids(self.users@) =~= user_ids(old_users));
                }
                Ok(temp_password)
            },
        }
    }

    /// Authenticates by name and password against the stored hash.
    /// Succeeds exactly when some user carries the name — the first
    /// such user decides — and the password matches that user's hash.
    pub fn authenticate(&self, name_input: &str, password_input: &str) -> (r: AppResult<User>)
        ensures
            match r {
                Ok(u) => exists|i: int|
                    {
                        &&& first_named(self.users@, name_input@, i)
                        &&& u == self.users@[i]
                        &&& bcrypt_verdict(password_input@, u.password@) == Some(true)
                    },
                Err(AppError::Authentication(_)) => forall|i: int|
                    #[trigger] first_named(self.users@, name_input@, i) ==> bcrypt_verdict(
                        password_input@,
                        self.users@[i].password@,
                    ) != Some(true),
                Err(_) => false,
            },
    {
        let uidx = match self.find_user_by_name(name_input) {
            Some(i) => i,
            None => {
                return Err(AppError::Authentication("unknown user".to_owned()));
            },
        };
        let user = self.users[uidx].clone();
        match bcrypt_verify(password_input, user.password.as_str()) {
            Some(true) => Ok(user),
            Some(false) => Err(AppError::Authentication("wrong password".to_owned())),
            None => Err(AppError::Authentication("malformed stored hash".to_owned())),
        }
    }

    /// Counts the users other than the excluded one.
    pub fn count_users(&self, except_user_id: &str) -> (r: AppResult<i64>)
        requires
            self.users@.len() <= i64::MAX,
        ensures
            r matches Ok(n) && n == self.users@.filter(
                |u: User| u.id@ != except_user_id@,
            ).len(),
    {
        let ghost pred = |u: User| u.id@ != except_user_id@;
        let mut count: usize = 0;
        let mut i: usize = 0;
        proof {
            assert(self.users@.subrange(0, 0).filter(pred) =~= Seq::<User>::empty());
        }
        while i < self.users.len()
            invariant
                i <= self.users@.len(),
                pred == (|u: User| u.id@ != except_user_id@),
                count as int == self.users@.subrange(0, i as int).filter(pred).len(),
                count <= i,
            decreases self.users@.len() - i,
        {
            let ghost prefix = self.users@.subrange(0, i as int);
            proof {
                prefix.lemma_filter_push(self.users@[i as int], pred);
                assert(self.users@.subrange(0, i + 1) =~= prefix.push(self.users@[i as int]));
            }
            if !crate::text::str_eq(self.users[i].id.as_str(), except_user_id) {
                count = count + 1;
            }
            i = i + 1;
        }
        proof {
            assert(self.users@.subrange(0, self.users@.len() as int) =~= self.users@);
            self.users@.lemma_filter_len(pred);
        }
        Ok(count as i64)
    }

    /// Guarantees an administrator account exists: when no user is named
    /// `admin`, one is created with the given ready-hashed password and
    /// a forced password change.
    pub fn ensure_admin_user(&mut self, admin_password_hash: &str, now: &str) -> (r: AppResult<()>)
        requires
            old(self).wf(),
        ensures
            final(self).wf(),
            final(self).products == old(self).products,
            final(self).sales == old(self).sales,
            final(self).sale_items == old(self).sale_items,
            final(self).sale_seq == old(self).sale_seq,
            match r {
                Ok(_) => if exists|i: int|
                    0 <= i < old(self).users@.len() && (#[trigger] old(self).users@[i]).name@
                        == "admin"@ {
                    *final(self) == *old(self)
                } else {
                    &&& final(self).users@.len() == old(self).users@.len() + 1
                    &&& final(self).users@ == old(self).users@.push(final(self).users@.last())
                    &&& final(self).users@.last().name@ == "admin"@
                    &&& final(self).users@.last().role@ == "Admin"@
                    &&& final(self).users@.last().password@ == admin_password_hash@
                    &&& final(self).users@.last().must_change_password == 1
                },
                Err(AppError::Conflict(_)) => !(exists|i: int|
                    0 <= i < old(self).users@.len() && (#[trigger] old(self).users@[i]).name@
                        == "admin"@) && *final(self) == *old(self),
                Err(_) => false,
            },
            // an existing administrator account needs no outside call
            (exists|i: int|
                0 <= i < old(self).users@.len() && (#[trigger] old(self).users@[i]).name@
                    == "admin"@) ==> r is Ok,
    {
        if self.find_user_by_name("admin").is_some() {
            return Ok(());
        }
        match self.create_user("admin", admin_password_hash, "Admin", now) {
            Ok(_) => Ok(()),
            Err(e) => Err(e),
        }
    }
}

/// Position `i` holds the first user carrying this name.
pub open spec fn first_named(users: Seq<User>, name: Seq<char>, i: int) -> bool {
    &&& 0 <= i < users.len()
    &&& users[i].name@ == name
    &&& forall|j: int| 0 <= j < i ==> (#[trigger] users[j]).name@ != name
}

/// The roles a user can be given.
pub fn get_available_roles() -> (r: Vec<String>)
    ensures
        r@.len() == 3,
        r@[0]@ == "admin"@,
        r@[1]@ == "user"@,
        r@[2]@ == "moderator"@,
{
    let mut v: Vec<String> = Vec::new();
    v.push("admin".to_owned());
    v.push("user".to_owned());
    v.push("moderator".to_owned());
    v
}

} // verus!
