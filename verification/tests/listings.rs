//! Listing behaviour: filters, sorting, pagination, user management,
//! dashboard figures and report aggregation.

use depot_pos::catalog::{ProductSearchParams, SortFieldProduct, StockFilter};
use depot_pos::error::AppError;
use depot_pos::money::Money;
use depot_pos::query::{PaginatedList, PaginatedResult, Pagination, SortOrder};
use depot_pos::sales::{
    create_search_params_for_user, CreateSaleData, CreateSaleItemData, DateFilter,
    SaleSearchParams, SortFieldSale,
};
use depot_pos::store::Store;
use depot_pos::users::{UserFilter, UserPagination, UserSortBy};

const NOW: &str = "2025-06-22 10:00:00";

fn catalog_store() -> Store {
    let mut store = Store::new();
    let rows = [
        ("Coca-Cola", "Casier de 24 bouteilles 33cl", 40, 7200),
        ("Cola Light", "Casier de 24", 0, 7200),
        ("Fanta", "Casier cola mix", 35, 7200),
        ("Castel", "Casier de 12", 25, 9600),
        ("Sprite", "Casier de 24", 25, 7200),
    ];
    for (name, packaging, stock, price) in rows {
        store
            .create_product(
                name.to_string(),
                packaging.to_string(),
                stock,
                Money::from_units(price),
                NOW,
            )
            .expect("create");
    }
    store
}

#[test]
fn search_is_case_insensitive_and_checks_both_text_fields() {
    let store = catalog_store();
    let params = ProductSearchParams::new()
        .with_search(Some("cola".to_string()))
        .with_stock_filter(StockFilter::InStock)
        .with_sort(SortFieldProduct::Name, SortOrder::Asc)
        .with_pagination(1, 10);
    let page = store.get_products_paginated(params).expect("list");
    // Cola Light is out of stock; Fanta matches on its packaging text
    let names: Vec<&str> = page.products.iter().map(|p| p.name.as_str()).collect();
    assert_eq!(names, vec!["Coca-Cola", "Fanta"]);
    assert_eq!(page.total_count, 2);
    assert_eq!(page.total_pages, 1);
}

#[test]
fn blank_search_is_ignored() {
    let store = catalog_store();
    let params = ProductSearchParams::new().with_search(Some("   ".to_string()));
    let page = store.get_products_paginated(params).expect("list");
    assert_eq!(page.total_count, 5);
}

#[test]
fn pagination_is_stable_and_partitions_the_rows() {
    let store = catalog_store();
    let all_params = || {
        ProductSearchParams::new()
            .with_sort(SortFieldProduct::Name, SortOrder::Asc)
            .with_pagination(1, 100)
    };
    let everything = store.get_products_paginated(all_params()).expect("list");
    assert_eq!(everything.products.len(), 5);

    // two identical calls return identical ordered results
    let again = store.get_products_paginated(all_params()).expect("list");
    let names =
        |v: &Vec<depot_pos::store::Product>| v.iter().map(|p| p.id.clone()).collect::<Vec<_>>();
    assert_eq!(names(&everything.products), names(&again.products));

    // pages of two partition the five rows: no overlap, nothing skipped
    let mut seen: Vec<String> = Vec::new();
    for page_no in 1..=3 {
        let p = store
            .get_products_paginated(
                ProductSearchParams::new()
                    .with_sort(SortFieldProduct::Name, SortOrder::Asc)
                    .with_pagination(page_no, 2),
            )
            .expect("page");
        assert_eq!(p.total_pages, 3);
        for prod in &p.products {
            assert!(!seen.contains(&prod.id), "row repeated across pages");
            seen.push(prod.id.clone());
        }
    }
    assert_eq!(seen.len(), 5);
    for p in &everything.products {
        assert!(seen.contains(&p.id), "row skipped across pages");
    }

    // a page past the end is empty, with the same page count
    let beyond = store
        .get_products_paginated(
            ProductSearchParams::new()
                .with_sort(SortFieldProduct::Name, SortOrder::Asc)
                .with_pagination(9, 2),
        )
        .expect("page");
    assert_eq!(beyond.products.len(), 0);
    assert_eq!(beyond.total_pages, 3);
    assert_eq!(beyond.total_count, 5);
}

#[test]
fn sorting_by_stock_price_and_direction() {
    let store = catalog_store();
    let page = store
        .get_products_paginated(
            ProductSearchParams::new()
                .with_sort(SortFieldProduct::Stock, SortOrder::Desc)
                .with_pagination(1, 2),
        )
        .expect("list");
    assert_eq!(page.products[0].stock_in_sale_units, 40);
    let page = store
        .get_products_paginated(
            ProductSearchParams::new()
                .with_sort(SortFieldProduct::Price, SortOrder::Desc)
                .with_pagination(1, 1),
        )
        .expect("list");
    assert_eq!(page.products[0].name, "Castel");
}

#[test]
fn available_products_have_stock_sorted_by_name() {
    let store = catalog_store();
    let avail = store.get_available_products().expect("list");
    let names: Vec<&str> = avail.iter().map(|p| p.name.as_str()).collect();
    assert_eq!(names, vec!["Castel", "Coca-Cola", "Fanta", "Sprite"]);
}

#[test]
fn page_bounds_are_clamped() {
    let store = catalog_store();
    let page = store
        .get_products_paginated(ProductSearchParams::new().with_pagination(-3, 1000))
        .expect("list");
    assert_eq!(page.page, 1);
    assert_eq!(page.page_size, 100);
    let d = ProductSearchParams::default();
    assert_eq!(d.page, 1);
    assert_eq!(d.page_size, 10);
    let p = Pagination::default();
    assert_eq!(p.page, 1);
    assert_eq!(p.per_page, 10);
}

#[test]
fn paginated_list_metadata() {
    let list: PaginatedList<u32> = PaginatedResult::new(vec![1, 2, 3], 7, 2, 3);
    assert_eq!(PaginatedResult::<u32>::total_pages(&list), 3);
    assert!(PaginatedResult::<u32>::has_previous(&list));
    assert!(PaginatedResult::<u32>::has_next(&list));
}

fn ledger_store() -> (Store, String, String) {
    let mut store = catalog_store();
    let alice = store.create_user("Alice", "hash", "user", NOW).expect("user");
    let bob = store.create_user("Bob", "hash", "user", NOW).expect("user");
    let a = store.get_available_products().expect("list")[0].id.clone();
    for (who, day) in [
        (&alice.id, "2025-06-22 09:00:00"),
        (&alice.id, "2025-06-20 09:00:00"),
        (&bob.id, "2025-05-01 09:00:00"),
    ] {
        store
            .create_sale(
                CreateSaleData {
                    user_id: who.clone(),
                    items: vec![CreateSaleItemData { product_id: a.clone(), quantity: 1 }],
                },
                day,
            )
            .expect("sale");
    }
    (store, alice.id, bob.id)
}

#[test]
fn sales_listing_filters_by_user_search_and_date() {
    let (store, alice, _bob) = ledger_store();
    let all = store
        .get_sales_paginated(SaleSearchParams::default(), NOW)
        .expect("list");
    assert_eq!(all.total_count, 3);
    // newest first by default
    assert_eq!(all.sales[0].sale.date, "2025-06-22 09:00:00");
    assert_eq!(all.sales[0].items_count, 1);

    let mine = create_search_params_for_user(SaleSearchParams::default(), alice.clone(), false);
    let mine = store.get_sales_paginated(mine, NOW).expect("list");
    assert_eq!(mine.total_count, 2);

    let today = SaleSearchParams { date_filter: DateFilter::Today, ..SaleSearchParams::default() };
    assert_eq!(store.get_sales_paginated(today, NOW).expect("list").total_count, 1);
    let week = SaleSearchParams { date_filter: DateFilter::Week, ..SaleSearchParams::default() };
    assert_eq!(store.get_sales_paginated(week, NOW).expect("list").total_count, 2);
    let month = SaleSearchParams { date_filter: DateFilter::Month, ..SaleSearchParams::default() };
    assert_eq!(store.get_sales_paginated(month, NOW).expect("list").total_count, 2);

    // the search term matches the seller name too
    let by_name = SaleSearchParams {
        search_query: Some("bob".to_string()),
        ..SaleSearchParams::default()
    };
    assert_eq!(store.get_sales_paginated(by_name, NOW).expect("list").total_count, 1);
    let by_number = SaleSearchParams {
        search_query: Some("VTE-1".to_string()),
        ..SaleSearchParams::default()
    };
    assert_eq!(store.get_sales_paginated(by_number, NOW).expect("list").total_count, 1);

    let by_amount = SaleSearchParams {
        sort_by: SortFieldSale::Amount,
        sort_order: SortOrder::Asc,
        ..SaleSearchParams::default()
    };
    assert!(store.get_sales_paginated(by_amount, NOW).is_ok());
    assert!(store.get_sales_paginated(SaleSearchParams::default(), "junk").is_err());
}

#[test]
fn user_management_flow() {
    let mut store = Store::new();
    let u = store.create_user("Carol", "hash0", "admin", NOW).expect("create");
    assert_eq!(u.must_change_password, 1);
    assert_eq!(store.get_user_by_id(&u.id).unwrap().name, "Carol");
    assert!(matches!(store.get_user_by_id("none"), Err(AppError::NotFound(_))));

    let u2 = store.update_user_info(&u.id, "Caroline", "user", NOW).expect("update");
    assert_eq!(u2.name, "Caroline");
    assert_eq!(u2.role, "user");

    store.update_user_password(&u.id, "hash1").expect("password");
    assert_eq!(store.get_user_by_id(&u.id).unwrap().must_change_password, 0);
    assert!(!store.get_user_by_id(&u.id).unwrap().must_change_password_as_bool());

    let temp = store.reset_user_password(&u.id, NOW).expect("reset");
    assert_eq!(temp.len(), 12);
    assert!(temp.chars().all(|c| c.is_ascii_alphanumeric()));
    let after = store.get_user_by_id(&u.id).unwrap();
    assert_eq!(after.must_change_password, 1);
    assert_ne!(after.password, "hash1");
    // the stored hash verifies against the returned temporary password
    assert!(bcrypt::verify(&temp, &after.password).unwrap());

    assert_eq!(store.count_users("other").unwrap(), 1);
    assert_eq!(store.count_users(&u.id).unwrap(), 0);
    assert_eq!(store.delete_user(&u.id).unwrap(), 1);
    assert_eq!(store.delete_user(&u.id).unwrap(), 0);
}

#[test]
fn authentication_against_stored_hash() {
    let mut store = Store::new();
    let hash = bcrypt::hash("s3cret", 4).expect("hash");
    store.create_user("Dora", &hash, "user", NOW).expect("create");
    let u = store.authenticate("Dora", "s3cret").expect("login");
    assert_eq!(u.name, "Dora");
    assert!(matches!(
        store.authenticate("Dora", "wrong"),
        Err(AppError::Authentication(_))
    ));
    assert!(matches!(
        store.authenticate("Nobody", "s3cret"),
        Err(AppError::Authentication(_))
    ));
}

#[test]
fn admin_account_is_ensured_once() {
    let mut store = Store::new();
    store.ensure_admin_user("admin-hash", NOW).expect("ensure");
    assert_eq!(store.users.len(), 1);
    assert_eq!(store.users[0].name, "admin");
    assert_eq!(store.users[0].role, "Admin");
    store.ensure_admin_user("other-hash", NOW).expect("ensure again");
    assert_eq!(store.users.len(), 1);
    assert_eq!(store.users[0].password, "admin-hash");
}

#[test]
fn user_listing_filters_and_sorts() {
    let mut store = Store::new();
    let me = store.create_user("Zoe", "h", "admin", NOW).expect("u");
    store.create_user("Anna", "h", "user", NOW).expect("u");
    store.create_user("Bert", "h", "moderator", NOW).expect("u");
    store.create_user("Cleo", "h", "user", NOW).expect("u");

    let all = store
        .get_users_paginated(&me.id, UserFilter::default(), UserPagination::default())
        .expect("list");
    assert_eq!(all.total_count, 3);
    assert_eq!(all.users[0].name, "Anna");

    let users_only = UserFilter {
        role_filter: Some("user".to_string()),
        ..UserFilter::default()
    };
    let page = store
        .get_users_paginated(&me.id, users_only, UserPagination::default())
        .expect("list");
    assert_eq!(page.total_count, 2);

    let searched = UserFilter {
        search_term: Some("ert".to_string()),
        ..UserFilter::default()
    };
    let page = store
        .get_users_paginated(&me.id, searched, UserPagination::default())
        .expect("list");
    assert_eq!(page.total_count, 1);
    assert_eq!(page.users[0].name, "Bert");

    let by_role_desc = UserFilter {
        sort_by: UserSortBy::Role,
        sort_order: SortOrder::Desc,
        ..UserFilter::default()
    };
    let page = store
        .get_users_paginated(&me.id, by_role_desc, UserPagination::default())
        .expect("list");
    assert_eq!(page.users[0].role, "user");

    let everyone = store.get_all_users(&me.id).expect("all");
    assert_eq!(everyone.len(), 3);
    assert_eq!(everyone[0].name, "Anna");

    let roles = depot_pos::users::get_available_roles();
    assert_eq!(roles, vec!["admin", "user", "moderator"]);
}

#[test]
fn dashboard_summary_and_low_stock() {
    let (store, _alice, _bob) = ledger_store();
    let (revenue, count) = store.get_today_sales_summary(NOW).expect("summary");
    // one sale today, one unit of the cheapest in-stock product by name
    assert_eq!(count, 1);
    assert!(revenue.is_positive());
    assert!(store.get_today_sales_summary("junk").is_err());

    let low = store.get_low_stock_products(25).expect("low");
    let names: Vec<&str> = low.iter().map(|p| p.name.as_str()).collect();
    assert_eq!(names[0], "Cola Light");
    assert_eq!(names.len(), 3);
}

#[test]
fn report_aggregates_revenue_and_top_products() {
    let mut store = catalog_store();
    let u = store.create_user("Eve", "h", "user", NOW).expect("u");
    let products = store.get_available_products().expect("list");
    let castel = products.iter().find(|p| p.name == "Castel").unwrap().id.clone();
    let coca = products.iter().find(|p| p.name == "Coca-Cola").unwrap().id.clone();
    store
        .create_sale(
            CreateSaleData {
                user_id: u.id.clone(),
                items: vec![
                    CreateSaleItemData { product_id: castel.clone(), quantity: 5 },
                    CreateSaleItemData { product_id: coca.clone(), quantity: 2 },
                ],
            },
            "2025-06-10 09:00:00",
        )
        .expect("sale");
    store
        .create_sale(
            CreateSaleData {
                user_id: u.id,
                items: vec![CreateSaleItemData { product_id: coca.clone(), quantity: 4 }],
            },
            "2025-06-11 09:00:00",
        )
        .expect("sale");

    let rd = store
        .get_report_data("2025-06-01 00:00:00", "2025-06-30 23:59:59")
        .expect("report");
    assert_eq!(rd.total_sales, 2);
    // 5 x 9600 + 6 x 7200 = 91200
    assert_eq!(rd.total_revenue, Money::from_units(91200));
    assert_eq!(rd.top_products.len(), 2);
    assert_eq!(rd.top_products[0].0.name, "Coca-Cola");
    assert_eq!(rd.top_products[0].1, 6);
    assert_eq!(rd.top_products[1].0.name, "Castel");
    assert_eq!(rd.top_products[1].1, 5);

    // a window with no sales
    let rd = store
        .get_report_data("2024-01-01 00:00:00", "2024-01-31 23:59:59")
        .expect("report");
    assert_eq!(rd.total_sales, 0);
    assert_eq!(rd.top_products.len(), 0);
    assert!(store.get_report_data("junk", "junk").is_err());
}

#[test]
fn role_filter_all_and_blank_are_ignored() {
    let mut store = Store::new();
    let me = store.create_user("Root", "h", "admin", NOW).expect("u");
    store.create_user("Anna", "h", "user", NOW).expect("u");
    store.create_user("Bert", "h", "moderator", NOW).expect("u");
    for role in ["all", "  ", ""] {
        let f = UserFilter {
            role_filter: Some(role.to_string()),
            ..UserFilter::default()
        };
        let page = store
            .get_users_paginated(&me.id, f, UserPagination::default())
            .expect("list");
        assert_eq!(page.total_count, 2, "role filter {:?} should list everyone", role);
    }
}

#[test]
fn equal_sort_keys_fall_back_to_the_identifier() {
    let mut store = Store::new();
    let mut ids: Vec<String> = Vec::new();
    for _ in 0..4 {
        let p = store
            .create_product(
                "Jumeau".to_string(),
                "Casier".to_string(),
                1,
                Money::from_units(100),
                NOW,
            )
            .expect("create");
        ids.push(p.id);
    }
    ids.sort();
    let page = store
        .get_products_paginated(
            ProductSearchParams::new()
                .with_sort(SortFieldProduct::Name, SortOrder::Asc)
                .with_pagination(1, 10),
        )
        .expect("list");
    let listed: Vec<String> = page.products.iter().map(|p| p.id.clone()).collect();
    assert_eq!(listed, ids, "equal names must come back in identifier order");
}
