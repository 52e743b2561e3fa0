//! Catalog and sale transaction behaviour: scenarios, atomicity, and
//! stock conservation.

use depot_pos::cart::NewSaleState;
use depot_pos::error::AppError;
use depot_pos::money::Money;
use depot_pos::sales::{CreateSaleData, CreateSaleItemData};
use depot_pos::store::Store;

const NOW: &str = "2025-06-22 10:00:00";
const LATER: &str = "2025-06-22 12:00:00";

fn seeded_store() -> (Store, String, String, String) {
    let mut store = Store::new();
    let seller = store
        .create_user("vendeur", "hash-opaque", "user", NOW)
        .expect("create user");
    let a = store
        .create_product(
            "Castel".to_string(),
            "Casier de 12".to_string(),
            5,
            Money::from_units(1000),
            NOW,
        )
        .expect("create product A");
    let b = store
        .create_product(
            "Sprite".to_string(),
            "Casier de 24".to_string(),
            5,
            Money::from_units(500),
            NOW,
        )
        .expect("create product B");
    (store, seller.id, a.id, b.id)
}

#[test]
fn sale_of_two_products_snapshots_prices_and_decrements_stock() {
    let (mut store, seller, a, b) = seeded_store();
    let receipt = store
        .create_sale(
            CreateSaleData {
                user_id: seller,
                items: vec![
                    CreateSaleItemData { product_id: a.clone(), quantity: 2 },
                    CreateSaleItemData { product_id: b.clone(), quantity: 1 },
                ],
            },
            LATER,
        )
        .expect("sale should commit");

    assert_eq!(receipt.total_amount, Money::from_units(2500));
    assert_eq!(receipt.items.len(), 2);
    assert_eq!(receipt.items[0].product_name, "Castel");
    assert_eq!(receipt.items[0].unit_price, Money::from_units(1000));
    assert_eq!(receipt.items[0].total_price, Money::from_units(2000));
    assert_eq!(receipt.date, "22/06/2025 12:00");
    assert_eq!(receipt.seller_name, "vendeur");
    assert_eq!(receipt.sale_number, "VTE-1");

    assert_eq!(store.get_product_by_id(&a).unwrap().stock_in_sale_units, 3);
    assert_eq!(store.get_product_by_id(&b).unwrap().stock_in_sale_units, 4);
    assert_eq!(store.sales.len(), 1);
    assert_eq!(store.sale_items.len(), 2);

    // the committed total is exactly the sum of the line totals
    let committed: i128 = store.sale_items.iter().map(|it| it.total_price.cents).sum();
    assert_eq!(store.sales[0].total_amount.cents, committed);

    // a later catalog price change does not touch the committed snapshot
    store
        .update_product(
            &a,
            "Castel".to_string(),
            "Casier de 12".to_string(),
            3,
            Money::from_units(9999),
            LATER,
        )
        .expect("update");
    assert_eq!(store.sale_items[0].unit_price, Money::from_units(1000));
}

#[test]
fn short_stock_rolls_back_everything() {
    let (mut store, seller, a, _b) = seeded_store();
    store
        .update_product(
            &a,
            "Castel".to_string(),
            "Casier de 12".to_string(),
            1,
            Money::from_units(1000),
            NOW,
        )
        .expect("set stock to 1");

    let r = store.create_sale(
        CreateSaleData {
            user_id: seller,
            items: vec![CreateSaleItemData { product_id: a.clone(), quantity: 2 }],
        },
        LATER,
    );
    match r {
        Err(AppError::InsufficientStock { product_name, requested, available }) => {
            assert_eq!(product_name, "Castel");
            assert_eq!(requested, 2);
            assert_eq!(available, 1);
        }
        other => panic!("expected InsufficientStock, got {:?}", other.map(|_| ())),
    }
    assert_eq!(store.get_product_by_id(&a).unwrap().stock_in_sale_units, 1);
    assert_eq!(store.sales.len(), 0);
    assert_eq!(store.sale_items.len(), 0);
}

#[test]
fn n_plus_one_unit_sales_sell_exactly_the_stock() {
    let (mut store, seller, a, _b) = seeded_store();
    // stock of A is 5: six unit sales must give five successes
    let mut ok = 0;
    let mut short = 0;
    for _ in 0..6 {
        let r = store.create_sale(
            CreateSaleData {
                user_id: seller.clone(),
                items: vec![CreateSaleItemData { product_id: a.clone(), quantity: 1 }],
            },
            LATER,
        );
        match r {
            Ok(_) => ok += 1,
            Err(AppError::InsufficientStock { .. }) => short += 1,
            other => panic!("unexpected outcome {:?}", other.map(|_| ())),
        }
    }
    assert_eq!(ok, 5);
    assert_eq!(short, 1);
    assert_eq!(store.get_product_by_id(&a).unwrap().stock_in_sale_units, 0);
}

#[test]
fn validation_rejects_before_any_effect() {
    let (mut store, seller, a, _b) = seeded_store();
    let r = store.create_sale(
        CreateSaleData { user_id: seller.clone(), items: vec![] },
        LATER,
    );
    assert!(matches!(r, Err(AppError::ValidationError(_))));
    let r = store.create_sale(
        CreateSaleData {
            user_id: seller.clone(),
            items: vec![CreateSaleItemData { product_id: a.clone(), quantity: 0 }],
        },
        LATER,
    );
    assert!(matches!(r, Err(AppError::ValidationError(_))));
    let r = store.create_sale(
        CreateSaleData {
            user_id: seller,
            items: vec![CreateSaleItemData { product_id: a, quantity: 1 }],
        },
        "garbage",
    );
    assert!(matches!(r, Err(AppError::ValidationError(_))));
    assert_eq!(store.sales.len(), 0);
}

#[test]
fn unknown_product_and_seller_are_not_found() {
    let (mut store, seller, _a, _b) = seeded_store();
    let r = store.create_sale(
        CreateSaleData {
            user_id: seller,
            items: vec![CreateSaleItemData { product_id: "nope".to_string(), quantity: 1 }],
        },
        LATER,
    );
    assert!(matches!(r, Err(AppError::NotFound(_))));

    let (mut store2, _seller, a, _b) = seeded_store();
    let r = store2.create_sale(
        CreateSaleData {
            user_id: "ghost".to_string(),
            items: vec![CreateSaleItemData { product_id: a, quantity: 1 }],
        },
        LATER,
    );
    assert!(matches!(r, Err(AppError::NotFound(_))));
}

#[test]
fn create_then_get_product_round_trip() {
    let mut store = Store::new();
    let p = store
        .create_product(
            "Top Grenadine".to_string(),
            "Casier de 12 bouteilles 33cl".to_string(),
            30,
            Money::from_units(5400),
            NOW,
        )
        .expect("create");
    assert_eq!(p.id.len(), 36);
    assert!(p.sku.is_some());
    let q = store.get_product_by_id(&p.id).expect("get");
    assert_eq!(q.id, p.id);
    assert_eq!(q.name, "Top Grenadine");
    assert_eq!(q.packaging_description, "Casier de 12 bouteilles 33cl");
    assert_eq!(q.stock_in_sale_units, 30);
    assert_eq!(q.price_per_sale_unit, Money::from_units(5400));
}

#[test]
fn product_validation_and_delete_rules() {
    let mut store = Store::new();
    assert!(matches!(
        store.create_product("X".to_string(), "Y".to_string(), 1, Money::from_units(0), NOW),
        Err(AppError::ValidationError(_))
    ));
    assert!(matches!(
        store.create_product("X".to_string(), "Y".to_string(), -1, Money::from_units(5), NOW),
        Err(AppError::ValidationError(_))
    ));

    let (mut store, seller, a, b) = seeded_store();
    store
        .create_sale(
            CreateSaleData {
                user_id: seller,
                items: vec![CreateSaleItemData { product_id: a.clone(), quantity: 1 }],
            },
            LATER,
        )
        .expect("sale");
    // a sold product cannot be deleted, an unsold one can
    assert_eq!(store.can_delete_product(&a).unwrap(), false);
    assert!(matches!(store.delete_product(&a), Err(AppError::Conflict(_))));
    assert_eq!(store.can_delete_product(&b).unwrap(), true);
    assert_eq!(store.delete_product(&b).unwrap(), 1);
    assert_eq!(store.delete_product("missing").unwrap(), 0);
}

#[test]
fn atomic_decrement_rules() {
    let (mut store, _seller, a, _b) = seeded_store();
    let p = store.decrement_stock(&a, 3).expect("decrement");
    assert_eq!(p.stock_in_sale_units, 2);
    assert!(matches!(
        store.decrement_stock(&a, 3),
        Err(AppError::InsufficientStock { available: 2, requested: 3, .. })
    ));
    assert!(matches!(store.decrement_stock(&a, -1), Err(AppError::ValidationError(_))));
    assert!(matches!(store.decrement_stock("missing", 1), Err(AppError::NotFound(_))));
    store.decrease_product_stock(&a, 2, LATER).expect("decrease");
    let p = store.get_product_by_id(&a).unwrap();
    assert_eq!(p.stock_in_sale_units, 0);
    assert_eq!(p.updated_at, LATER);
}

#[test]
fn sale_details_are_authorized() {
    let (mut store, seller, a, _b) = seeded_store();
    let other = store.create_user("intrus", "hash", "user", NOW).expect("user");
    store
        .create_sale(
            CreateSaleData {
                user_id: seller.clone(),
                items: vec![CreateSaleItemData { product_id: a, quantity: 1 }],
            },
            LATER,
        )
        .expect("sale");
    let sale_id = store.sales[0].id.clone();

    let d = store.get_sale_details(&sale_id, &seller, false).expect("owner may see it");
    assert_eq!(d.items.len(), 1);
    assert_eq!(d.seller_name, "vendeur");
    assert!(matches!(
        store.get_sale_details(&sale_id, &other.id, false),
        Err(AppError::Unauthorized(_))
    ));
    assert!(store.get_sale_details(&sale_id, &other.id, true).is_ok());
    assert!(matches!(
        store.get_sale_details("missing", &seller, true),
        Err(AppError::NotFound(_))
    ));
}

#[test]
fn regenerated_receipt_uses_stored_snapshots() {
    let (mut store, seller, a, _b) = seeded_store();
    store
        .create_sale(
            CreateSaleData {
                user_id: seller,
                items: vec![CreateSaleItemData { product_id: a.clone(), quantity: 2 }],
            },
            LATER,
        )
        .expect("sale");
    let sale_id = store.sales[0].id.clone();
    store
        .update_product(
            &a,
            "Castel".to_string(),
            "Casier de 12".to_string(),
            3,
            Money::from_units(8888),
            LATER,
        )
        .expect("reprice");
    let receipt = store.generate_receipt(&sale_id).expect("receipt");
    assert_eq!(receipt.items[0].unit_price, Money::from_units(1000));
    assert_eq!(receipt.total_amount, Money::from_units(2000));
    assert!(matches!(store.generate_receipt("missing"), Err(AppError::NotFound(_))));
}

#[test]
fn sale_numbers_count_up() {
    let (mut store, seller, a, _b) = seeded_store();
    assert_eq!(store.generate_sale_number(), "VTE-1");
    for k in 1..=2 {
        let r = store
            .create_sale(
                CreateSaleData {
                    user_id: seller.clone(),
                    items: vec![CreateSaleItemData { product_id: a.clone(), quantity: 1 }],
                },
                LATER,
            )
            .expect("sale");
        assert_eq!(r.sale_number, format!("VTE-{}", k));
    }
    assert_eq!(store.generate_sale_number(), "VTE-3");
}

#[test]
fn sku_has_uppercased_parts_and_unique_tail() {
    let mut store = Store::new();
    let p = store
        .create_product(
            "Castel Beer".to_string(),
            "Casier de 12".to_string(),
            1,
            Money::from_units(1),
            NOW,
        )
        .expect("create");
    let sku = p.sku.unwrap();
    assert!(sku.starts_with("CAST-CD1-"), "sku was {}", sku);
    assert_eq!(sku.len(), "CAST-CD1-".len() + 6);
}

#[test]
fn create_sale_now_stamps_the_clock() {
    let (mut store, seller, a, _b) = seeded_store();
    let receipt = store
        .create_sale_now(CreateSaleData {
            user_id: seller,
            items: vec![CreateSaleItemData { product_id: a, quantity: 1 }],
        })
        .expect("sale with wall clock");
    assert_eq!(receipt.items.len(), 1);
    assert_eq!(store.sales.len(), 1);
}

#[test]
fn error_kinds_have_labels() {
    assert_eq!(AppError::ValidationError("x".to_string()).kind_label(), "validation");
    assert_eq!(AppError::NotFound("x".to_string()).kind_label(), "not_found");
    assert_eq!(AppError::Conflict("x".to_string()).kind_label(), "conflict");
    assert_eq!(
        AppError::InsufficientStock {
            product_name: "p".to_string(),
            requested: 2,
            available: 1
        }
        .kind_label(),
        "insufficient_stock"
    );
}

#[test]
fn cart_total_follows_the_lines() {
    let mut cart = NewSaleState::new();
    cart.add_item(
        "p1".to_string(),
        "Castel".to_string(),
        Money::from_units(1000),
        2,
        "Casier de 12".to_string(),
    )
    .expect("add");
    cart.add_item(
        "p2".to_string(),
        "Sprite".to_string(),
        Money::from_units(500),
        1,
        "Casier de 24".to_string(),
    )
    .expect("add");
    assert_eq!(cart.total_amount, Money::from_units(2500));

    // adding the same product again merges the lines
    cart.add_item(
        "p1".to_string(),
        "Castel".to_string(),
        Money::from_units(1000),
        1,
        "Casier de 12".to_string(),
    )
    .expect("merge");
    assert_eq!(cart.cart_items.len(), 2);
    assert_eq!(cart.total_amount, Money::from_units(3500));

    cart.update_quantity("p1", 1).expect("update");
    assert_eq!(cart.total_amount, Money::from_units(1500));
    assert!(cart.update_quantity("p1", 0).is_err());

    cart.remove_item("p2").expect("remove");
    assert_eq!(cart.total_amount, Money::from_units(1000));

    let lines = cart.to_sale_items();
    assert_eq!(lines.len(), 1);
    assert_eq!(lines[0].product_id, "p1");
    assert_eq!(lines[0].quantity, 1);

    cart.clear_cart();
    assert_eq!(cart.cart_items.len(), 0);
    assert_eq!(cart.total_amount, Money::from_units(0));
}

#[test]
fn sku_filters_non_alphanumerics_and_ids_are_fresh() {
    let mut store = Store::new();
    let p = store
        .create_product(
            "A-B1 X".to_string(),
            "caisse verte".to_string(),
            1,
            Money::from_units(1),
            NOW,
        )
        .expect("create");
    // the dash is not alphanumeric, so the name part is AB1X
    assert!(p.sku.clone().unwrap().starts_with("AB1X-CV-"), "sku was {:?}", p.sku);
    let q = store
        .create_product(
            "A-B1 X".to_string(),
            "caisse verte".to_string(),
            1,
            Money::from_units(1),
            NOW,
        )
        .expect("create twin");
    // generated identifiers never collide in practice
    assert_ne!(p.id, q.id);
    assert_eq!(store.products.len(), 2);
}
