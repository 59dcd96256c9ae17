use rusty_store::catalog::{Inventory, InventoryError};
use rusty_store::ledger::{total_of, Ledger};

#[test]
fn test_sales_and_purchase() {
    let mut inv = Inventory::new();
    inv.add("item2".into(), "d".into(), 500, 10).unwrap();
    let mut ledger = Ledger::new();
    let sale = ledger.record_sale(&mut inv, "item2", 4, 600).unwrap();
    assert_eq!(sale.total, 2400);
    assert_eq!(inv.get("item2").unwrap().quantity, 6);
    let purchase = ledger.record_purchase(&mut inv, "item2", 5, 400);
    assert_eq!(purchase.total, 2000);
    assert_eq!(inv.get("item2").unwrap().quantity, 11);
}

#[test]
fn sale_scenario_and_insufficient_stock() {
    let mut inv = Inventory::new();
    inv.add("widget".into(), "a widget".into(), 1000, 10).unwrap();
    let mut ledger = Ledger::new();
    let sale = ledger.record_sale(&mut inv, "widget", 4, 600).unwrap();
    assert_eq!(sale.product_name, "widget");
    assert_eq!(sale.quantity, 4);
    assert_eq!(sale.sale_price, 600);
    assert_eq!(sale.total, 2400);
    assert_eq!(inv.get("widget").unwrap().quantity, 6);
    assert_eq!(
        ledger.record_sale(&mut inv, "widget", 100, 600).err(),
        Some(InventoryError::InsufficientStock)
    );
    assert_eq!(inv.get("widget").unwrap().quantity, 6);
    assert_eq!(ledger.sales_report().len(), 1);
}

#[test]
fn sale_of_unknown_product_is_not_found() {
    let mut inv = Inventory::new();
    let mut ledger = Ledger::new();
    assert_eq!(
        ledger.record_sale(&mut inv, "ghost", 1, 100).err(),
        Some(InventoryError::NotFound)
    );
    assert!(ledger.sales_report().is_empty());
    assert!(inv.list().is_empty());
}

#[test]
fn sale_of_whole_stock_leaves_zero() {
    let mut inv = Inventory::new();
    inv.add("widget".into(), "".into(), 1000, 3).unwrap();
    let mut ledger = Ledger::new();
    assert!(ledger.record_sale(&mut inv, "widget", 3, 1).is_ok());
    assert_eq!(inv.get("widget").unwrap().quantity, 0);
    assert_eq!(
        ledger.record_sale(&mut inv, "widget", 1, 1).err(),
        Some(InventoryError::InsufficientStock)
    );
}

#[test]
fn purchase_of_unknown_product_creates_it() {
    let mut inv = Inventory::new();
    let mut ledger = Ledger::new();
    let tx = ledger.record_purchase(&mut inv, "gadget", 5, 400);
    assert_eq!(tx.product_name, "gadget");
    assert_eq!(tx.quantity, 5);
    assert_eq!(tx.purchase_price, 400);
    assert_eq!(tx.total, 2000);
    let p = inv.get("gadget").unwrap();
    assert_eq!(p.name, "gadget");
    assert_eq!(p.price, 400);
    assert_eq!(p.quantity, 5);
    assert_eq!(p.description, "");
}

#[test]
fn purchase_of_known_product_keeps_price_and_description() {
    let mut inv = Inventory::new();
    inv.add("widget".into(), "a widget".into(), 1000, 2).unwrap();
    let mut ledger = Ledger::new();
    ledger.record_purchase(&mut inv, "widget", 3, 700);
    let p = inv.get("widget").unwrap();
    assert_eq!(p.quantity, 5);
    assert_eq!(p.price, 1000);
    assert_eq!(p.description, "a widget");
}

#[test]
fn reports_keep_call_order() {
    let mut inv = Inventory::new();
    let mut ledger = Ledger::new();
    ledger.record_purchase(&mut inv, "a", 10, 100);
    ledger.record_purchase(&mut inv, "b", 20, 200);
    ledger.record_sale(&mut inv, "b", 1, 300).unwrap();
    ledger.record_sale(&mut inv, "a", 2, 150).unwrap();
    assert!(ledger.record_sale(&mut inv, "a", 50, 150).is_err());
    let purchases = ledger.purchase_report();
    assert_eq!(purchases.len(), 2);
    assert_eq!(purchases[0].product_name, "a");
    assert_eq!(purchases[1].product_name, "b");
    assert_eq!(purchases[1].total, 4000);
    let sales = ledger.sales_report();
    assert_eq!(sales.len(), 2);
    assert_eq!(sales[0].product_name, "b");
    assert_eq!(sales[0].total, 300);
    assert_eq!(sales[1].product_name, "a");
    assert_eq!(sales[1].total, 300);
}

#[test]
fn totals_are_exact_at_the_largest_values() {
    assert_eq!(total_of(0, 5), 0);
    assert_eq!(total_of(7, 6), 42);
    assert_eq!(
        total_of(u64::MAX, u32::MAX),
        (u64::MAX as u128) * (u32::MAX as u128)
    );
}
