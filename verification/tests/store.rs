use order_ledger::cooking::{
    initial_cook_time, scale_down_on_quantity_decrease, scale_up_on_quantity_increase,
};
use order_ledger::models::{LedgerError, Menu, OrderItem, OrderResponse, Outcome, Table};
use order_ledger::store::listing::get_current_state;
use order_ledger::store::snapshot::Snapshot;
use order_ledger::store::{ItemRow, OrderRow, Store};

fn seeded() -> Store {
    let mut store = Store::new();
    for code in ["T-01", "T-02"] {
        Table::create(&mut store, &Table { id: 0, code: code.to_string() }).unwrap();
    }
    for name in ["M-01", "M-02", "M-03"] {
        Menu::create(&mut store, &Menu { id: 0, name: name.to_string() }).unwrap();
    }
    store
}

#[test]
fn scale_up_truncates_the_unit_time() {
    assert_eq!(scale_up_on_quantity_increase(7, 1), 14);
    assert_eq!(scale_up_on_quantity_increase(13, 2), 18);
    assert_eq!(scale_up_on_quantity_increase(0, 5), 0);
    assert_eq!(scale_up_on_quantity_increase(2, 3), 0);
}

#[test]
fn scale_down_takes_off_the_truncated_unit_time() {
    assert_eq!(scale_down_on_quantity_decrease(14, 2), 7);
    assert_eq!(scale_down_on_quantity_decrease(13, 2), 7);
    assert_eq!(scale_down_on_quantity_decrease(18, 3), 12);
    assert_eq!(scale_down_on_quantity_decrease(2, 3), 2);
}

#[test]
fn initial_cook_time_stays_in_range_and_varies() {
    let mut seen = [false; 16];
    for _ in 0..600 {
        let time = initial_cook_time();
        assert!((5..=15).contains(&time));
        seen[time as usize] = true;
    }
    assert!(seen.iter().filter(|hit| **hit).count() > 1);
}

#[test]
fn item_creation_checks_its_references() {
    let mut store = seeded();
    assert_eq!(OrderItem::create(&mut store, 1, 1, 6), Err(LedgerError::ConstraintViolation));
    assert_eq!(OrderResponse::create(&mut store, 7), Err(LedgerError::ConstraintViolation));
    assert_eq!(OrderResponse::create(&mut store, 1), Ok(1));
    assert_eq!(OrderResponse::create(&mut store, 1), Err(LedgerError::ConstraintViolation));
    assert_eq!(OrderItem::create(&mut store, 1, 9, 6), Err(LedgerError::ConstraintViolation));
    assert_eq!(OrderItem::create(&mut store, 1, 1, -1), Err(LedgerError::ConstraintViolation));
    assert_eq!(
        OrderItem::create(&mut store, 1, 1, 2147483648),
        Err(LedgerError::ConstraintViolation)
    );
    assert_eq!(OrderItem::create(&mut store, 1, 1, 6), Ok(1));
    assert_eq!(OrderItem::create(&mut store, 1, 1, 6), Err(LedgerError::ConstraintViolation));
    assert_eq!(OrderItem::create(&mut store, 1, 2, 0), Ok(2));
    assert_eq!(OrderItem::get_existing_order_item_id(&store, 1, 2), Some(2));
    assert_eq!(OrderItem::get_existing_order_item_id(&store, 1, 3), None);
    assert_eq!(OrderItem::get_existing_order_item_id(&store, 2, 1), None);
}

#[test]
fn increment_doubles_its_effect_when_called_twice() {
    let mut store = seeded();
    OrderResponse::create(&mut store, 1).unwrap();
    let id = OrderItem::create(&mut store, 1, 1, 7).unwrap();
    assert_eq!(OrderItem::add_quantity_of_existing_order_item(&mut store, id), Ok(true));
    assert_eq!(OrderItem::add_quantity_of_existing_order_item(&mut store, id), Ok(true));
    let item = OrderItem::get_item(&store, 1, 1).unwrap();
    assert_eq!((item.quantity, item.cooking_time), (3, 21));
    assert_eq!(OrderItem::add_quantity_of_existing_order_item(&mut store, 55), Ok(false));
}

#[test]
fn decrement_shrinks_then_removes() {
    let mut store = seeded();
    OrderResponse::create(&mut store, 1).unwrap();
    let id = OrderItem::create(&mut store, 1, 1, 9).unwrap();
    OrderItem::add_quantity_of_existing_order_item(&mut store, id).unwrap();
    assert_eq!(OrderItem::decrement_or_remove(&mut store, 1, 1), Outcome::QuantityReduced);
    let item = OrderItem::get_item(&store, 1, 1).unwrap();
    assert_eq!((item.quantity, item.cooking_time), (1, 9));
    assert_eq!(OrderItem::decrement_or_remove(&mut store, 1, 1), Outcome::ItemRemoved);
    assert_eq!(OrderItem::get_item(&store, 1, 1), None);
    assert_eq!(OrderItem::decrement_or_remove(&mut store, 1, 1), Outcome::ItemRemoved);
    assert!(!OrderResponse::has_items(&store, 1));
}

#[test]
fn order_is_deleted_only_when_empty() {
    let mut store = seeded();
    OrderResponse::create(&mut store, 2).unwrap();
    OrderItem::create(&mut store, 1, 3, 5).unwrap();
    assert!(OrderResponse::has_items(&store, 1));
    assert_eq!(OrderResponse::delete(&mut store, 1), Err(LedgerError::ConstraintViolation));
    assert_eq!(OrderItem::decrement_or_remove(&mut store, 1, 3), Outcome::ItemRemoved);
    assert_eq!(OrderResponse::delete(&mut store, 1), Ok(true));
    assert_eq!(OrderResponse::delete(&mut store, 1), Ok(false));
    assert_eq!(OrderResponse::get_existing_order_id(&store, 2), None);
}

#[test]
fn total_cooking_time_sums_one_order_only() {
    let mut store = seeded();
    OrderResponse::create(&mut store, 1).unwrap();
    OrderResponse::create(&mut store, 2).unwrap();
    OrderItem::create(&mut store, 1, 1, 6).unwrap();
    OrderItem::create(&mut store, 2, 1, 100).unwrap();
    OrderItem::create(&mut store, 1, 2, 7).unwrap();
    assert_eq!(OrderResponse::calculate_total_cooking_time(&store, 1), Ok(13));
    assert_eq!(OrderResponse::calculate_total_cooking_time(&store, 2), Ok(100));
    assert_eq!(OrderResponse::calculate_total_cooking_time(&store, 3), Ok(0));
}

#[test]
fn total_that_does_not_fit_is_reported() {
    let mut store = seeded();
    OrderResponse::create(&mut store, 1).unwrap();
    OrderItem::create(&mut store, 1, 1, 2147483647).unwrap();
    assert_eq!(OrderResponse::calculate_total_cooking_time(&store, 1), Ok(2147483647));
    OrderItem::create(&mut store, 1, 2, 1).unwrap();
    assert_eq!(
        OrderResponse::calculate_total_cooking_time(&store, 1),
        Err(LedgerError::StoreUnavailable)
    );
    assert_eq!(OrderResponse::list(&store), Err(LedgerError::StoreUnavailable));
    assert_eq!(get_current_state(&store), Err(LedgerError::StoreUnavailable));
}

#[test]
fn orders_are_listed_with_table_code_items_and_total() {
    let mut store = seeded();
    OrderResponse::create(&mut store, 2).unwrap();
    OrderItem::create(&mut store, 1, 3, 6).unwrap();
    OrderItem::create(&mut store, 1, 1, 9).unwrap();
    let orders = OrderResponse::list(&store).unwrap();
    assert_eq!(orders.len(), 1);
    assert_eq!((orders[0].id, orders[0].table_id), (1, 2));
    assert_eq!(orders[0].table_name, "T-02");
    assert_eq!(orders[0].total_cooking_time, 15);
    assert_eq!(orders[0].menus.len(), 2);
    assert_eq!(orders[0].menus[0].menu_name, "M-03");
    assert_eq!(orders[0].menus[1].menu_name, "M-01");
    let state = get_current_state(&store).unwrap();
    assert_eq!(state.tables.len(), 2);
    assert_eq!(state.menus.len(), 3);
    assert_eq!(state.orders, orders);
    assert_eq!(state.tables[1].code, "T-02");
}

#[test]
fn snapshot_round_trips() {
    let mut store = seeded();
    OrderResponse::create(&mut store, 1).unwrap();
    OrderItem::create(&mut store, 1, 2, 8).unwrap();
    let snapshot = store.snapshot();
    assert_eq!(snapshot.orders, vec![OrderRow { id: 1, table_id: 1 }]);
    assert_eq!(
        snapshot.items,
        vec![ItemRow { id: 1, order_id: 1, menu_id: 2, cooking_time: 8, quantity: 1 }]
    );
    assert_eq!(
        (
            snapshot.next_table_id,
            snapshot.next_menu_id,
            snapshot.next_order_id,
            snapshot.next_item_id
        ),
        (3, 4, 2, 2)
    );
    let again = Store::load(snapshot.clone()).unwrap();
    assert_eq!(again.snapshot(), snapshot);
}

fn refused(change: fn(&mut Snapshot)) -> bool {
    let mut store = seeded();
    OrderResponse::create(&mut store, 1).unwrap();
    OrderItem::create(&mut store, 1, 2, 8).unwrap();
    let mut snapshot = store.snapshot();
    change(&mut snapshot);
    match Store::load(snapshot) {
        Ok(_) => false,
        Err(e) => e == LedgerError::ConstraintViolation,
    }
}

#[test]
fn load_refuses_rows_that_break_a_constraint() {
    assert!(!refused(|_| {}));
    assert!(refused(|s| s.orders.push(OrderRow { id: 2, table_id: 1 })));
    assert!(refused(|s| s.orders.push(OrderRow { id: 1, table_id: 2 })));
    assert!(refused(|s| s.orders.push(OrderRow { id: 2, table_id: 9 })));
    assert!(refused(|s| s.next_order_id = 1));
    assert!(refused(|s| s.next_item_id = 0));
    assert!(refused(|s| s.items[0].quantity = 0));
    assert!(refused(|s| s.items[0].cooking_time = -1));
    assert!(refused(|s| s.items[0].order_id = 2));
    assert!(refused(|s| s.items[0].menu_id = 7));
    assert!(refused(|s| s.items.push(ItemRow {
        id: 2,
        order_id: 1,
        menu_id: 2,
        cooking_time: 5,
        quantity: 1
    })));
    assert!(refused(|s| s.tables[1].code = "T-01".to_string()));
    assert!(refused(|s| s.menus[2].id = 1));
    assert!(refused(|s| s.tables.swap(0, 1)));
}
