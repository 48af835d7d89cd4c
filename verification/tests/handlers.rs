use order_ledger::handlers::{
    add_items, create_menu_handler, create_order_handler, create_table_handler,
    delete_order_item_handler, get_order_item_for_table_handler, NewLine,
};
use order_ledger::models::{
    LedgerError, Menu, OrderItem, OrderRequestBody, OrderResponse, Outcome, Table,
};
use order_ledger::store::snapshot::Snapshot;
use order_ledger::store::{ItemRow, OrderRow, Store};

fn setup_test_db() -> Store {
    Store::new()
}

fn setup_static_data(store: &mut Store) {
    let table_codes = vec!["T-01", "T-02", "T-03"];
    for code in table_codes {
        Table::create(store, &Table { id: 0, code: code.to_string() })
            .expect("Failed to insert table data");
    }
    let menu_names = vec!["M-01", "M-02", "M-03", "M-04", "M-05"];
    for name in menu_names {
        Menu::create(store, &Menu { id: 0, name: name.to_string() })
            .expect("Failed to insert menu data");
    }
}

/// A store with the static data, one order for table 1, and the given
/// (menu, cooking time, quantity) lines on it.
fn store_with_order(lines: &[(i64, i64, i64)]) -> Store {
    let mut seed = setup_test_db();
    setup_static_data(&mut seed);
    let mut snapshot: Snapshot = seed.snapshot();
    snapshot.orders.push(OrderRow { id: 1, table_id: 1 });
    snapshot.next_order_id = 2;
    for (k, (menu_id, cooking_time, quantity)) in lines.iter().enumerate() {
        snapshot.items.push(ItemRow {
            id: k as i64 + 1,
            order_id: 1,
            menu_id: *menu_id,
            cooking_time: *cooking_time,
            quantity: *quantity,
        });
    }
    snapshot.next_item_id = lines.len() as i64 + 1;
    Store::load(snapshot).expect("Order creation failed")
}

#[test]
fn test_create_menu_handler() {
    let mut conn = setup_test_db();
    let menu = Menu { id: 0, name: "Menu-01".to_string() };
    let result = create_menu_handler(&mut conn, &menu);
    assert_eq!(result, Ok(1));
}

#[test]
fn test_create_table_handler() {
    let mut conn = setup_test_db();
    let table = Table { id: 0, code: "Table-01".to_string() };
    let result = create_table_handler(&mut conn, &table);
    assert_eq!(result, Ok(1));
}

#[test]
fn test_create_order_handler_wrong_data() {
    let mut conn = setup_test_db();
    let order = OrderRequestBody { table_id: 1, menu_ids: vec![1, 2] };
    let result = create_order_handler(&mut conn, &order);
    assert_eq!(result, Err(LedgerError::ConstraintViolation));
    assert_eq!(conn.snapshot(), Store::new().snapshot());
}

#[test]
fn test_create_order_handler_wrong_data2() {
    let mut conn = setup_test_db();
    setup_static_data(&mut conn);
    let before = conn.snapshot();
    let order = OrderRequestBody { table_id: 1, menu_ids: vec![] };
    let result = create_order_handler(&mut conn, &order);
    assert_eq!(result, Err(LedgerError::BadRequest));
    assert_eq!(conn.snapshot(), before);
}

#[test]
fn test_create_order_handler_correct_data() {
    let mut conn = setup_test_db();
    setup_static_data(&mut conn);
    let order = OrderRequestBody { table_id: 1, menu_ids: vec![1, 2] };
    let result = create_order_handler(&mut conn, &order);
    assert_eq!(result, Ok(1));
}

#[test]
fn test_remove_item_from_table_handler() {
    let mut conn = store_with_order(&[(1, 6, 1), (2, 7, 1)]);
    let result = delete_order_item_handler(&mut conn, 1, 2);
    assert_eq!(result, Ok(Outcome::ItemRemoved));
    assert_eq!(OrderResponse::get_existing_order_id(&conn, 1), Some(1));
    let left = OrderItem::list_order_items(&conn, 1);
    assert_eq!(left.len(), 1);
    assert_eq!(left[0].menu_id, 1);
}

#[test]
fn test_all_order_item_remove_handler() {
    let mut conn = store_with_order(&[(1, 6, 1)]);
    let result = delete_order_item_handler(&mut conn, 1, 1);
    assert_eq!(result, Ok(Outcome::ItemRemovedOrderClosed));
    assert_eq!(OrderResponse::get_existing_order_id(&conn, 1), None);
}

#[test]
fn test_order_item_quantity_reduce_handler() {
    let mut conn = store_with_order(&[(1, 6, 2)]);
    let result = delete_order_item_handler(&mut conn, 1, 1);
    assert_eq!(result, Ok(Outcome::QuantityReduced));
    let item = get_order_item_for_table_handler(&conn, 1, 1).unwrap();
    assert_eq!(item.quantity, 1);
    assert_eq!(item.cooking_time, 3);
}

#[test]
fn test_get_item_from_table_handler() {
    let conn = store_with_order(&[(1, 6, 1), (2, 7, 1)]);
    let result = get_order_item_for_table_handler(&conn, 1, 2);
    match result {
        Ok(item) => {
            assert_eq!(item.menu_name, "M-02");
            assert_eq!(item.cooking_time, 7);
            assert_eq!(item.quantity, 1);
        }
        Err(e) => {
            panic!("Unhandled Error {:?}", e);
        }
    }
}

#[test]
fn get_item_reports_not_found() {
    let conn = store_with_order(&[(1, 6, 1)]);
    assert_eq!(get_order_item_for_table_handler(&conn, 1, 2), Err(LedgerError::NotFound));
    assert_eq!(get_order_item_for_table_handler(&conn, 2, 1), Err(LedgerError::NotFound));
}

#[test]
fn table_and_menu_are_created_once() {
    let mut store = Store::new();
    let table = Table { id: 0, code: "T-01".to_string() };
    assert_eq!(create_table_handler(&mut store, &table), Ok(1));
    assert_eq!(create_table_handler(&mut store, &table), Ok(1));
    assert_eq!(Table::create(&mut store, &table), Err(LedgerError::ConstraintViolation));
    assert_eq!(Table::list(&store).len(), 1);
    let other = Table { id: 0, code: "T-02".to_string() };
    assert_eq!(create_table_handler(&mut store, &other), Ok(2));
    assert_eq!(Table::get_existing_table_id(&store, &other), Some(2));
    let menu = Menu { id: 0, name: "M-01".to_string() };
    assert_eq!(create_menu_handler(&mut store, &menu), Ok(1));
    assert_eq!(create_menu_handler(&mut store, &menu), Ok(1));
    assert_eq!(Menu::create(&mut store, &menu), Err(LedgerError::ConstraintViolation));
    assert_eq!(Menu::list(&store).len(), 1);
    assert_eq!(Menu::get_existing_menu_id(&store, &Menu { id: 0, name: "M-09".to_string() }), None);
}

#[test]
fn first_item_opens_one_order_with_one_unit() {
    let mut store = setup_test_db();
    setup_static_data(&mut store);
    let order = OrderRequestBody { table_id: 2, menu_ids: vec![3] };
    assert_eq!(create_order_handler(&mut store, &order), Ok(1));
    let snapshot = store.snapshot();
    assert_eq!(snapshot.orders, vec![OrderRow { id: 1, table_id: 2 }]);
    assert_eq!(snapshot.items.len(), 1);
    let item = snapshot.items[0];
    assert_eq!((item.id, item.order_id, item.menu_id, item.quantity), (1, 1, 3, 1));
    assert!(5 <= item.cooking_time && item.cooking_time <= 15);
}

#[test]
fn repeated_entry_grows_the_line() {
    let mut store = store_with_order(&[(1, 13, 2), (2, 7, 1)]);
    let order = OrderRequestBody { table_id: 1, menu_ids: vec![1] };
    assert_eq!(create_order_handler(&mut store, &order), Ok(1));
    let items = OrderItem::list_order_items(&store, 1);
    assert_eq!(items.len(), 2);
    assert_eq!((items[0].menu_id, items[0].quantity, items[0].cooking_time), (1, 3, 18));
    assert_eq!((items[1].menu_id, items[1].quantity, items[1].cooking_time), (2, 1, 7));
}

#[test]
fn same_entry_twice_in_one_request_is_one_line() {
    let mut store = setup_test_db();
    setup_static_data(&mut store);
    let lines = vec![
        NewLine { menu_id: 4, cooking_time: 9 },
        NewLine { menu_id: 4, cooking_time: 5 },
    ];
    assert_eq!(add_items(&mut store, 1, &lines), Ok(1));
    let items = OrderItem::list_all_order_items(&store, 1);
    assert_eq!(items.len(), 1);
    assert_eq!((items[0].quantity, items[0].cooking_time), (2, 18));
}

#[test]
fn last_unit_closes_order_and_next_order_is_fresh() {
    let mut store = store_with_order(&[(1, 6, 1)]);
    assert_eq!(delete_order_item_handler(&mut store, 1, 1), Ok(Outcome::ItemRemovedOrderClosed));
    assert_eq!(OrderResponse::get_existing_order_id(&store, 1), None);
    assert!(!OrderResponse::has_items(&store, 1));
    let lines = vec![NewLine { menu_id: 1, cooking_time: 5 }];
    assert_eq!(add_items(&mut store, 1, &lines), Ok(2));
    assert_eq!(OrderResponse::get_existing_order_id(&store, 1), Some(2));
}

#[test]
fn spare_unit_shrinks_the_line() {
    let mut store = store_with_order(&[(1, 13, 2)]);
    assert_eq!(delete_order_item_handler(&mut store, 1, 1), Ok(Outcome::QuantityReduced));
    let item = OrderItem::get_item(&store, 1, 1).unwrap();
    assert_eq!((item.quantity, item.cooking_time), (1, 7));
    assert_eq!(OrderResponse::get_existing_order_id(&store, 1), Some(1));
    assert!(OrderResponse::has_items(&store, 1));
}

#[test]
fn listing_after_first_add_shows_both_lines() {
    let mut store = setup_test_db();
    setup_static_data(&mut store);
    let order = OrderRequestBody { table_id: 3, menu_ids: vec![2, 5] };
    let id = create_order_handler(&mut store, &order).unwrap();
    let items = OrderItem::list_order_items(&store, 3);
    assert_eq!(items.len(), 2);
    assert_eq!((items[0].menu_id, items[0].quantity), (2, 1));
    assert_eq!(items[0].menu_name, "M-02");
    assert_eq!((items[1].menu_id, items[1].quantity), (5, 1));
    assert_eq!(items[1].menu_name, "M-05");
    let total = OrderResponse::calculate_total_cooking_time(&store, id).unwrap();
    assert_eq!(total as i64, items[0].cooking_time + items[1].cooking_time);
}

#[test]
fn order_lives_from_first_item_to_last() {
    let mut store = setup_test_db();
    setup_static_data(&mut store);
    assert_eq!(OrderResponse::get_existing_order_id(&store, 1), None);
    let lines = vec![
        NewLine { menu_id: 1, cooking_time: 7 },
        NewLine { menu_id: 2, cooking_time: 11 },
    ];
    let order = add_items(&mut store, 1, &lines).unwrap();
    let items = OrderItem::list_order_items(&store, 1);
    assert_eq!(items.len(), 2);
    assert_eq!((items[0].quantity, items[1].quantity), (1, 1));

    let again = vec![NewLine { menu_id: 1, cooking_time: 15 }];
    assert_eq!(add_items(&mut store, 1, &again), Ok(order));
    let items = OrderItem::list_order_items(&store, 1);
    assert_eq!((items[0].menu_id, items[0].quantity, items[0].cooking_time), (1, 2, 14));
    assert_eq!((items[1].menu_id, items[1].quantity, items[1].cooking_time), (2, 1, 11));

    assert_eq!(delete_order_item_handler(&mut store, 1, 2), Ok(Outcome::ItemRemoved));
    assert_eq!(OrderResponse::get_existing_order_id(&store, 1), Some(order));

    assert_eq!(delete_order_item_handler(&mut store, 1, 1), Ok(Outcome::QuantityReduced));
    let item = OrderItem::get_item(&store, 1, 1).unwrap();
    assert_eq!((item.quantity, item.cooking_time), (1, 7));
    assert_eq!(delete_order_item_handler(&mut store, 1, 1), Ok(Outcome::ItemRemovedOrderClosed));
    assert_eq!(OrderResponse::get_existing_order_id(&store, 1), None);
    assert_eq!(delete_order_item_handler(&mut store, 1, 1), Err(LedgerError::NotFound));
}

#[test]
fn empty_request_is_refused_without_effect() {
    let mut store = store_with_order(&[(1, 6, 1)]);
    let before = store.snapshot();
    assert_eq!(add_items(&mut store, 1, &Vec::new()), Err(LedgerError::BadRequest));
    assert_eq!(add_items(&mut store, 9, &Vec::new()), Err(LedgerError::BadRequest));
    assert_eq!(store.snapshot(), before);
}

#[test]
fn remove_without_order_is_not_found() {
    let mut store = setup_test_db();
    setup_static_data(&mut store);
    let before = store.snapshot();
    assert_eq!(delete_order_item_handler(&mut store, 1, 1), Err(LedgerError::NotFound));
    assert_eq!(delete_order_item_handler(&mut store, 42, 1), Err(LedgerError::NotFound));
    assert_eq!(store.snapshot(), before);
}

#[test]
fn removing_an_entry_the_order_lacks_removes_nothing() {
    let mut store = store_with_order(&[(1, 6, 1)]);
    let before = store.snapshot();
    assert_eq!(delete_order_item_handler(&mut store, 1, 3), Ok(Outcome::ItemRemoved));
    assert_eq!(store.snapshot(), before);
}

#[test]
fn failed_request_leaves_no_trace() {
    let mut store = setup_test_db();
    setup_static_data(&mut store);
    let before = store.snapshot();
    let lines = vec![
        NewLine { menu_id: 1, cooking_time: 7 },
        NewLine { menu_id: 99, cooking_time: 7 },
    ];
    assert_eq!(add_items(&mut store, 1, &lines), Err(LedgerError::ConstraintViolation));
    assert_eq!(store.snapshot(), before);

    let mut open = store_with_order(&[(1, 6, 1)]);
    let before = open.snapshot();
    let lines = vec![
        NewLine { menu_id: 1, cooking_time: 7 },
        NewLine { menu_id: 2, cooking_time: -1 },
    ];
    assert_eq!(add_items(&mut open, 1, &lines), Err(LedgerError::ConstraintViolation));
    assert_eq!(open.snapshot(), before);
}

#[test]
fn exhausted_ranges_make_the_store_unavailable() {
    let mut full = store_with_order(&[(1, 6, 2147483647)]);
    let lines = vec![NewLine { menu_id: 1, cooking_time: 5 }];
    assert_eq!(add_items(&mut full, 1, &lines), Err(LedgerError::StoreUnavailable));

    let mut long = store_with_order(&[(1, 2147483647, 1)]);
    assert_eq!(add_items(&mut long, 1, &lines), Err(LedgerError::StoreUnavailable));

    let mut seed = setup_test_db();
    setup_static_data(&mut seed);
    let mut snapshot = seed.snapshot();
    snapshot.next_order_id = i64::MAX;
    let mut store = Store::load(snapshot).unwrap();
    let before = store.snapshot();
    assert_eq!(add_items(&mut store, 1, &lines), Err(LedgerError::StoreUnavailable));
    assert_eq!(store.snapshot(), before);
}

#[test]
fn other_tables_are_left_alone() {
    let mut store = setup_test_db();
    setup_static_data(&mut store);
    let theirs = vec![
        NewLine { menu_id: 1, cooking_time: 6 },
        NewLine { menu_id: 2, cooking_time: 8 },
    ];
    let their_order = add_items(&mut store, 2, &theirs).unwrap();
    let before = OrderItem::list_order_items(&store, 2);
    let total = OrderResponse::calculate_total_cooking_time(&store, their_order);

    let ours = vec![
        NewLine { menu_id: 1, cooking_time: 15 },
        NewLine { menu_id: 1, cooking_time: 15 },
        NewLine { menu_id: 3, cooking_time: 5 },
    ];
    let our_order = add_items(&mut store, 1, &ours).unwrap();
    assert_ne!(our_order, their_order);
    assert_eq!(OrderItem::list_order_items(&store, 2), before);
    assert_eq!(OrderResponse::calculate_total_cooking_time(&store, their_order), total);

    assert_eq!(delete_order_item_handler(&mut store, 1, 1), Ok(Outcome::QuantityReduced));
    assert_eq!(delete_order_item_handler(&mut store, 1, 3), Ok(Outcome::ItemRemoved));
    assert_eq!(delete_order_item_handler(&mut store, 1, 1), Ok(Outcome::ItemRemovedOrderClosed));
    assert_eq!(OrderResponse::get_existing_order_id(&store, 2), Some(their_order));
    assert_eq!(OrderItem::list_order_items(&store, 2), before);
    assert_eq!(OrderResponse::calculate_total_cooking_time(&store, their_order), total);
}
