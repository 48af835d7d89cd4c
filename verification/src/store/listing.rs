//! The read side: line items and orders joined with the names they refer to.

use crate::models::{
    LedgerError, Menu, MenuResponse, OrderItem, OrderItemResponse, OrderResponse, RestaurantState,
    Table,
};
use crate::store::{
    lemma_item_keys_unique, lemma_menu_keys_unique, lemma_table_keys_unique, menu_at, table_at,
    ItemRow, OrderRow, Store, StoreView,
};
use vstd::prelude::*;

verus! {

/// Name of the menu entry `id` in `menus`; meaningful when there is one.
pub open spec fn name_of(menus: Seq<MenuResponse>, id: i64) -> String {
    menus[choose|i: int| menu_at(menus, i, id)].name
}

/// A line item as shown to callers: the row, joined with the name of its menu entry.
pub open spec fn item_response(menus: Seq<MenuResponse>, row: ItemRow) -> OrderItemResponse {
    OrderItemResponse {
        id: row.id,
        order_id: row.order_id,
        menu_id: row.menu_id,
        menu_name: name_of(menus, row.menu_id),
        cooking_time: row.cooking_time,
        quantity: row.quantity,
    }
}

/// The rows of `items` that belong to `order_id`, in order, as shown to callers.
pub open spec fn lines_of(
    items: Seq<ItemRow>,
    menus: Seq<MenuResponse>,
    order_id: i64,
) -> Seq<OrderItemResponse>
    decreases items.len(),
{
    if items.len() == 0 {
        Seq::empty()
    } else if items.last().order_id == order_id {
        lines_of(items.drop_last(), menus, order_id).push(item_response(menus, items.last()))
    } else {
        lines_of(items.drop_last(), menus, order_id)
    }
}

impl StoreView {
    /// The line items of `order_id`, oldest first.
    pub open spec fn items_of_order(self, order_id: i64) -> Seq<OrderItemResponse> {
        lines_of(self.items, self.menus, order_id)
    }

    /// The line items of the open order of `table_id`, oldest first; none
    /// when the table has no order.
    pub open spec fn items_of_table(self, table_id: i64) -> Seq<OrderItemResponse> {
        match self.order_of_table(table_id) {
            Some(order_id) => self.items_of_order(order_id),
            None => Seq::empty(),
        }
    }

    /// The line of `menu_id` on the open order of `table_id`, if there is one.
    pub open spec fn item_of_table(
        self,
        table_id: i64,
        menu_id: i64,
    ) -> Option<OrderItemResponse> {
        match self.order_of_table(table_id) {
            Some(order_id) => if self.has_line(order_id, menu_id) {
                Some(item_response(self.menus, self.line(order_id, menu_id)))
            } else {
                None
            },
            None => None,
        }
    }

    /// `shown` is the order `row` as listed: joined with the code of its
    /// table, its line items and their summed cooking time.
    pub open spec fn describes(self, shown: OrderResponse, row: OrderRow) -> bool {
        &&& shown.id == row.id
        &&& shown.table_id == row.table_id
        &&& shown.table_name == self.table_code(row.table_id)
        &&& shown.total_cooking_time == self.total_cooking_time(row.id)
        &&& shown.menus@ == self.items_of_order(row.id)
    }

    /// The summed cooking time of every order fits the listing's total.
    pub open spec fn totals_fit(self) -> bool {
        forall|i: int|
            0 <= i < self.orders.len() ==> self.total_cooking_time((#[trigger] self.orders[i]).id)
                <= i32::MAX
    }

    /// `shown` lists the orders of this state, oldest first.
    pub open spec fn lists_orders(self, shown: Seq<OrderResponse>) -> bool {
        &&& shown.len() == self.orders.len()
        &&& forall|i: int|
            0 <= i < shown.len() ==> self.describes(#[trigger] shown[i], self.orders[i])
    }
}

impl Store {
    /// Row `k` of the line items as shown to callers.
    fn show_item(&self, k: usize) -> (shown: OrderItemResponse)
        requires
            self@.wf(),
            k < self@.items.len(),
        ensures
            shown == item_response(self@.menus, self@.items[k as int]),
    {
        proof {
            lemma_menu_keys_unique(self@.menus, self@.next_menu_id);
        }
        let row = self.items[k];
        let name = match self.find_menu(row.menu_id) {
            Some(j) => self.menus[j].name.clone(),
            None => String::new(),
        };
        OrderItemResponse {
            id: row.id,
            order_id: row.order_id,
            menu_id: row.menu_id,
            menu_name: name,
            cooking_time: row.cooking_time,
            quantity: row.quantity,
        }
    }
}

impl OrderItem {
    /// Lists the line items of `order_id`, oldest first.
    pub fn list_all_order_items(store: &Store, order_id: i64) -> (items: Vec<OrderItemResponse>)
        requires
            store@.wf(),
        ensures
            items@ == store@.items_of_order(order_id),
    {
        let mut out: Vec<OrderItemResponse> = Vec::new();
        let mut i: usize = 0;
        while i < store.items.len()
            invariant
                i <= store.items.len(),
                store@.wf(),
                out@ == lines_of(store.items@.take(i as int), store.menus@, order_id),
            decreases store.items.len() - i,
        {
            proof {
                assert(store.items@.take(i + 1).drop_last() == store.items@.take(i as int));
            }
            if store.items[i].order_id == order_id {
                out.push(store.show_item(i));
            }
            i += 1;
        }
        proof {
            assert(store.items@.take(i as int) == store.items@);
        }
        out
    }

    /// Lists the line items of the open order of `table_id`, oldest first;
    /// none when the table has no order.
    pub fn list_order_items(store: &Store, table_id: i64) -> (items: Vec<OrderItemResponse>)
        requires
            store@.wf(),
        ensures
            items@ == store@.items_of_table(table_id),
    {
        match OrderResponse::get_existing_order_id(store, table_id) {
            Some(order_id) => OrderItem::list_all_order_items(store, order_id),
            None => Vec::new(),
        }
    }

    /// Answers the line of `menu_id` on the open order of `table_id`, if there is one.
    pub fn get_item(
        store: &Store,
        table_id: i64,
        menu_id: i64,
    ) -> (item: Option<OrderItemResponse>)
        requires
            store@.wf(),
        ensures
            item == store@.item_of_table(table_id, menu_id),
    {
        proof {
            lemma_item_keys_unique(store@.items, store@.next_item_id, store@.orders, store@.menus);
        }
        match OrderResponse::get_existing_order_id(store, table_id) {
            Some(order_id) => match store.find_line(order_id, menu_id) {
                Some(k) => Some(store.show_item(k)),
                None => None,
            },
            None => None,
        }
    }
}

impl OrderResponse {
    /// Lists every order, oldest first, each joined with the code of its
    /// table, its line items and their summed cooking time. Answers
    /// `StoreUnavailable` when some order's sum does not fit the total.
    pub fn list(store: &Store) -> (orders: Result<Vec<OrderResponse>, LedgerError>)
        requires
            store@.wf(),
        ensures
            match orders {
                Ok(shown) => store@.totals_fit() && store@.lists_orders(shown@),
                Err(e) => e == LedgerError::StoreUnavailable && !store@.totals_fit(),
            },
    {
        proof {
            lemma_table_keys_unique(store@.tables, store@.next_table_id);
        }
        let mut out: Vec<OrderResponse> = Vec::new();
        let mut i: usize = 0;
        while i < store.orders.len()
            invariant
                i <= store.orders.len(),
                store@.wf(),
                out.len() == i,
                forall|k: int|
                    0 <= k < i ==> store@.describes(#[trigger] out[k], store.orders@[k]),
                forall|k: int|
                    0 <= k < i ==> store@.total_cooking_time((#[trigger] store@.orders[k]).id)
                        <= i32::MAX,
                forall|a: int, b: int, id: i64|
                    table_at(store@.tables, a, id) && table_at(store@.tables, b, id) ==> a == b,
            decreases store.orders.len() - i,
        {
            let row = store.orders[i];
            let total = match OrderResponse::calculate_total_cooking_time(store, row.id) {
                Ok(total) => total,
                Err(e) => {
                    assert(store@.total_cooking_time(store@.orders[i as int].id) > i32::MAX);
                    return Err(e);
                },
            };
            let name = match store.find_table(row.table_id) {
                Some(j) => store.tables[j].code.clone(),
                None => String::new(),
            };
            let menus = OrderItem::list_all_order_items(store, row.id);
            out.push(
                OrderResponse {
                    id: row.id,
                    table_id: row.table_id,
                    table_name: name,
                    total_cooking_time: total,
                    menus,
                },
            );
            i += 1;
        }
        Ok(out)
    }
}

/// Takes a snapshot of the whole ledger: tables, menu entries and orders.
/// Answers `StoreUnavailable` when the orders cannot be listed.
pub fn get_current_state(store: &Store) -> (state: Result<RestaurantState, LedgerError>)
    requires
        store@.wf(),
    ensures
        match state {
            Ok(s) => s.tables@ == store@.tables && s.menus@ == store@.menus && store@.totals_fit()
                && store@.lists_orders(s.orders@),
            Err(e) => e == LedgerError::StoreUnavailable && !store@.totals_fit(),
        },
{
    let tables = Table::list(store);
    let menus = Menu::list(store);
    match OrderResponse::list(store) {
        Ok(orders) => Ok(RestaurantState { tables, menus, orders }),
        Err(e) => Err(e),
    }
}

} // verus!
