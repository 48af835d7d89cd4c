//! Moving a store to and from plain rows, so that a caller can keep it in
//! durable storage. Rows that come back are checked against every constraint
//! before they become a store again.

use crate::models::{LedgerError, Menu, MenuResponse, Table, TableResponse};
use crate::store::{
    items_wf, menu_at, menus_wf, order_at, orders_wf, table_at, tables_wf, ItemRow, OrderRow,
    Store, StoreView, MAX_COOKING_TIME, MAX_QUANTITY,
};
use vstd::prelude::*;

verus! {

/// Everything a store holds, as plain rows and counters.
#[derive(Debug, Clone, PartialEq, Eq)]
pub struct Snapshot {
    pub tables: Vec<TableResponse>,
    pub menus: Vec<MenuResponse>,
    pub orders: Vec<OrderRow>,
    pub items: Vec<ItemRow>,
    pub next_table_id: i64,
    pub next_menu_id: i64,
    pub next_order_id: i64,
    pub next_item_id: i64,
}

impl View for Snapshot {
    type V = StoreView;

    open spec fn view(&self) -> StoreView {
        StoreView {
            tables: self.tables@,
            menus: self.menus@,
            orders: self.orders@,
            items: self.items@,
            next_table_id: self.next_table_id,
            next_menu_id: self.next_menu_id,
            next_order_id: self.next_order_id,
            next_item_id: self.next_item_id,
        }
    }
}

impl Store {
    /// Checks the constraints on the tables.
    fn tables_ok(&self) -> (ok: bool)
        ensures
            ok == tables_wf(self@.tables, self@.next_table_id),
    {
        if self.next_table_id < 1 {
            return false;
        }
        let mut i: usize = 0;
        while i < self.tables.len()
            invariant
                i <= self.tables.len(),
                1 <= self.next_table_id,
                forall|a: int|
                    0 <= a < i ==> 1 <= (#[trigger] self.tables@[a]).id < self.next_table_id,
                forall|a: int, b: int|
                    0 <= a < b < i ==> (#[trigger] self.tables@[a]).id
                        < (#[trigger] self.tables@[b]).id,
                forall|a: int, b: int|
                    0 <= a < b < i ==> (#[trigger] self.tables@[a]).code@
                        != (#[trigger] self.tables@[b]).code@,
            decreases self.tables.len() - i,
        {
            let id = self.tables[i].id;
            if id < 1 || id >= self.next_table_id {
                return false;
            }
            if i > 0 && self.tables[i - 1].id >= id {
                return false;
            }
            let mut j: usize = 0;
            while j < i
                invariant
                    j <= i < self.tables.len(),
                    forall|a: int|
                        0 <= a < j ==> (#[trigger] self.tables@[a]).code@
                            != self.tables@[i as int].code@,
                decreases i - j,
            {
                if self.tables[j].code == self.tables[i].code {
                    return false;
                }
                j += 1;
            }
            i += 1;
        }
        true
    }

    /// Checks the constraints on the menu entries.
    fn menus_ok(&self) -> (ok: bool)
        ensures
            ok == menus_wf(self@.menus, self@.next_menu_id),
    {
        if self.next_menu_id < 1 {
            return false;
        }
        let mut i: usize = 0;
        while i < self.menus.len()
            invariant
                i <= self.menus.len(),
                1 <= self.next_menu_id,
                forall|a: int|
                    0 <= a < i ==> 1 <= (#[trigger] self.menus@[a]).id < self.next_menu_id,
                forall|a: int, b: int|
                    0 <= a < b < i ==> (#[trigger] self.menus@[a]).id
                        < (#[trigger] self.menus@[b]).id,
                forall|a: int, b: int|
                    0 <= a < b < i ==> (#[trigger] self.menus@[a]).name@
                        != (#[trigger] self.menus@[b]).name@,
            decreases self.menus.len() - i,
        {
            let id = self.menus[i].id;
            if id < 1 || id >= self.next_menu_id {
                return false;
            }
            if i > 0 && self.menus[i - 1].id >= id {
                return false;
            }
            let mut j: usize = 0;
            while j < i
                invariant
                    j <= i < self.menus.len(),
                    forall|a: int|
                        0 <= a < j ==> (#[trigger] self.menus@[a]).name@
                            != self.menus@[i as int].name@,
                decreases i - j,
            {
                if self.menus[j].name == self.menus[i].name {
                    return false;
                }
                j += 1;
            }
            i += 1;
        }
        true
    }

    /// Checks the constraints on the orders.
    fn orders_ok(&self) -> (ok: bool)
        ensures
            ok == orders_wf(self@.orders, self@.next_order_id, self@.tables),
    {
        if self.next_order_id < 1 {
            return false;
        }
        let mut i: usize = 0;
        while i < self.orders.len()
            invariant
                i <= self.orders.len(),
                1 <= self.next_order_id,
                forall|a: int|
                    0 <= a < i ==> 1 <= (#[trigger] self.orders@[a]).id < self.next_order_id,
                forall|a: int|
                    0 <= a < i ==> self@.has_table((#[trigger] self.orders@[a]).table_id),
                forall|a: int, b: int|
                    0 <= a < b < i ==> (#[trigger] self.orders@[a]).id
                        < (#[trigger] self.orders@[b]).id,
                forall|a: int, b: int|
                    0 <= a < b < i ==> (#[trigger] self.orders@[a]).table_id
                        != (#[trigger] self.orders@[b]).table_id,
            decreases self.orders.len() - i,
        {
            let row = self.orders[i];
            if row.id < 1 || row.id >= self.next_order_id {
                return false;
            }
            if i > 0 && self.orders[i - 1].id >= row.id {
                return false;
            }
            match self.find_table(row.table_id) {
                Some(k) => {
                    assert(table_at(self@.tables, k as int, row.table_id));
                },
                None => {
                    return false;
                },
            }
            let mut j: usize = 0;
            while j < i
                invariant
                    j <= i < self.orders.len(),
                    forall|a: int|
                        0 <= a < j ==> (#[trigger] self.orders@[a]).table_id
                            != self.orders@[i as int].table_id,
                decreases i - j,
            {
                if self.orders[j].table_id == self.orders[i].table_id {
                    return false;
                }
                j += 1;
            }
            i += 1;
        }
        true
    }

    /// Checks the constraints on the line items.
    fn items_ok(&self) -> (ok: bool)
        ensures
            ok == items_wf(self@.items, self@.next_item_id, self@.orders, self@.menus),
    {
        if self.next_item_id < 1 {
            return false;
        }
        let mut i: usize = 0;
        while i < self.items.len()
            invariant
                i <= self.items.len(),
                1 <= self.next_item_id,
                forall|a: int|
                    0 <= a < i ==> 1 <= (#[trigger] self.items@[a]).id < self.next_item_id,
                forall|a: int|
                    0 <= a < i ==> self@.has_order((#[trigger] self.items@[a]).order_id),
                forall|a: int| 0 <= a < i ==> self@.has_menu((#[trigger] self.items@[a]).menu_id),
                forall|a: int|
                    0 <= a < i ==> 0 <= (#[trigger] self.items@[a]).cooking_time
                        <= MAX_COOKING_TIME,
                forall|a: int|
                    0 <= a < i ==> 1 <= (#[trigger] self.items@[a]).quantity <= MAX_QUANTITY,
                forall|a: int, b: int|
                    0 <= a < b < i ==> (#[trigger] self.items@[a]).id
                        < (#[trigger] self.items@[b]).id,
                forall|a: int, b: int|
                    0 <= a < b < i ==> !((#[trigger] self.items@[a]).order_id
                        == (#[trigger] self.items@[b]).order_id && self.items@[a].menu_id
                        == self.items@[b].menu_id),
            decreases self.items.len() - i,
        {
            let row = self.items[i];
            if row.id < 1 || row.id >= self.next_item_id {
                return false;
            }
            if i > 0 && self.items[i - 1].id >= row.id {
                return false;
            }
            if row.cooking_time < 0 || row.cooking_time > MAX_COOKING_TIME || row.quantity < 1
                || row.quantity > MAX_QUANTITY {
                return false;
            }
            match self.find_order(row.order_id) {
                Some(k) => {
                    assert(order_at(self@.orders, k as int, row.order_id));
                },
                None => {
                    return false;
                },
            }
            match self.find_menu(row.menu_id) {
                Some(k) => {
                    assert(menu_at(self@.menus, k as int, row.menu_id));
                },
                None => {
                    return false;
                },
            }
            let mut j: usize = 0;
            while j < i
                invariant
                    j <= i < self.items.len(),
                    forall|a: int|
                        0 <= a < j ==> !((#[trigger] self.items@[a]).order_id
                            == self.items@[i as int].order_id && self.items@[a].menu_id
                            == self.items@[i as int].menu_id),
                decreases i - j,
            {
                if self.items[j].order_id == self.items[i].order_id && self.items[j].menu_id
                    == self.items[i].menu_id {
                    return false;
                }
                j += 1;
            }
            i += 1;
        }
        true
    }

    /// Makes a store of the rows of a snapshot. Refused with
    /// `ConstraintViolation` unless the rows obey every constraint of the store.
    pub fn load(snapshot: Snapshot) -> (loaded: Result<Store, LedgerError>)
        ensures
            match loaded {
                Ok(store) => snapshot@.wf() && store@ == snapshot@,
                Err(e) => e == LedgerError::ConstraintViolation && !snapshot@.wf(),
            },
    {
        let store = Store {
            tables: snapshot.tables,
            menus: snapshot.menus,
            orders: snapshot.orders,
            items: snapshot.items,
            next_table_id: snapshot.next_table_id,
            next_menu_id: snapshot.next_menu_id,
            next_order_id: snapshot.next_order_id,
            next_item_id: snapshot.next_item_id,
        };
        if store.tables_ok() && store.menus_ok() && store.orders_ok() && store.items_ok() {
            Ok(store)
        } else {
            Err(LedgerError::ConstraintViolation)
        }
    }

    /// Copies out everything the store holds.
    pub fn snapshot(&self) -> (snapshot: Snapshot)
        ensures
            snapshot@ == self@,
    {
        let saved = self.checkpoint();
        Snapshot {
            tables: Table::list(self),
            menus: Menu::list(self),
            orders: saved.orders,
            items: saved.items,
            next_table_id: self.next_table_id,
            next_menu_id: self.next_menu_id,
            next_order_id: self.next_order_id,
            next_item_id: self.next_item_id,
        }
    }
}

} // verus!
