//! The relational state behind the ledger: four tables of rows, the counters
//! that hand out identities, and the constraints that every state obeys.

use crate::models::{MenuResponse, TableResponse};
use vstd::prelude::*;

pub mod items;
pub mod listing;
pub mod menus;
pub mod orders;
pub mod snapshot;
pub mod tables;

verus! {

/// Largest aggregate cooking time a line item may hold.
pub const MAX_COOKING_TIME: i64 = 2147483647;

/// Largest quantity a line item may hold.
pub const MAX_QUANTITY: i64 = 2147483647;

/// One open order: the single tab of a table.
#[derive(Debug, Clone, Copy, PartialEq, Eq, Structural)]
pub struct OrderRow {
    pub id: i64,
    pub table_id: i64,
}

/// One line item: a menu entry on an order, with its quantity and the
/// cooking time of that whole quantity.
#[derive(Debug, Clone, Copy, PartialEq, Eq, Structural)]
pub struct ItemRow {
    pub id: i64,
    pub order_id: i64,
    pub menu_id: i64,
    pub cooking_time: i64,
    pub quantity: i64,
}

/// The mathematical content of a `Store`: its rows in insertion order and the
/// identity each relation hands out next.
pub struct StoreView {
    pub tables: Seq<TableResponse>,
    pub menus: Seq<MenuResponse>,
    pub orders: Seq<OrderRow>,
    pub items: Seq<ItemRow>,
    pub next_table_id: i64,
    pub next_menu_id: i64,
    pub next_order_id: i64,
    pub next_item_id: i64,
}

/// Row `i` of `tables` has identity `id`.
pub open spec fn table_at(tables: Seq<TableResponse>, i: int, id: i64) -> bool {
    0 <= i < tables.len() && tables[i].id == id
}

/// Row `i` of `tables` carries `code`.
pub open spec fn table_coded(tables: Seq<TableResponse>, i: int, code: Seq<char>) -> bool {
    0 <= i < tables.len() && tables[i].code@ == code
}

/// Row `i` of `menus` has identity `id`.
pub open spec fn menu_at(menus: Seq<MenuResponse>, i: int, id: i64) -> bool {
    0 <= i < menus.len() && menus[i].id == id
}

/// Row `i` of `menus` carries `name`.
pub open spec fn menu_named(menus: Seq<MenuResponse>, i: int, name: Seq<char>) -> bool {
    0 <= i < menus.len() && menus[i].name@ == name
}

/// Row `i` of `orders` has identity `id`.
pub open spec fn order_at(orders: Seq<OrderRow>, i: int, id: i64) -> bool {
    0 <= i < orders.len() && orders[i].id == id
}

/// Row `i` of `orders` is the order of table `table_id`.
pub open spec fn order_for(orders: Seq<OrderRow>, i: int, table_id: i64) -> bool {
    0 <= i < orders.len() && orders[i].table_id == table_id
}

/// Row `i` of `items` has identity `id`.
pub open spec fn item_at(items: Seq<ItemRow>, i: int, id: i64) -> bool {
    0 <= i < items.len() && items[i].id == id
}

/// Row `i` of `items` is the line of menu entry `menu_id` on order `order_id`.
pub open spec fn line_at(items: Seq<ItemRow>, i: int, order_id: i64, menu_id: i64) -> bool {
    0 <= i < items.len() && items[i].order_id == order_id && items[i].menu_id == menu_id
}

/// Row `i` of `items` belongs to order `order_id`.
pub open spec fn owned_at(items: Seq<ItemRow>, i: int, order_id: i64) -> bool {
    0 <= i < items.len() && items[i].order_id == order_id
}

/// Some row of `tables` has identity `id`.
pub open spec fn table_exists(tables: Seq<TableResponse>, id: i64) -> bool {
    exists|i: int| table_at(tables, i, id)
}

/// Some row of `menus` has identity `id`.
pub open spec fn menu_exists(menus: Seq<MenuResponse>, id: i64) -> bool {
    exists|i: int| menu_at(menus, i, id)
}

/// Some row of `orders` has identity `id`.
pub open spec fn order_exists(orders: Seq<OrderRow>, id: i64) -> bool {
    exists|i: int| order_at(orders, i, id)
}

/// Tables: identities handed out in increasing order below the counter, codes unique.
pub open spec fn tables_wf(tables: Seq<TableResponse>, next: i64) -> bool {
    &&& 1 <= next
    &&& forall|i: int| 0 <= i < tables.len() ==> 1 <= (#[trigger] tables[i]).id < next
    &&& forall|i: int, j: int|
        0 <= i < j < tables.len() ==> (#[trigger] tables[i]).id < (#[trigger] tables[j]).id
    &&& forall|i: int, j: int|
        0 <= i < j < tables.len() ==> (#[trigger] tables[i]).code@ != (#[trigger] tables[j]).code@
}

/// Menu entries: identities handed out in increasing order below the counter, names unique.
pub open spec fn menus_wf(menus: Seq<MenuResponse>, next: i64) -> bool {
    &&& 1 <= next
    &&& forall|i: int| 0 <= i < menus.len() ==> 1 <= (#[trigger] menus[i]).id < next
    &&& forall|i: int, j: int|
        0 <= i < j < menus.len() ==> (#[trigger] menus[i]).id < (#[trigger] menus[j]).id
    &&& forall|i: int, j: int|
        0 <= i < j < menus.len() ==> (#[trigger] menus[i]).name@ != (#[trigger] menus[j]).name@
}

/// Orders: identities increasing below the counter, each on an existing table,
/// and no table with two orders.
pub open spec fn orders_wf(orders: Seq<OrderRow>, next: i64, tables: Seq<TableResponse>) -> bool {
    &&& 1 <= next
    &&& forall|i: int| 0 <= i < orders.len() ==> 1 <= (#[trigger] orders[i]).id < next
    &&& forall|i: int|
        0 <= i < orders.len() ==> table_exists(tables, (#[trigger] orders[i]).table_id)
    &&& forall|i: int, j: int|
        0 <= i < j < orders.len() ==> (#[trigger] orders[i]).id < (#[trigger] orders[j]).id
    &&& forall|i: int, j: int|
        0 <= i < j < orders.len() ==> (#[trigger] orders[i]).table_id
            != (#[trigger] orders[j]).table_id
}

/// Line items: identities increasing below the counter, each on an existing
/// order and menu entry, at most one per (order, menu) pair, quantity at
/// least one, cooking time not negative, both within their column's range.
pub open spec fn items_wf(
    items: Seq<ItemRow>,
    next: i64,
    orders: Seq<OrderRow>,
    menus: Seq<MenuResponse>,
) -> bool {
    &&& 1 <= next
    &&& forall|i: int| 0 <= i < items.len() ==> 1 <= (#[trigger] items[i]).id < next
    &&& forall|i: int|
        0 <= i < items.len() ==> order_exists(orders, (#[trigger] items[i]).order_id)
    &&& forall|i: int| 0 <= i < items.len() ==> menu_exists(menus, (#[trigger] items[i]).menu_id)
    &&& forall|i: int|
        0 <= i < items.len() ==> 0 <= (#[trigger] items[i]).cooking_time <= MAX_COOKING_TIME
    &&& forall|i: int| 0 <= i < items.len() ==> 1 <= (#[trigger] items[i]).quantity <= MAX_QUANTITY
    &&& forall|i: int, j: int|
        0 <= i < j < items.len() ==> (#[trigger] items[i]).id < (#[trigger] items[j]).id
    &&& forall|i: int, j: int|
        0 <= i < j < items.len() ==> !((#[trigger] items[i]).order_id
            == (#[trigger] items[j]).order_id && items[i].menu_id == items[j].menu_id)
}

/// With increasing identities, two rows with the same identity are the same row.
pub proof fn lemma_table_keys_unique(tables: Seq<TableResponse>, next: i64)
    requires
        tables_wf(tables, next),
    ensures
        forall|i: int, j: int, id: i64| table_at(tables, i, id) && table_at(tables, j, id) ==> i == j,
        forall|i: int, j: int, code: Seq<char>|
            table_coded(tables, i, code) && table_coded(tables, j, code) ==> i == j,
{
    assert forall|i: int, j: int, id: i64|
        table_at(tables, i, id) && table_at(tables, j, id) implies i == j by {
        if i < j {
        } else if j < i {
        }
    }
    assert forall|i: int, j: int, code: Seq<char>|
        table_coded(tables, i, code) && table_coded(tables, j, code) implies i == j by {
        if i < j {
        } else if j < i {
        }
    }
}

/// Two menu rows with the same identity, or the same name, are the same row.
pub proof fn lemma_menu_keys_unique(menus: Seq<MenuResponse>, next: i64)
    requires
        menus_wf(menus, next),
    ensures
        forall|i: int, j: int, id: i64| menu_at(menus, i, id) && menu_at(menus, j, id) ==> i == j,
        forall|i: int, j: int, name: Seq<char>|
            menu_named(menus, i, name) && menu_named(menus, j, name) ==> i == j,
{
    assert forall|i: int, j: int, id: i64|
        menu_at(menus, i, id) && menu_at(menus, j, id) implies i == j by {
        if i < j {
        } else if j < i {
        }
    }
    assert forall|i: int, j: int, name: Seq<char>|
        menu_named(menus, i, name) && menu_named(menus, j, name) implies i == j by {
        if i < j {
        } else if j < i {
        }
    }
}

/// Two order rows with the same identity, or on the same table, are the same row.
pub proof fn lemma_order_keys_unique(orders: Seq<OrderRow>, next: i64, tables: Seq<TableResponse>)
    requires
        orders_wf(orders, next, tables),
    ensures
        forall|i: int, j: int, id: i64| order_at(orders, i, id) && order_at(orders, j, id) ==> i == j,
        forall|i: int, j: int, t: i64| order_for(orders, i, t) && order_for(orders, j, t) ==> i == j,
{
    assert forall|i: int, j: int, id: i64|
        order_at(orders, i, id) && order_at(orders, j, id) implies i == j by {
        if i < j {
        } else if j < i {
        }
    }
    assert forall|i: int, j: int, t: i64|
        order_for(orders, i, t) && order_for(orders, j, t) implies i == j by {
        if i < j {
        } else if j < i {
        }
    }
}

/// Two item rows with the same identity, or for the same menu entry on the
/// same order, are the same row.
pub proof fn lemma_item_keys_unique(
    items: Seq<ItemRow>,
    next: i64,
    orders: Seq<OrderRow>,
    menus: Seq<MenuResponse>,
)
    requires
        items_wf(items, next, orders, menus),
    ensures
        forall|i: int, j: int, id: i64| item_at(items, i, id) && item_at(items, j, id) ==> i == j,
        forall|i: int, j: int, o: i64, m: i64|
            line_at(items, i, o, m) && line_at(items, j, o, m) ==> i == j,
{
    assert forall|i: int, j: int, id: i64|
        item_at(items, i, id) && item_at(items, j, id) implies i == j by {
        if i < j {
        } else if j < i {
        }
    }
    assert forall|i: int, j: int, o: i64, m: i64|
        line_at(items, i, o, m) && line_at(items, j, o, m) implies i == j by {
        if i < j {
        } else if j < i {
        }
    }
}

impl StoreView {
    /// The state with no rows, every counter at one.
    pub open spec fn empty() -> StoreView {
        StoreView {
            tables: Seq::empty(),
            menus: Seq::empty(),
            orders: Seq::empty(),
            items: Seq::empty(),
            next_table_id: 1,
            next_menu_id: 1,
            next_order_id: 1,
            next_item_id: 1,
        }
    }

    /// There is a table `id`.
    pub open spec fn has_table(self, id: i64) -> bool {
        table_exists(self.tables, id)
    }

    /// Code of the table `id`; meaningful when `has_table(id)`.
    pub open spec fn table_code(self, id: i64) -> String {
        self.tables[choose|i: int| table_at(self.tables, i, id)].code
    }

    /// Identity of the table registered under `code`, if any.
    pub open spec fn table_by_code(self, code: Seq<char>) -> Option<i64> {
        if exists|i: int| table_coded(self.tables, i, code) {
            Some(self.tables[choose|i: int| table_coded(self.tables, i, code)].id)
        } else {
            None
        }
    }

    /// There is a menu entry `id`.
    pub open spec fn has_menu(self, id: i64) -> bool {
        menu_exists(self.menus, id)
    }

    /// Identity of the menu entry registered under `name`, if any.
    pub open spec fn menu_by_name(self, name: Seq<char>) -> Option<i64> {
        if exists|i: int| menu_named(self.menus, i, name) {
            Some(self.menus[choose|i: int| menu_named(self.menus, i, name)].id)
        } else {
            None
        }
    }

    /// There is an order `id`.
    pub open spec fn has_order(self, id: i64) -> bool {
        order_exists(self.orders, id)
    }

    /// Identity of the open order of table `table_id`, if it has one.
    pub open spec fn order_of_table(self, table_id: i64) -> Option<i64> {
        if exists|i: int| order_for(self.orders, i, table_id) {
            Some(self.orders[choose|i: int| order_for(self.orders, i, table_id)].id)
        } else {
            None
        }
    }

    /// There is a line item `id`.
    pub open spec fn has_item(self, id: i64) -> bool {
        exists|i: int| item_at(self.items, i, id)
    }

    /// Position of the line item `id`; meaningful when `has_item(id)`.
    pub open spec fn item_index(self, id: i64) -> int {
        choose|i: int| item_at(self.items, i, id)
    }

    /// The order `order_id` has a line for the menu entry `menu_id`.
    pub open spec fn has_line(self, order_id: i64, menu_id: i64) -> bool {
        exists|i: int| line_at(self.items, i, order_id, menu_id)
    }

    /// Position of the line of `menu_id` on `order_id`; meaningful when `has_line`.
    pub open spec fn line_index(self, order_id: i64, menu_id: i64) -> int {
        choose|i: int| line_at(self.items, i, order_id, menu_id)
    }

    /// The line of `menu_id` on `order_id`; meaningful when `has_line`.
    pub open spec fn line(self, order_id: i64, menu_id: i64) -> ItemRow {
        self.items[self.line_index(order_id, menu_id)]
    }

    /// Identity of the line of `menu_id` on `order_id`, if there is one.
    pub open spec fn line_id(self, order_id: i64, menu_id: i64) -> Option<i64> {
        if self.has_line(order_id, menu_id) {
            Some(self.line(order_id, menu_id).id)
        } else {
            None
        }
    }

    /// The order `order_id` owns at least one line item.
    pub open spec fn has_items(self, order_id: i64) -> bool {
        exists|i: int| owned_at(self.items, i, order_id)
    }

    /// Every constraint of the store holds.
    pub open spec fn wf(self) -> bool {
        &&& tables_wf(self.tables, self.next_table_id)
        &&& menus_wf(self.menus, self.next_menu_id)
        &&& orders_wf(self.orders, self.next_order_id, self.tables)
        &&& items_wf(self.items, self.next_item_id, self.orders, self.menus)
    }

    /// Well formed, and every order owns at least one line item: the states
    /// between two ledger operations.
    pub open spec fn settled(self) -> bool {
        &&& self.wf()
        &&& forall|i: int|
            0 <= i < self.orders.len() ==> self.has_items((#[trigger] self.orders[i]).id)
    }
}

/// The ledger's store. Rows are kept in insertion order; identities are never reused.
pub struct Store {
    tables: Vec<TableResponse>,
    menus: Vec<MenuResponse>,
    orders: Vec<OrderRow>,
    items: Vec<ItemRow>,
    next_table_id: i64,
    next_menu_id: i64,
    next_order_id: i64,
    next_item_id: i64,
}

/// The orders and line items of a store at one moment, kept to undo a
/// request that fails half way.
pub(crate) struct Checkpoint {
    pub(crate) orders: Vec<OrderRow>,
    pub(crate) items: Vec<ItemRow>,
    pub(crate) next_order_id: i64,
    pub(crate) next_item_id: i64,
}

impl View for Store {
    type V = StoreView;

    closed spec fn view(&self) -> StoreView {
        StoreView {
            tables: self.tables@,
            menus: self.menus@,
            orders: self.orders@,
            items: self.items@,
            next_table_id: self.next_table_id,
            next_menu_id: self.next_menu_id,
            next_order_id: self.next_order_id,
            next_item_id: self.next_item_id,
        }
    }
}

impl Store {
    /// A store with no tables, menu entries, orders or line items.
    pub fn new() -> (store: Store)
        ensures
            store@ == StoreView::empty(),
            store@.settled(),
    {
        Store {
            tables: Vec::new(),
            menus: Vec::new(),
            orders: Vec::new(),
            items: Vec::new(),
            next_table_id: 1,
            next_menu_id: 1,
            next_order_id: 1,
            next_item_id: 1,
        }
    }

    /// Copies the rows and counters that adding to an order may change.
    pub(crate) fn checkpoint(&self) -> (saved: Checkpoint)
        ensures
            saved.orders@ == self@.orders,
            saved.items@ == self@.items,
            saved.next_order_id == self@.next_order_id,
            saved.next_item_id == self@.next_item_id,
    {
        let mut orders: Vec<OrderRow> = Vec::new();
        let mut i: usize = 0;
        while i < self.orders.len()
            invariant
                i <= self.orders.len(),
                orders@ == self.orders@.take(i as int),
            decreases self.orders.len() - i,
        {
            orders.push(self.orders[i]);
            assert(orders@ == self.orders@.take(i + 1));
            i += 1;
        }
        assert(self.orders@.take(i as int) == self.orders@);
        let mut items: Vec<ItemRow> = Vec::new();
        let mut j: usize = 0;
        while j < self.items.len()
            invariant
                j <= self.items.len(),
                items@ == self.items@.take(j as int),
            decreases self.items.len() - j,
        {
            items.push(self.items[j]);
            assert(items@ == self.items@.take(j + 1));
            j += 1;
        }
        assert(self.items@.take(j as int) == self.items@);
        Checkpoint {
            orders,
            items,
            next_order_id: self.next_order_id,
            next_item_id: self.next_item_id,
        }
    }

    /// Puts back the rows and counters of a checkpoint.
    pub(crate) fn restore(&mut self, saved: Checkpoint)
        ensures
            final(self)@ == (StoreView {
                orders: saved.orders@,
                items: saved.items@,
                next_order_id: saved.next_order_id,
                next_item_id: saved.next_item_id,
                ..old(self)@
            }),
    {
        self.orders = saved.orders;
        self.items = saved.items;
        self.next_order_id = saved.next_order_id;
        self.next_item_id = saved.next_item_id;
    }

    /// Position of the table `id`.
    pub(crate) fn find_table(&self, id: i64) -> (found: Option<usize>)
        ensures
            match found {
                Some(k) => table_at(self@.tables, k as int, id),
                None => !self@.has_table(id),
            },
    {
        let mut i: usize = 0;
        while i < self.tables.len()
            invariant
                i <= self.tables.len(),
                forall|j: int| 0 <= j < i ==> !table_at(self.tables@, j, id),
            decreases self.tables.len() - i,
        {
            if self.tables[i].id == id {
                return Some(i);
            }
            i += 1;
        }
        None
    }

    /// Position of the table registered under `code`.
    pub(crate) fn find_table_coded(&self, code: &String) -> (found: Option<usize>)
        ensures
            match found {
                Some(k) => table_coded(self@.tables, k as int, code@),
                None => forall|j: int| !table_coded(self@.tables, j, code@),
            },
    {
        let mut i: usize = 0;
        while i < self.tables.len()
            invariant
                i <= self.tables.len(),
                forall|j: int| 0 <= j < i ==> !table_coded(self.tables@, j, code@),
            decreases self.tables.len() - i,
        {
            if self.tables[i].code == *code {
                return Some(i);
            }
            i += 1;
        }
        None
    }

    /// Position of the menu entry `id`.
    pub(crate) fn find_menu(&self, id: i64) -> (found: Option<usize>)
        ensures
            match found {
                Some(k) => menu_at(self@.menus, k as int, id),
                None => !self@.has_menu(id),
            },
    {
        let mut i: usize = 0;
        while i < self.menus.len()
            invariant
                i <= self.menus.len(),
                forall|j: int| 0 <= j < i ==> !menu_at(self.menus@, j, id),
            decreases self.menus.len() - i,
        {
            if self.menus[i].id == id {
                return Some(i);
            }
            i += 1;
        }
        None
    }

    /// Position of the menu entry registered under `name`.
    pub(crate) fn find_menu_named(&self, name: &String) -> (found: Option<usize>)
        ensures
            match found {
                Some(k) => menu_named(self@.menus, k as int, name@),
                None => forall|j: int| !menu_named(self@.menus, j, name@),
            },
    {
        let mut i: usize = 0;
        while i < self.menus.len()
            invariant
                i <= self.menus.len(),
                forall|j: int| 0 <= j < i ==> !menu_named(self.menus@, j, name@),
            decreases self.menus.len() - i,
        {
            if self.menus[i].name == *name {
                return Some(i);
            }
            i += 1;
        }
        None
    }

    /// Position of the order `id`.
    pub(crate) fn find_order(&self, id: i64) -> (found: Option<usize>)
        ensures
            match found {
                Some(k) => order_at(self@.orders, k as int, id),
                None => !self@.has_order(id),
            },
    {
        let mut i: usize = 0;
        while i < self.orders.len()
            invariant
                i <= self.orders.len(),
                forall|j: int| 0 <= j < i ==> !order_at(self.orders@, j, id),
            decreases self.orders.len() - i,
        {
            if self.orders[i].id == id {
                return Some(i);
            }
            i += 1;
        }
        None
    }

    /// Position of the order of table `table_id`.
    pub(crate) fn find_order_for(&self, table_id: i64) -> (found: Option<usize>)
        ensures
            match found {
                Some(k) => order_for(self@.orders, k as int, table_id),
                None => forall|j: int| !order_for(self@.orders, j, table_id),
            },
    {
        let mut i: usize = 0;
        while i < self.orders.len()
            invariant
                i <= self.orders.len(),
                forall|j: int| 0 <= j < i ==> !order_for(self.orders@, j, table_id),
            decreases self.orders.len() - i,
        {
            if self.orders[i].table_id == table_id {
                return Some(i);
            }
            i += 1;
        }
        None
    }

    /// Position of the line item `id`.
    pub(crate) fn find_item(&self, id: i64) -> (found: Option<usize>)
        ensures
            match found {
                Some(k) => item_at(self@.items, k as int, id),
                None => !self@.has_item(id),
            },
    {
        let mut i: usize = 0;
        while i < self.items.len()
            invariant
                i <= self.items.len(),
                forall|j: int| 0 <= j < i ==> !item_at(self.items@, j, id),
            decreases self.items.len() - i,
        {
            if self.items[i].id == id {
                return Some(i);
            }
            i += 1;
        }
        None
    }

    /// Position of the line of `menu_id` on `order_id`.
    pub(crate) fn find_line(&self, order_id: i64, menu_id: i64) -> (found: Option<usize>)
        ensures
            match found {
                Some(k) => line_at(self@.items, k as int, order_id, menu_id),
                None => !self@.has_line(order_id, menu_id),
            },
    {
        let mut i: usize = 0;
        while i < self.items.len()
            invariant
                i <= self.items.len(),
                forall|j: int| 0 <= j < i ==> !line_at(self.items@, j, order_id, menu_id),
            decreases self.items.len() - i,
        {
            if self.items[i].order_id == order_id && self.items[i].menu_id == menu_id {
                return Some(i);
            }
            i += 1;
        }
        None
    }
}

} // verus!
