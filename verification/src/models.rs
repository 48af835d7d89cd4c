//! Plain records exchanged with callers of the ledger.

use vstd::prelude::*;

verus! {

/// A snapshot of everything the ledger holds.
#[derive(Debug, Clone, PartialEq, Eq)]
pub struct RestaurantState {
    pub tables: Vec<TableResponse>,
    pub menus: Vec<MenuResponse>,
    pub orders: Vec<OrderResponse>,
}

/// A request to register a table. Only `code` is read; `id` is assigned by the store.
#[derive(Debug, Clone, PartialEq, Eq)]
pub struct Table {
    pub id: i64,
    pub code: String,
}

/// A registered table.
#[derive(Debug, Clone, PartialEq, Eq)]
pub struct TableResponse {
    pub id: i64,
    pub code: String,
}

/// A request to register a menu entry. Only `name` is read; `id` is assigned by the store.
#[derive(Debug, Clone, PartialEq, Eq)]
pub struct Menu {
    pub id: i64,
    pub name: String,
}

/// A registered menu entry.
#[derive(Debug, Clone, PartialEq, Eq)]
pub struct MenuResponse {
    pub id: i64,
    pub name: String,
}

/// A request to add menu entries to the open order of a table.
#[derive(Debug, Clone, PartialEq, Eq)]
pub struct OrderRequestBody {
    pub table_id: i64,
    pub menu_ids: Vec<i64>,
}

/// An open order joined with its table code, its line items and their summed cooking time.
#[derive(Debug, Clone, PartialEq, Eq)]
pub struct OrderResponse {
    pub id: i64,
    pub table_id: i64,
    pub table_name: String,
    pub total_cooking_time: i32,
    pub menus: Vec<OrderItemResponse>,
}

/// A request to create one line item.
#[derive(Debug, Clone, PartialEq, Eq)]
pub struct OrderItem {
    pub id: i64,
    pub order_id: i64,
    pub menu_id: i64,
    pub cooking_tme: i64,
}

/// A line item joined with the name of its menu entry.
#[derive(Debug, Clone, PartialEq, Eq)]
pub struct OrderItemResponse {
    pub id: i64,
    pub order_id: i64,
    pub menu_id: i64,
    pub menu_name: String,
    pub cooking_time: i64,
    pub quantity: i64,
}

/// Why a ledger operation was refused.
#[derive(Debug, Clone, Copy, PartialEq, Eq, Structural)]
pub enum LedgerError {
    /// The request names no menu entry at all.
    BadRequest,
    /// The table has no open order, or the order holds no such line item.
    NotFound,
    /// A row would refer to a table, order or menu entry that does not exist,
    /// repeat a key that must be unique, or hold a value outside its column's domain.
    ConstraintViolation,
    /// The store cannot take the change: an identity counter or a column's range is exhausted.
    StoreUnavailable,
}

/// What removing one unit of a menu entry from a table's order did.
#[derive(Debug, Clone, Copy, PartialEq, Eq, Structural)]
pub enum Outcome {
    /// The line item had more than one unit; it now has one fewer.
    QuantityReduced,
    /// The line item is gone and the order still holds other items.
    ItemRemoved,
    /// The line item is gone and, being the last one, took the order with it.
    ItemRemovedOrderClosed,
}

} // verus!
