//! The order-item store: one row per (order, menu entry) pair, created at
//! quantity one, grown and shrunk one unit at a time.

use crate::cooking::{
    scale_down_on_quantity_decrease, scale_up_on_quantity_increase, scaled_down, scaled_up,
};
use crate::models::{LedgerError, OrderItem, Outcome};
use crate::cooking::lemma_scaling_bounds;
use crate::store::{
    items_wf, lemma_item_keys_unique, line_at, ItemRow, Store, StoreView, MAX_COOKING_TIME,
    MAX_QUANTITY,
};
use vstd::prelude::*;

verus! {

/// A line item after one more unit joined it.
pub open spec fn grown(row: ItemRow) -> ItemRow {
    ItemRow {
        cooking_time: scaled_up(row.cooking_time as int, row.quantity as int) as i64,
        quantity: (row.quantity + 1) as i64,
        ..row
    }
}

/// A line item after one unit left it.
pub open spec fn shrunk(row: ItemRow) -> ItemRow {
    ItemRow {
        cooking_time: scaled_down(row.cooking_time as int, row.quantity as int) as i64,
        quantity: (row.quantity - 1) as i64,
        ..row
    }
}

/// Says whether a line item can take one more unit without leaving its columns' ranges.
pub open spec fn can_grow(row: ItemRow) -> bool {
    row.quantity < MAX_QUANTITY && scaled_up(row.cooking_time as int, row.quantity as int)
        <= MAX_COOKING_TIME
}

impl StoreView {
    /// What creating a line of `menu_id` on `order_id` answers: the new
    /// identity, or the constraint that refuses the row.
    pub open spec fn create_item_result(
        self,
        order_id: i64,
        menu_id: i64,
        cooking_time: i64,
    ) -> Result<i64, LedgerError> {
        if !self.has_order(order_id) || !self.has_menu(menu_id) || self.has_line(order_id, menu_id)
            || cooking_time < 0 || cooking_time > MAX_COOKING_TIME {
            Err(LedgerError::ConstraintViolation)
        } else if self.next_item_id == i64::MAX {
            Err(LedgerError::StoreUnavailable)
        } else {
            Ok(self.next_item_id)
        }
    }

    /// The state with a fresh line of one unit appended.
    pub open spec fn with_item(self, order_id: i64, menu_id: i64, cooking_time: i64) -> StoreView {
        StoreView {
            items: self.items.push(
                ItemRow { id: self.next_item_id, order_id, menu_id, cooking_time, quantity: 1 },
            ),
            next_item_id: (self.next_item_id + 1) as i64,
            ..self
        }
    }

    /// What adding one unit to the line item `item_id` answers.
    pub open spec fn increment_result(self, item_id: i64) -> Result<bool, LedgerError> {
        if !self.has_item(item_id) {
            Ok(false)
        } else if !can_grow(self.items[self.item_index(item_id)]) {
            Err(LedgerError::StoreUnavailable)
        } else {
            Ok(true)
        }
    }

    /// The state with the line item `item_id` grown by one unit.
    pub open spec fn with_increment(self, item_id: i64) -> StoreView {
        let k = self.item_index(item_id);
        StoreView { items: self.items.update(k, grown(self.items[k])), ..self }
    }

    /// What taking one unit of `menu_id` off `order_id` answers: the line
    /// shrinks if it has more than one unit, and goes otherwise.
    pub open spec fn removal_outcome(self, order_id: i64, menu_id: i64) -> Outcome {
        if self.has_line(order_id, menu_id) && self.line(order_id, menu_id).quantity > 1 {
            Outcome::QuantityReduced
        } else {
            Outcome::ItemRemoved
        }
    }

    /// The state after taking one unit of `menu_id` off `order_id`.
    pub open spec fn after_removal(self, order_id: i64, menu_id: i64) -> StoreView {
        let k = self.line_index(order_id, menu_id);
        if !self.has_line(order_id, menu_id) {
            self
        } else if self.items[k].quantity > 1 {
            StoreView { items: self.items.update(k, shrunk(self.items[k])), ..self }
        } else {
            StoreView { items: self.items.remove(k), ..self }
        }
    }
}

impl OrderItem {
    /// Looks up the line of `menu_id` on `order_id` and answers its identity.
    pub fn get_existing_order_item_id(
        store: &Store,
        order_id: i64,
        menu_id: i64,
    ) -> (found: Option<i64>)
        requires
            store@.wf(),
        ensures
            found == store@.line_id(order_id, menu_id),
    {
        proof {
            lemma_item_keys_unique(
                store@.items,
                store@.next_item_id,
                store@.orders,
                store@.menus,
            );
        }
        match store.find_line(order_id, menu_id) {
            Some(k) => Some(store.items[k].id),
            None => None,
        }
    }

    /// Creates the line of `menu_id` on `order_id` with one unit and the given
    /// cooking time. Refused with `ConstraintViolation` when the order or the
    /// menu entry does not exist, the order already has a line for that entry,
    /// or the cooking time is outside its range; with `StoreUnavailable` when
    /// no item identity is left.
    pub fn create(
        store: &mut Store,
        order_id: i64,
        menu_id: i64,
        cooking_time: i64,
    ) -> (created: Result<i64, LedgerError>)
        requires
            old(store)@.wf(),
        ensures
            created == old(store)@.create_item_result(order_id, menu_id, cooking_time),
            final(store)@ == if created.is_ok() {
                old(store)@.with_item(order_id, menu_id, cooking_time)
            } else {
                old(store)@
            },
            final(store)@.wf(),
    {
        if store.find_order(order_id).is_none() || store.find_menu(menu_id).is_none()
            || store.find_line(order_id, menu_id).is_some() || cooking_time < 0 || cooking_time
            > MAX_COOKING_TIME {
            return Err(LedgerError::ConstraintViolation);
        }
        if store.next_item_id == i64::MAX {
            return Err(LedgerError::StoreUnavailable);
        }
        let id: i64 = store.next_item_id;
        let ghost before = store@;
        store.items.push(ItemRow { id, order_id, menu_id, cooking_time, quantity: 1 });
        store.next_item_id = id + 1;
        proof {
            let after = store@;
            assert(after == before.with_item(order_id, menu_id, cooking_time));
            assert forall|i: int, j: int| 0 <= i < j < after.items.len() implies !(
            (#[trigger] after.items[i]).order_id == (#[trigger] after.items[j]).order_id
                && after.items[i].menu_id == after.items[j].menu_id) by {
                if j == before.items.len() {
                    assert(!line_at(before.items, i, order_id, menu_id));
                }
            }
            assert(items_wf(after.items, after.next_item_id, after.orders, after.menus));
        }
        Ok(id)
    }

    /// Adds one unit to the line item `order_item_id` and rescales its cooking
    /// time. Answers `false` when there is no such item, and `StoreUnavailable`
    /// when the grown line would leave its columns' ranges.
    pub fn add_quantity_of_existing_order_item(
        store: &mut Store,
        order_item_id: i64,
    ) -> (updated: Result<bool, LedgerError>)
        requires
            old(store)@.wf(),
        ensures
            updated == old(store)@.increment_result(order_item_id),
            final(store)@ == if updated == Ok::<bool, LedgerError>(true) {
                old(store)@.with_increment(order_item_id)
            } else {
                old(store)@
            },
            final(store)@.wf(),
    {
        proof {
            lemma_item_keys_unique(
                store@.items,
                store@.next_item_id,
                store@.orders,
                store@.menus,
            );
        }
        let k = match store.find_item(order_item_id) {
            Some(k) => k,
            None => {
                return Ok(false);
            },
        };
        let row = store.items[k];
        if row.quantity >= MAX_QUANTITY {
            return Err(LedgerError::StoreUnavailable);
        }
        proof {
            lemma_scaling_bounds(row.cooking_time as int, row.quantity as int);
        }
        let time = scale_up_on_quantity_increase(row.cooking_time, row.quantity);
        if time > MAX_COOKING_TIME {
            return Err(LedgerError::StoreUnavailable);
        }
        let ghost before = store@;
        store.items.set(
            k,
            ItemRow {
                id: row.id,
                order_id: row.order_id,
                menu_id: row.menu_id,
                cooking_time: time,
                quantity: row.quantity + 1,
            },
        );
        proof {
            let after = store@;
            assert(after.items == before.items.update(k as int, grown(before.items[k as int])));
            assert(items_wf(after.items, after.next_item_id, after.orders, after.menus));
        }
        Ok(true)
    }

    /// Takes one unit of `menu_id` off `order_id` in one step: a line of more
    /// than one unit shrinks and is rescaled, a line of one unit is deleted,
    /// and where the order has no such line nothing changes.
    pub fn decrement_or_remove(store: &mut Store, order_id: i64, menu_id: i64) -> (outcome: Outcome)
        requires
            old(store)@.wf(),
        ensures
            outcome == old(store)@.removal_outcome(order_id, menu_id),
            final(store)@ == old(store)@.after_removal(order_id, menu_id),
            final(store)@.wf(),
    {
        proof {
            lemma_item_keys_unique(
                store@.items,
                store@.next_item_id,
                store@.orders,
                store@.menus,
            );
        }
        let k = match store.find_line(order_id, menu_id) {
            Some(k) => k,
            None => {
                return Outcome::ItemRemoved;
            },
        };
        let row = store.items[k];
        let ghost before = store@;
        if row.quantity > 1 {
            let time = scale_down_on_quantity_decrease(row.cooking_time, row.quantity);
            store.items.set(
                k,
                ItemRow {
                    id: row.id,
                    order_id: row.order_id,
                    menu_id: row.menu_id,
                    cooking_time: time,
                    quantity: row.quantity - 1,
                },
            );
            proof {
                let after = store@;
                assert(after.items == before.items.update(k as int, shrunk(before.items[k as int])));
                assert(items_wf(after.items, after.next_item_id, after.orders, after.menus));
            }
            Outcome::QuantityReduced
        } else {
            store.items.remove(k);
            proof {
                let after = store@;
                assert(after.items == before.items.remove(k as int));
                assert(items_wf(after.items, after.next_item_id, after.orders, after.menus));
            }
            Outcome::ItemRemoved
        }
    }
}

} // verus!
