//! Orders: at most one per table, opened on demand and deleted once empty.

use crate::models::{LedgerError, OrderResponse};
use crate::store::{
    items_wf, lemma_order_keys_unique, order_at, order_exists, order_for, orders_wf, owned_at,
    ItemRow, OrderRow, Store, StoreView, MAX_COOKING_TIME,
};
use vstd::prelude::*;

verus! {

/// Sum of the cooking times of the rows of `items` that belong to `order_id`.
pub open spec fn total_time(items: Seq<ItemRow>, order_id: i64) -> int
    decreases items.len(),
{
    if items.len() == 0 {
        0
    } else {
        total_time(items.drop_last(), order_id) + if items.last().order_id == order_id {
            items.last().cooking_time as int
        } else {
            0
        }
    }
}

impl StoreView {
    /// What opening an order for `table_id` answers: the new identity, or the
    /// constraint that refuses the row.
    pub open spec fn create_order_result(self, table_id: i64) -> Result<i64, LedgerError> {
        if !self.has_table(table_id) || self.order_of_table(table_id).is_some() {
            Err(LedgerError::ConstraintViolation)
        } else if self.next_order_id == i64::MAX {
            Err(LedgerError::StoreUnavailable)
        } else {
            Ok(self.next_order_id)
        }
    }

    /// The state with a fresh order for `table_id` appended.
    pub open spec fn with_order(self, table_id: i64) -> StoreView {
        StoreView {
            orders: self.orders.push(OrderRow { id: self.next_order_id, table_id }),
            next_order_id: (self.next_order_id + 1) as i64,
            ..self
        }
    }

    /// What deleting the order `order_id` answers: refused while it owns line
    /// items, else whether there was such an order.
    pub open spec fn delete_order_result(self, order_id: i64) -> Result<bool, LedgerError> {
        if self.has_items(order_id) {
            Err(LedgerError::ConstraintViolation)
        } else {
            Ok(self.has_order(order_id))
        }
    }

    /// The state with the row of order `order_id` taken out.
    pub open spec fn without_order(self, order_id: i64) -> StoreView {
        StoreView {
            orders: self.orders.remove(choose|i: int| order_at(self.orders, i, order_id)),
            ..self
        }
    }

    /// Sum of the cooking times of the line items of `order_id`.
    pub open spec fn total_cooking_time(self, order_id: i64) -> int {
        total_time(self.items, order_id)
    }
}

impl OrderResponse {
    /// Opens an order for `table_id`. Refused with `ConstraintViolation` when
    /// the table does not exist or already has an order, with
    /// `StoreUnavailable` when no order identity is left.
    pub fn create(store: &mut Store, table_id: i64) -> (created: Result<i64, LedgerError>)
        requires
            old(store)@.wf(),
        ensures
            created == old(store)@.create_order_result(table_id),
            final(store)@ == if created.is_ok() {
                old(store)@.with_order(table_id)
            } else {
                old(store)@
            },
            final(store)@.wf(),
    {
        if store.find_table(table_id).is_none() || store.find_order_for(table_id).is_some() {
            return Err(LedgerError::ConstraintViolation);
        }
        if store.next_order_id == i64::MAX {
            return Err(LedgerError::StoreUnavailable);
        }
        let id: i64 = store.next_order_id;
        let ghost before = store@;
        store.orders.push(OrderRow { id, table_id });
        store.next_order_id = id + 1;
        proof {
            let after = store@;
            assert(after == before.with_order(table_id));
            assert forall|i: int, j: int| 0 <= i < j < after.orders.len() implies (
            #[trigger] after.orders[i]).table_id != (#[trigger] after.orders[j]).table_id by {
                if j == before.orders.len() {
                    assert(!order_for(before.orders, i, table_id));
                }
            }
            assert(orders_wf(after.orders, after.next_order_id, after.tables));
            assert forall|i: int| 0 <= i < after.items.len() implies order_exists(
                after.orders,
                (#[trigger] after.items[i]).order_id,
            ) by {
                let w = choose|w: int| order_at(before.orders, w, before.items[i].order_id);
                assert(order_at(after.orders, w, after.items[i].order_id));
            }
            assert(items_wf(after.items, after.next_item_id, after.orders, after.menus));
        }
        Ok(id)
    }

    /// Answers the identity of the open order of `table_id`, if it has one.
    pub fn get_existing_order_id(store: &Store, table_id: i64) -> (found: Option<i64>)
        requires
            store@.wf(),
        ensures
            found == store@.order_of_table(table_id),
    {
        proof {
            lemma_order_keys_unique(store@.orders, store@.next_order_id, store@.tables);
        }
        match store.find_order_for(table_id) {
            Some(k) => Some(store.orders[k].id),
            None => None,
        }
    }

    /// Says whether the order `order_id` owns any line item.
    pub fn has_items(store: &Store, order_id: i64) -> (any: bool)
        ensures
            any == store@.has_items(order_id),
    {
        let mut i: usize = 0;
        while i < store.items.len()
            invariant
                i <= store.items.len(),
                forall|j: int| 0 <= j < i ==> !owned_at(store.items@, j, order_id),
            decreases store.items.len() - i,
        {
            if store.items[i].order_id == order_id {
                assert(owned_at(store@.items, i as int, order_id));
                return true;
            }
            i += 1;
        }
        false
    }

    /// Deletes the order `order_id`. Refused with `ConstraintViolation` while
    /// the order still owns line items; answers `false` when there is no such order.
    pub fn delete(store: &mut Store, order_id: i64) -> (deleted: Result<bool, LedgerError>)
        requires
            old(store)@.wf(),
        ensures
            deleted == old(store)@.delete_order_result(order_id),
            final(store)@ == if deleted == Ok::<bool, LedgerError>(true) {
                old(store)@.without_order(order_id)
            } else {
                old(store)@
            },
            final(store)@.wf(),
    {
        if OrderResponse::has_items(store, order_id) {
            return Err(LedgerError::ConstraintViolation);
        }
        proof {
            lemma_order_keys_unique(store@.orders, store@.next_order_id, store@.tables);
        }
        let k = match store.find_order(order_id) {
            Some(k) => k,
            None => {
                return Ok(false);
            },
        };
        let ghost before = store@;
        store.orders.remove(k);
        proof {
            let after = store@;
            assert(after == before.without_order(order_id));
            assert(orders_wf(after.orders, after.next_order_id, after.tables));
            assert forall|i: int| 0 <= i < after.items.len() implies order_exists(
                after.orders,
                (#[trigger] after.items[i]).order_id,
            ) by {
                let o = before.items[i].order_id;
                assert(!owned_at(before.items, i, order_id));
                let w = choose|w: int| order_at(before.orders, w, o);
                if w < k {
                    assert(order_at(after.orders, w, o));
                } else {
                    assert(order_at(after.orders, w - 1, o));
                }
            }
            assert(items_wf(after.items, after.next_item_id, after.orders, after.menus));
        }
        Ok(true)
    }

    /// Sums the cooking times of the line items of `order_id`, afresh on every
    /// call. An order without items sums to zero. Answers `StoreUnavailable`
    /// when the sum does not fit the result.
    pub fn calculate_total_cooking_time(
        store: &Store,
        order_id: i64,
    ) -> (total: Result<i32, LedgerError>)
        requires
            store@.wf(),
        ensures
            match total {
                Ok(t) => t == store@.total_cooking_time(order_id),
                Err(e) => e == LedgerError::StoreUnavailable && store@.total_cooking_time(order_id)
                    > i32::MAX,
            },
    {
        let mut sum: i128 = 0;
        let mut i: usize = 0;
        while i < store.items.len()
            invariant
                i <= store.items.len(),
                store@.wf(),
                sum == total_time(store.items@.take(i as int), order_id),
                0 <= sum <= i * MAX_COOKING_TIME,
            decreases store.items.len() - i,
        {
            proof {
                assert(store.items@.take(i + 1).drop_last() == store.items@.take(i as int));
            }
            if store.items[i].order_id == order_id {
                sum = sum + store.items[i].cooking_time as i128;
            }
            i += 1;
        }
        proof {
            assert(store.items@.take(i as int) == store.items@);
        }
        if sum > i32::MAX as i128 {
            Err(LedgerError::StoreUnavailable)
        } else {
            Ok(sum as i32)
        }
    }
}

} // verus!
