//! Tables: registered once under a unique code, never changed or deleted.

use crate::models::{LedgerError, Table, TableResponse};
use crate::store::{
    lemma_table_keys_unique, orders_wf, table_at, table_coded, table_exists, tables_wf, Store,
    StoreView,
};
use vstd::prelude::*;

verus! {

impl StoreView {
    /// What registering a table under `code` answers: the new identity, or
    /// the constraint that refuses the row.
    pub open spec fn create_table_result(self, code: Seq<char>) -> Result<i64, LedgerError> {
        if self.table_by_code(code).is_some() {
            Err(LedgerError::ConstraintViolation)
        } else if self.next_table_id == i64::MAX {
            Err(LedgerError::StoreUnavailable)
        } else {
            Ok(self.next_table_id)
        }
    }

    /// The state with a fresh table under `code` appended.
    pub open spec fn with_table(self, code: String) -> StoreView {
        StoreView {
            tables: self.tables.push(TableResponse { id: self.next_table_id, code }),
            next_table_id: (self.next_table_id + 1) as i64,
            ..self
        }
    }
}

impl Table {
    /// Registers a table under `table.code`. Refused with
    /// `ConstraintViolation` when the code is taken, with `StoreUnavailable`
    /// when no table identity is left.
    pub fn create(store: &mut Store, table: &Table) -> (created: Result<i64, LedgerError>)
        requires
            old(store)@.wf(),
        ensures
            created == old(store)@.create_table_result(table.code@),
            final(store)@ == if created.is_ok() {
                old(store)@.with_table(table.code)
            } else {
                old(store)@
            },
            final(store)@.wf(),
    {
        if store.find_table_coded(&table.code).is_some() {
            return Err(LedgerError::ConstraintViolation);
        }
        if store.next_table_id == i64::MAX {
            return Err(LedgerError::StoreUnavailable);
        }
        let id: i64 = store.next_table_id;
        let ghost before = store@;
        store.tables.push(TableResponse { id, code: table.code.clone() });
        store.next_table_id = id + 1;
        proof {
            let after = store@;
            assert(after == before.with_table(table.code));
            assert forall|i: int, j: int| 0 <= i < j < after.tables.len() implies (
            #[trigger] after.tables[i]).code@ != (#[trigger] after.tables[j]).code@ by {
                if j == before.tables.len() {
                    assert(!table_coded(before.tables, i, table.code@));
                }
            }
            assert(tables_wf(after.tables, after.next_table_id));
            assert forall|i: int| 0 <= i < after.orders.len() implies table_exists(
                after.tables,
                (#[trigger] after.orders[i]).table_id,
            ) by {
                let w = choose|w: int| table_at(before.tables, w, before.orders[i].table_id);
                assert(table_at(after.tables, w, after.orders[i].table_id));
            }
            assert(orders_wf(after.orders, after.next_order_id, after.tables));
        }
        Ok(id)
    }

    /// Lists every table, oldest first.
    pub fn list(store: &Store) -> (tables: Vec<TableResponse>)
        ensures
            tables@ == store@.tables,
    {
        let mut out: Vec<TableResponse> = Vec::new();
        let mut i: usize = 0;
        while i < store.tables.len()
            invariant
                i <= store.tables.len(),
                out@ == store.tables@.take(i as int),
            decreases store.tables.len() - i,
        {
            out.push(TableResponse { id: store.tables[i].id, code: store.tables[i].code.clone() });
            assert(out@ == store.tables@.take(i + 1));
            i += 1;
        }
        assert(store.tables@.take(i as int) == store.tables@);
        out
    }

    /// Answers the identity of the table registered under `table.code`, if any.
    pub fn get_existing_table_id(store: &Store, table: &Table) -> (found: Option<i64>)
        requires
            store@.wf(),
        ensures
            found == store@.table_by_code(table.code@),
    {
        proof {
            lemma_table_keys_unique(store@.tables, store@.next_table_id);
        }
        match store.find_table_coded(&table.code) {
            Some(k) => Some(store.tables[k].id),
            None => None,
        }
    }
}

} // verus!
