//! Menu entries: registered once under a unique name, never changed or deleted.

use crate::models::{LedgerError, Menu, MenuResponse};
use crate::store::{
    items_wf, lemma_menu_keys_unique, menu_at, menu_exists, menu_named, menus_wf, Store,
    StoreView,
};
use vstd::prelude::*;

verus! {

impl StoreView {
    /// What registering a menu entry under `name` answers: the new identity, or
    /// the constraint that refuses the row.
    pub open spec fn create_menu_result(self, name: Seq<char>) -> Result<i64, LedgerError> {
        if self.menu_by_name(name).is_some() {
            Err(LedgerError::ConstraintViolation)
        } else if self.next_menu_id == i64::MAX {
            Err(LedgerError::StoreUnavailable)
        } else {
            Ok(self.next_menu_id)
        }
    }

    /// The state with a fresh menu entry under `name` appended.
    pub open spec fn with_menu(self, name: String) -> StoreView {
        StoreView {
            menus: self.menus.push(MenuResponse { id: self.next_menu_id, name }),
            next_menu_id: (self.next_menu_id + 1) as i64,
            ..self
        }
    }
}

impl Menu {
    /// Registers a menu entry under `menu.name`. Refused with
    /// `ConstraintViolation` when the name is taken, with `StoreUnavailable`
    /// when no menu identity is left.
    pub fn create(store: &mut Store, menu: &Menu) -> (created: Result<i64, LedgerError>)
        requires
            old(store)@.wf(),
        ensures
            created == old(store)@.create_menu_result(menu.name@),
            final(store)@ == if created.is_ok() {
                old(store)@.with_menu(menu.name)
            } else {
                old(store)@
            },
            final(store)@.wf(),
    {
        if store.find_menu_named(&menu.name).is_some() {
            return Err(LedgerError::ConstraintViolation);
        }
        if store.next_menu_id == i64::MAX {
            return Err(LedgerError::StoreUnavailable);
        }
        let id: i64 = store.next_menu_id;
        let ghost before = store@;
        store.menus.push(MenuResponse { id, name: menu.name.clone() });
        store.next_menu_id = id + 1;
        proof {
            let after = store@;
            assert(after == before.with_menu(menu.name));
            assert forall|i: int, j: int| 0 <= i < j < after.menus.len() implies (
            #[trigger] after.menus[i]).name@ != (#[trigger] after.menus[j]).name@ by {
                if j == before.menus.len() {
                    assert(!menu_named(before.menus, i, menu.name@));
                }
            }
            assert(menus_wf(after.menus, after.next_menu_id));
            assert forall|i: int| 0 <= i < after.items.len() implies menu_exists(
                after.menus,
                (#[trigger] after.items[i]).menu_id,
            ) by {
                let w = choose|w: int| menu_at(before.menus, w, before.items[i].menu_id);
                assert(menu_at(after.menus, w, after.items[i].menu_id));
            }
            assert(items_wf(after.items, after.next_item_id, after.orders, after.menus));
        }
        Ok(id)
    }

    /// Lists every menu entry, oldest first.
    pub fn list(store: &Store) -> (menus: Vec<MenuResponse>)
        ensures
            menus@ == store@.menus,
    {
        let mut out: Vec<MenuResponse> = Vec::new();
        let mut i: usize = 0;
        while i < store.menus.len()
            invariant
                i <= store.menus.len(),
                out@ == store.menus@.take(i as int),
            decreases store.menus.len() - i,
        {
            out.push(MenuResponse { id: store.menus[i].id, name: store.menus[i].name.clone() });
            assert(out@ == store.menus@.take(i + 1));
            i += 1;
        }
        assert(store.menus@.take(i as int) == store.menus@);
        out
    }

    /// Answers the identity of the menu entry registered under `menu.name`, if any.
    pub fn get_existing_menu_id(store: &Store, menu: &Menu) -> (found: Option<i64>)
        requires
            store@.wf(),
        ensures
            found == store@.menu_by_name(menu.name@),
    {
        proof {
            lemma_menu_keys_unique(store@.menus, store@.next_menu_id);
        }
        match store.find_menu_named(&menu.name) {
            Some(k) => Some(store.menus[k].id),
            None => None,
        }
    }
}

} // verus!
