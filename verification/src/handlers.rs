//! The ledger's operations: registering tables and menu entries, adding menu
//! entries to the open order of a table, and taking them off again.

use crate::cooking::{initial_cook_time, is_initial_cook_time};
use crate::models::{
    LedgerError, Menu, OrderItem, OrderItemResponse, OrderRequestBody, OrderResponse, Outcome, Table,
};
use crate::store::items::{can_grow, grown};
use crate::store::{
    item_at, lemma_item_keys_unique, lemma_order_keys_unique, line_at, order_at, order_for,
    owned_at, Store, StoreView,
};
use vstd::prelude::*;

verus! {

/// One menu entry to add to an order, with the cooking time it gets should
/// the order not have a line for it yet.
#[derive(Debug, Clone, Copy, PartialEq, Eq, Structural)]
pub struct NewLine {
    pub menu_id: i64,
    pub cooking_time: i64,
}

impl StoreView {
    /// Adding one unit of `line.menu_id` to `order_id`: an existing line grows
    /// by one unit, a missing one is created with `line.cooking_time`.
    pub open spec fn add_one(self, order_id: i64, line: NewLine) -> Result<StoreView, LedgerError> {
        if self.has_line(order_id, line.menu_id) {
            let k = self.line_index(order_id, line.menu_id);
            if can_grow(self.items[k]) {
                Ok(StoreView { items: self.items.update(k, grown(self.items[k])), ..self })
            } else {
                Err(LedgerError::StoreUnavailable)
            }
        } else {
            match self.create_item_result(order_id, line.menu_id, line.cooking_time) {
                Ok(_) => Ok(self.with_item(order_id, line.menu_id, line.cooking_time)),
                Err(e) => Err(e),
            }
        }
    }

    /// Adding `lines` to `order_id` one after the other, stopping at the first refusal.
    pub open spec fn add_all(
        self,
        order_id: i64,
        lines: Seq<NewLine>,
    ) -> Result<StoreView, LedgerError>
        decreases lines.len(),
    {
        if lines.len() == 0 {
            Ok(self)
        } else {
            match self.add_one(order_id, lines[0]) {
                Ok(next) => next.add_all(order_id, lines.drop_first()),
                Err(e) => Err(e),
            }
        }
    }

    /// The order that `add_items` works on: the table's open order, or the
    /// identity a fresh one would get.
    pub open spec fn order_to_fill(self, table_id: i64) -> Result<i64, LedgerError> {
        match self.order_of_table(table_id) {
            Some(id) => Ok(id),
            None => self.create_order_result(table_id),
        }
    }

    /// The state in which `add_items` adds its lines: with a fresh order for
    /// the table if it had none.
    pub open spec fn opened(self, table_id: i64) -> StoreView {
        if self.order_of_table(table_id).is_some() {
            self
        } else {
            self.with_order(table_id)
        }
    }

    /// What adding `lines` to the order of `table_id` answers: `BadRequest` for
    /// no lines, the refusal of opening the order or of the first line that
    /// fails, else the order's identity.
    pub open spec fn add_items_result(
        self,
        table_id: i64,
        lines: Seq<NewLine>,
    ) -> Result<i64, LedgerError> {
        if lines.len() == 0 {
            Err(LedgerError::BadRequest)
        } else {
            match self.order_to_fill(table_id) {
                Err(e) => Err(e),
                Ok(id) => match self.opened(table_id).add_all(id, lines) {
                    Ok(_) => Ok(id),
                    Err(e) => Err(e),
                },
            }
        }
    }

    /// The state after adding `lines` to the order of `table_id`: all of them
    /// applied, or, on any refusal, nothing changed.
    pub open spec fn after_add_items(self, table_id: i64, lines: Seq<NewLine>) -> StoreView {
        match self.add_items_result(table_id, lines) {
            Ok(id) => self.opened(table_id).add_all(id, lines).unwrap(),
            Err(_) => self,
        }
    }

    /// What taking one unit of `menu_id` off the order of `table_id` answers.
    pub open spec fn remove_item_result(
        self,
        table_id: i64,
        menu_id: i64,
    ) -> Result<Outcome, LedgerError> {
        match self.order_of_table(table_id) {
            None => Err(LedgerError::NotFound),
            Some(order_id) => if self.removal_outcome(order_id, menu_id)
                == Outcome::QuantityReduced {
                Ok(Outcome::QuantityReduced)
            } else if self.after_removal(order_id, menu_id).has_items(order_id) {
                Ok(Outcome::ItemRemoved)
            } else {
                Ok(Outcome::ItemRemovedOrderClosed)
            },
        }
    }

    /// The state after taking one unit of `menu_id` off the order of
    /// `table_id`: the line shrunk or gone, and the order gone with its last line.
    pub open spec fn after_remove_item(self, table_id: i64, menu_id: i64) -> StoreView {
        match self.order_of_table(table_id) {
            None => self,
            Some(order_id) => {
                let after = self.after_removal(order_id, menu_id);
                if self.remove_item_result(table_id, menu_id) == Ok::<Outcome, LedgerError>(
                    Outcome::ItemRemovedOrderClosed,
                ) {
                    after.without_order(order_id)
                } else {
                    after
                }
            },
        }
    }

    /// Every order but `order_id` owns at least one line item.
    pub open spec fn settled_but(self, order_id: i64) -> bool {
        &&& self.wf()
        &&& forall|i: int|
            0 <= i < self.orders.len() && self.orders[i].id != order_id ==> self.has_items(
                (#[trigger] self.orders[i]).id,
            )
    }
}

/// Answers the identity of the table registered under `data.code`,
/// registering it first if need be.
pub fn create_table_handler(store: &mut Store, data: &Table) -> (id: Result<i64, LedgerError>)
    requires
        old(store)@.wf(),
    ensures
        id == match old(store)@.table_by_code(data.code@) {
            Some(existing) => Ok::<i64, LedgerError>(existing),
            None => old(store)@.create_table_result(data.code@),
        },
        final(store)@ == if old(store)@.table_by_code(data.code@).is_none() && id.is_ok() {
            old(store)@.with_table(data.code)
        } else {
            old(store)@
        },
        final(store)@.wf(),
        old(store)@.settled() ==> final(store)@.settled(),
{
    match Table::get_existing_table_id(store, data) {
        Some(existing) => Ok(existing),
        None => Table::create(store, data),
    }
}

/// Answers the identity of the menu entry registered under `data.name`,
/// registering it first if need be.
pub fn create_menu_handler(store: &mut Store, data: &Menu) -> (id: Result<i64, LedgerError>)
    requires
        old(store)@.wf(),
    ensures
        id == match old(store)@.menu_by_name(data.name@) {
            Some(existing) => Ok::<i64, LedgerError>(existing),
            None => old(store)@.create_menu_result(data.name@),
        },
        final(store)@ == if old(store)@.menu_by_name(data.name@).is_none() && id.is_ok() {
            old(store)@.with_menu(data.name)
        } else {
            old(store)@
        },
        final(store)@.wf(),
        old(store)@.settled() ==> final(store)@.settled(),
{
    match Menu::get_existing_menu_id(store, data) {
        Some(existing) => Ok(existing),
        None => Menu::create(store, data),
    }
}

/// Adds one unit of `line.menu_id` to `order_id`.
fn add_one(store: &mut Store, order_id: i64, line: NewLine) -> (added: Result<(), LedgerError>)
    requires
        old(store)@.wf(),
    ensures
        match old(store)@.add_one(order_id, line) {
            Ok(next) => added.is_ok() && final(store)@ == next,
            Err(e) => added == Err::<(), LedgerError>(e) && final(store)@ == old(store)@,
        },
        final(store)@.wf(),
{
    proof {
        lemma_item_keys_unique(store@.items, store@.next_item_id, store@.orders, store@.menus);
    }
    match OrderItem::get_existing_order_item_id(store, order_id, line.menu_id) {
        Some(item_id) => {
            proof {
                let k = store@.line_index(order_id, line.menu_id);
                assert(line_at(store@.items, k, order_id, line.menu_id));
                assert(item_at(store@.items, k, item_id));
            }
            match OrderItem::add_quantity_of_existing_order_item(store, item_id) {
                Ok(_) => Ok(()),
                Err(e) => Err(e),
            }
        },
        None => match OrderItem::create(store, order_id, line.menu_id, line.cooking_time) {
            Ok(_) => Ok(()),
            Err(e) => Err(e),
        },
    }
}

/// Adding a unit to an order keeps the lines every order already had, and
/// leaves the order it adds to with at least one.
pub proof fn lemma_add_one_keeps_items(s: StoreView, order_id: i64, line: NewLine)
    requires
        s.wf(),
        s.add_one(order_id, line).is_ok(),
    ensures
        s.add_one(order_id, line).unwrap().has_items(order_id),
        forall|o: i64| s.has_items(o) ==> s.add_one(order_id, line).unwrap().has_items(o),
        s.add_one(order_id, line).unwrap().orders == s.orders,
        s.add_one(order_id, line).unwrap().tables == s.tables,
        s.add_one(order_id, line).unwrap().menus == s.menus,
        s.add_one(order_id, line).unwrap().next_table_id == s.next_table_id,
        s.add_one(order_id, line).unwrap().next_menu_id == s.next_menu_id,
        s.add_one(order_id, line).unwrap().next_order_id == s.next_order_id,
{
    let next = s.add_one(order_id, line).unwrap();
    if s.has_line(order_id, line.menu_id) {
        let k = s.line_index(order_id, line.menu_id);
        assert(line_at(s.items, k, order_id, line.menu_id));
        assert(owned_at(next.items, k, order_id));
    } else {
        assert(owned_at(next.items, s.items.len() as int, order_id));
    }
    assert forall|o: i64| s.has_items(o) implies next.has_items(o) by {
        let w = choose|w: int| owned_at(s.items, w, o);
        assert(owned_at(next.items, w, o));
    }
}

/// Adds `lines` to the open order of `table_id`, opening one if the table has
/// none. Each line adds one unit of its menu entry: a line the order already
/// has grows by one unit and is rescaled, a missing one is created with the
/// line's cooking time. All lines are applied, or, on any refusal, none.
///
/// Refused with `BadRequest` for an empty `lines`, before the store is looked
/// at; with `ConstraintViolation` when the table or a menu entry does not
/// exist or a cooking time is out of range; with `StoreUnavailable` when an
/// identity counter or a line's range is exhausted.
pub fn add_items(
    store: &mut Store,
    table_id: i64,
    lines: &Vec<NewLine>,
) -> (order: Result<i64, LedgerError>)
    requires
        old(store)@.wf(),
    ensures
        order == old(store)@.add_items_result(table_id, lines@),
        final(store)@ == old(store)@.after_add_items(table_id, lines@),
        final(store)@.wf(),
        old(store)@.settled() ==> final(store)@.settled(),
{
    if lines.len() == 0 {
        return Err(LedgerError::BadRequest);
    }
    let ghost before = store@;
    let saved = store.checkpoint();
    let order_id = match OrderResponse::get_existing_order_id(store, table_id) {
        Some(id) => id,
        None => match OrderResponse::create(store, table_id) {
            Ok(id) => id,
            Err(e) => {
                return Err(e);
            },
        },
    };
    let ghost opened = store@;
    proof {
        assert(opened == before.opened(table_id));
        if before.settled() {
            assert forall|i: int|
                0 <= i < opened.orders.len() && opened.orders[i].id
                    != order_id implies opened.has_items((#[trigger] opened.orders[i]).id) by {
                if i < before.orders.len() {
                    assert(before.has_items(before.orders[i].id));
                }
            }
        }
    }
    assert(lines@.skip(0) == lines@);
    let mut i: usize = 0;
    while i < lines.len()
        invariant
            i <= lines.len(),
            lines.len() > 0,
            store@.wf(),
            before == old(store)@,
            before.wf(),
            before.order_to_fill(table_id) == Ok::<i64, LedgerError>(order_id),
            opened == before.opened(table_id),
            store@.add_all(order_id, lines@.skip(i as int)) == opened.add_all(order_id, lines@),
            store@.tables == before.tables,
            store@.menus == before.menus,
            store@.orders == opened.orders,
            store@.next_table_id == before.next_table_id,
            store@.next_menu_id == before.next_menu_id,
            before.settled() ==> store@.settled_but(order_id),
            i > 0 ==> store@.has_items(order_id),
            saved.orders@ == before.orders,
            saved.items@ == before.items,
            saved.next_order_id == before.next_order_id,
            saved.next_item_id == before.next_item_id,
        decreases lines.len() - i,
    {
        let ghost here = store@;
        proof {
            assert(lines@.skip(i as int)[0] == lines@[i as int]);
            assert(lines@.skip(i as int).drop_first() == lines@.skip(i + 1));
            if here.add_one(order_id, lines@[i as int]).is_ok() {
                lemma_add_one_keeps_items(here, order_id, lines@[i as int]);
            }
        }
        match add_one(store, order_id, lines[i]) {
            Ok(_) => {},
            Err(e) => {
                store.restore(saved);
                assert(store@ == before);
                assert(here.add_all(order_id, lines@.skip(i as int)) == Err::<
                    StoreView,
                    LedgerError,
                >(e));
                return Err(e);
            },
        }
        i += 1;
    }
    proof {
        assert(lines@.skip(i as int).len() == 0);
        if before.settled() {
            assert forall|k: int| 0 <= k < store@.orders.len() implies store@.has_items(
                (#[trigger] store@.orders[k]).id,
            ) by {}
        }
    }
    Ok(order_id)
}

/// Pairs each menu entry with a freshly drawn cooking time.
fn draw_lines(menu_ids: &Vec<i64>) -> (lines: Vec<NewLine>)
    ensures
        drawn_for(menu_ids@, lines@),
{
    let mut lines: Vec<NewLine> = Vec::new();
    let mut i: usize = 0;
    while i < menu_ids.len()
        invariant
            i <= menu_ids.len(),
            lines.len() == i,
            forall|k: int|
                0 <= k < i ==> (#[trigger] lines[k]).menu_id == menu_ids[k] && is_initial_cook_time(
                    lines[k].cooking_time,
                ),
        decreases menu_ids.len() - i,
    {
        lines.push(NewLine { menu_id: menu_ids[i], cooking_time: initial_cook_time() });
        i += 1;
    }
    lines
}

/// `lines` names the entries of `menu_ids` in order, each with a cooking time
/// that a fresh line item may draw.
pub open spec fn drawn_for(menu_ids: Seq<i64>, lines: Seq<NewLine>) -> bool {
    &&& lines.len() == menu_ids.len()
    &&& forall|k: int|
        0 <= k < lines.len() ==> (#[trigger] lines[k]).menu_id == menu_ids[k]
            && is_initial_cook_time(lines[k].cooking_time)
}

/// Adds the menu entries of a request to the open order of its table, each
/// with a cooking time drawn afresh; see `add_items` for what is done with them.
/// The times are drawn by chance, so the contract says that some draw within
/// the policy's range explains the result.
pub fn create_order_handler(
    store: &mut Store,
    req_body: &OrderRequestBody,
) -> (order: Result<i64, LedgerError>)
    requires
        old(store)@.wf(),
    ensures
        exists|lines: Seq<NewLine>|
            drawn_for(req_body.menu_ids@, lines) && order == old(store)@.add_items_result(
                req_body.table_id,
                lines,
            ) && final(store)@ == #[trigger] old(store)@.after_add_items(req_body.table_id, lines),
        req_body.menu_ids@.len() == 0 ==> order == Err::<i64, LedgerError>(LedgerError::BadRequest)
            && final(store)@ == old(store)@,
        final(store)@.wf(),
        old(store)@.settled() ==> final(store)@.settled(),
{
    let lines = draw_lines(&req_body.menu_ids);
    add_items(store, req_body.table_id, &lines)
}

/// Takes one unit of `menu_id` off the open order of `table_id`. A line of
/// more than one unit shrinks; a line of one unit goes, and takes the order
/// with it if it was the last. Refused with `NotFound` when the table has no
/// open order.
pub fn delete_order_item_handler(
    store: &mut Store,
    table_id: i64,
    menu_id: i64,
) -> (outcome: Result<Outcome, LedgerError>)
    requires
        old(store)@.wf(),
    ensures
        outcome == old(store)@.remove_item_result(table_id, menu_id),
        final(store)@ == old(store)@.after_remove_item(table_id, menu_id),
        final(store)@.wf(),
        old(store)@.settled() ==> final(store)@.settled(),
{
    let ghost before = store@;
    proof {
        lemma_order_keys_unique(before.orders, before.next_order_id, before.tables);
        lemma_item_keys_unique(before.items, before.next_item_id, before.orders, before.menus);
    }
    let order_id = match OrderResponse::get_existing_order_id(store, table_id) {
        Some(id) => id,
        None => {
            return Err(LedgerError::NotFound);
        },
    };
    let ghost at = choose|i: int| order_for(before.orders, i, table_id);
    assert(order_for(before.orders, at, table_id));
    assert(order_at(before.orders, at, order_id));
    match OrderItem::decrement_or_remove(store, order_id, menu_id) {
        Outcome::QuantityReduced => {
            proof {
                lemma_removal_keeps_items(before, order_id, menu_id);
            }
            return Ok(Outcome::QuantityReduced);
        },
        _ => {},
    }
    let ghost after = store@;
    proof {
        lemma_removal_keeps_items(before, order_id, menu_id);
    }
    if OrderResponse::has_items(store, order_id) {
        Ok(Outcome::ItemRemoved)
    } else {
        let deleted = OrderResponse::delete(store, order_id);
        proof {
            assert(order_at(after.orders, at, order_id));
            assert(deleted == Ok::<bool, LedgerError>(true));
            lemma_order_keys_unique(after.orders, after.next_order_id, after.tables);
            let gone = choose|i: int| order_at(after.orders, i, order_id);
            assert(gone == at);
            if before.settled() {
                assert forall|i: int| 0 <= i < store@.orders.len() implies store@.has_items(
                    (#[trigger] store@.orders[i]).id,
                ) by {
                    if i < at {
                        assert(store@.orders[i] == after.orders[i]);
                    } else {
                        assert(store@.orders[i] == after.orders[i + 1]);
                    }
                }
            }
        }
        Ok(Outcome::ItemRemovedOrderClosed)
    }
}

/// Answers the line of `menu_id` on the open order of `table_id`. Refused
/// with `NotFound` when the table has no order or the order no such line.
pub fn get_order_item_for_table_handler(
    store: &Store,
    table_id: i64,
    menu_id: i64,
) -> (item: Result<OrderItemResponse, LedgerError>)
    requires
        store@.wf(),
    ensures
        item == match store@.item_of_table(table_id, menu_id) {
            Some(found) => Ok::<OrderItemResponse, LedgerError>(found),
            None => Err::<OrderItemResponse, LedgerError>(LedgerError::NotFound),
        },
{
    match OrderItem::get_item(store, table_id, menu_id) {
        Some(found) => Ok(found),
        None => Err(LedgerError::NotFound),
    }
}

/// Taking a unit off an order leaves every other order the lines it had.
pub proof fn lemma_removal_keeps_items(s: StoreView, order_id: i64, menu_id: i64)
    requires
        s.wf(),
    ensures
        forall|o: i64|
            o != order_id && s.has_items(o) ==> s.after_removal(order_id, menu_id).has_items(o),
        s.removal_outcome(order_id, menu_id) == Outcome::QuantityReduced ==> s.after_removal(
            order_id,
            menu_id,
        ).has_items(order_id),
{
    let next = s.after_removal(order_id, menu_id);
    let k = s.line_index(order_id, menu_id);
    if s.has_line(order_id, menu_id) {
        assert(line_at(s.items, k, order_id, menu_id));
        if s.items[k].quantity > 1 {
            assert(owned_at(next.items, k, order_id));
        }
    }
    assert forall|o: i64| o != order_id && s.has_items(o) implies next.has_items(o) by {
        let w = choose|w: int| owned_at(s.items, w, o);
        assert(owned_at(s.items, w, o));
        if !s.has_line(order_id, menu_id) || s.items[k].quantity > 1 {
            assert(owned_at(next.items, w, o));
        } else if w < k {
            assert(owned_at(next.items, w, o));
        } else {
            assert(owned_at(next.items, w - 1, o));
        }
    }
}

} // verus!
