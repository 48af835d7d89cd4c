//! What holds of the ledger's operations taken together, stated over the
//! spec functions that their contracts use.

use crate::cooking::{lemma_scaling_bounds, MAX_UNIT_COOK_TIME, MIN_UNIT_COOK_TIME};
use crate::handlers::{drawn_for, lemma_add_one_keeps_items, NewLine};
use crate::models::{LedgerError, MenuResponse, OrderItemResponse, Outcome};
use crate::store::items::{can_grow, grown, shrunk};
use crate::store::listing::{item_response, lines_of};
use crate::store::orders::total_time;
use crate::store::{
    lemma_item_keys_unique, lemma_order_keys_unique, line_at, order_at, order_exists, order_for,
    owned_at, ItemRow, OrderRow, StoreView,
};
use vstd::prelude::*;

verus! {

/// No line item belongs to an order whose identity has not been handed out yet.
pub proof fn lemma_no_items_of_future_order(s: StoreView, order_id: i64)
    requires
        s.wf(),
        order_id >= s.next_order_id,
    ensures
        forall|i: int| 0 <= i < s.items.len() ==> (#[trigger] s.items[i]).order_id != order_id,
        !s.has_items(order_id),
        forall|m: i64| !s.has_line(order_id, m),
        !s.has_order(order_id),
{
    assert forall|i: int| 0 <= i < s.items.len() implies (#[trigger] s.items[i]).order_id
        != order_id by {
        let w = choose|w: int| order_at(s.orders, w, s.items[i].order_id);
        assert(order_at(s.orders, w, s.items[i].order_id));
    }
}

/// Rows that belong to other orders add nothing to an order's listing or total.
pub proof fn lemma_foreign_rows_add_nothing(
    items: Seq<ItemRow>,
    menus: Seq<MenuResponse>,
    order_id: i64,
)
    requires
        forall|i: int| 0 <= i < items.len() ==> (#[trigger] items[i]).order_id != order_id,
    ensures
        lines_of(items, menus, order_id) == Seq::<OrderItemResponse>::empty(),
        total_time(items, order_id) == 0,
    decreases items.len(),
{
    if items.len() > 0 {
        lemma_foreign_rows_add_nothing(items.drop_last(), menus, order_id);
    }
}

/// Adding one menu entry to a table without an order opens exactly one order
/// and creates exactly one line item for it, of one unit, with the cooking
/// time that was drawn, which lies within the policy's range. It holds while
/// the order and item counters have an identity left.
pub proof fn law_first_item_opens_one_order(
    s: StoreView,
    table_id: i64,
    menu_id: i64,
    lines: Seq<NewLine>,
)
    requires
        s.wf(),
        s.has_table(table_id),
        s.has_menu(menu_id),
        s.order_of_table(table_id).is_none(),
        drawn_for(seq![menu_id], lines),
        s.next_order_id < i64::MAX,
        s.next_item_id < i64::MAX,
    ensures
        s.add_items_result(table_id, lines) == Ok::<i64, LedgerError>(s.next_order_id),
        s.after_add_items(table_id, lines).orders == s.orders.push(
            OrderRow { id: s.next_order_id, table_id },
        ),
        s.after_add_items(table_id, lines).items == s.items.push(
            ItemRow {
                id: s.next_item_id,
                order_id: s.next_order_id,
                menu_id,
                cooking_time: lines[0].cooking_time,
                quantity: 1,
            },
        ),
        MIN_UNIT_COOK_TIME <= lines[0].cooking_time <= MAX_UNIT_COOK_TIME,
        s.after_add_items(table_id, lines).tables == s.tables,
        s.after_add_items(table_id, lines).menus == s.menus,
{
    let id = s.next_order_id;
    let opened = s.with_order(table_id);
    assert(lines[0].menu_id == seq![menu_id][0]);
    lemma_no_items_of_future_order(s, id);
    assert(order_at(opened.orders, s.orders.len() as int, id));
    assert(!opened.has_line(id, menu_id));
    let one = opened.add_one(id, lines[0]);
    assert(one == Ok::<StoreView, LedgerError>(
        opened.with_item(id, menu_id, lines[0].cooking_time),
    ));
    assert(lines.drop_first().len() == 0);
    assert(opened.add_all(id, lines) == one.unwrap().add_all(id, lines.drop_first()));
}

/// Adding a menu entry that the table's order already holds with quantity `q`
/// and cooking time `c` creates no row: the line then has quantity `q + 1` and
/// cooking time `(c / q) * (q + 1)`, with truncating division. It holds while
/// the grown line stays within its columns' ranges.
pub proof fn law_repeated_entry_grows_line(
    s: StoreView,
    table_id: i64,
    order_id: i64,
    line: NewLine,
)
    requires
        s.wf(),
        s.order_of_table(table_id) == Some(order_id),
        s.has_line(order_id, line.menu_id),
        can_grow(s.line(order_id, line.menu_id)),
    ensures
        s.add_items_result(table_id, seq![line]) == Ok::<i64, LedgerError>(order_id),
        s.after_add_items(table_id, seq![line]).has_line(order_id, line.menu_id),
        s.after_add_items(table_id, seq![line]).line(order_id, line.menu_id).quantity == s.line(
            order_id,
            line.menu_id,
        ).quantity + 1,
        s.after_add_items(table_id, seq![line]).line(order_id, line.menu_id).cooking_time == (
        s.line(order_id, line.menu_id).cooking_time / s.line(order_id, line.menu_id).quantity) * (
        s.line(order_id, line.menu_id).quantity + 1),
        s.after_add_items(table_id, seq![line]).items.len() == s.items.len(),
        s.after_add_items(table_id, seq![line]).orders == s.orders,
{
    let lines = seq![line];
    let k = s.line_index(order_id, line.menu_id);
    let row = s.items[k];
    assert(line_at(s.items, k, order_id, line.menu_id));
    let next = StoreView { items: s.items.update(k, grown(row)), ..s };
    assert(lines[0] == line);
    assert(s.add_one(order_id, lines[0]) == Ok::<StoreView, LedgerError>(next));
    assert(lines.drop_first().len() == 0);
    assert(s.add_all(order_id, lines) == next.add_all(order_id, lines.drop_first()));
    assert(s.after_add_items(table_id, lines) == next);
    lemma_item_keys_unique(s.items, s.next_item_id, s.orders, s.menus);
    assert(line_at(next.items, k, order_id, line.menu_id));
    let j = next.line_index(order_id, line.menu_id);
    assert(line_at(next.items, j, order_id, line.menu_id));
    assert(line_at(s.items, j, order_id, line.menu_id));
    assert(j == k);
    lemma_scaling_bounds(row.cooking_time as int, row.quantity as int);
}

/// Removing a menu entry whose line has one unit deletes the line: the
/// answer is never `QuantityReduced`. If the order then owns no other line,
/// the order goes with it, the answer is `ItemRemovedOrderClosed`, the table
/// has no order any more, and the next order opened for that table gets an
/// identity that differs from the closed one's.
pub proof fn law_last_unit_removes_line(
    s: StoreView,
    table_id: i64,
    order_id: i64,
    menu_id: i64,
    lines: Seq<NewLine>,
)
    requires
        s.wf(),
        s.order_of_table(table_id) == Some(order_id),
        s.has_line(order_id, menu_id),
        s.line(order_id, menu_id).quantity == 1,
    ensures
        s.remove_item_result(table_id, menu_id) == Ok::<Outcome, LedgerError>(Outcome::ItemRemoved)
            || s.remove_item_result(table_id, menu_id) == Ok::<Outcome, LedgerError>(
            Outcome::ItemRemovedOrderClosed,
        ),
        !s.after_remove_item(table_id, menu_id).has_line(order_id, menu_id),
        s.after_remove_item(table_id, menu_id).items == s.items.remove(
            s.line_index(order_id, menu_id),
        ),
        (forall|i: int| owned_at(s.items, i, order_id) ==> s.items[i].menu_id == menu_id) <==> (
        s.remove_item_result(table_id, menu_id) == Ok::<Outcome, LedgerError>(
            Outcome::ItemRemovedOrderClosed,
        )),
        s.remove_item_result(table_id, menu_id) == Ok::<Outcome, LedgerError>(
            Outcome::ItemRemovedOrderClosed,
        ) ==> {
            let closed = s.after_remove_item(table_id, menu_id);
            &&& !closed.has_order(order_id)
            &&& closed.order_of_table(table_id).is_none()
            &&& closed.add_items_result(table_id, lines).is_ok()
                ==> closed.add_items_result(table_id, lines).unwrap() != order_id
                && closed.add_items_result(table_id, lines).unwrap() == s.next_order_id
        },
        s.remove_item_result(table_id, menu_id) == Ok::<Outcome, LedgerError>(Outcome::ItemRemoved)
            ==> s.after_remove_item(table_id, menu_id).order_of_table(table_id) == Some(order_id),
{
    lemma_item_keys_unique(s.items, s.next_item_id, s.orders, s.menus);
    lemma_order_keys_unique(s.orders, s.next_order_id, s.tables);
    let k = s.line_index(order_id, menu_id);
    assert(line_at(s.items, k, order_id, menu_id));
    let at = choose|i: int| order_for(s.orders, i, table_id);
    assert(order_for(s.orders, at, table_id));
    assert(order_at(s.orders, at, order_id));
    let after = s.after_removal(order_id, menu_id);
    assert(after.items == s.items.remove(k));
    assert forall|j: int| !line_at(after.items, j, order_id, menu_id) by {
        if line_at(after.items, j, order_id, menu_id) {
            if j < k {
                assert(line_at(s.items, j, order_id, menu_id));
            } else {
                assert(line_at(s.items, j + 1, order_id, menu_id));
            }
        }
    }
    if forall|i: int| owned_at(s.items, i, order_id) ==> s.items[i].menu_id == menu_id {
        assert forall|j: int| !owned_at(after.items, j, order_id) by {
            if owned_at(after.items, j, order_id) {
                if j < k {
                    assert(owned_at(s.items, j, order_id));
                    assert(line_at(s.items, j, order_id, menu_id));
                } else {
                    assert(owned_at(s.items, j + 1, order_id));
                    assert(line_at(s.items, j + 1, order_id, menu_id));
                }
            }
        }
    } else {
        let i = choose|i: int| owned_at(s.items, i, order_id) && s.items[i].menu_id != menu_id;
        if i < k {
            assert(owned_at(after.items, i, order_id));
        } else {
            assert(owned_at(after.items, i - 1, order_id));
        }
    }
    if s.remove_item_result(table_id, menu_id) == Ok::<Outcome, LedgerError>(
        Outcome::ItemRemovedOrderClosed,
    ) {
        let closed = s.after_remove_item(table_id, menu_id);
        let gone = choose|i: int| order_at(after.orders, i, order_id);
        assert(order_at(after.orders, at, order_id));
        assert(gone == at);
        assert(closed.orders == s.orders.remove(at));
        assert forall|j: int| !order_at(closed.orders, j, order_id) by {
            if order_at(closed.orders, j, order_id) {
                if j < at {
                    assert(order_at(s.orders, j, order_id));
                } else {
                    assert(order_at(s.orders, j + 1, order_id));
                }
            }
        }
        assert forall|j: int| !order_for(closed.orders, j, table_id) by {
            if order_for(closed.orders, j, table_id) {
                if j < at {
                    assert(order_for(s.orders, j, table_id));
                } else {
                    assert(order_for(s.orders, j + 1, table_id));
                }
            }
        }
        assert(closed.next_order_id == s.next_order_id);
    } else {
        assert(after.orders == s.orders);
    }
}

/// Removing a menu entry whose line has quantity `q > 1` and cooking time
/// `c` answers `QuantityReduced`: the line then has quantity `q - 1` and cooking
/// time `c - c / q`, with truncating division, the order is still the table's
/// order, and it still owns line items.
pub proof fn law_spare_unit_shrinks_line(s: StoreView, table_id: i64, order_id: i64, menu_id: i64)
    requires
        s.wf(),
        s.order_of_table(table_id) == Some(order_id),
        s.has_line(order_id, menu_id),
        s.line(order_id, menu_id).quantity > 1,
    ensures
        s.remove_item_result(table_id, menu_id) == Ok::<Outcome, LedgerError>(
            Outcome::QuantityReduced,
        ),
        s.after_remove_item(table_id, menu_id).has_line(order_id, menu_id),
        s.after_remove_item(table_id, menu_id).line(order_id, menu_id).quantity == s.line(
            order_id,
            menu_id,
        ).quantity - 1,
        s.after_remove_item(table_id, menu_id).line(order_id, menu_id).cooking_time == s.line(
            order_id,
            menu_id,
        ).cooking_time - s.line(order_id, menu_id).cooking_time / s.line(
            order_id,
            menu_id,
        ).quantity,
        s.after_remove_item(table_id, menu_id).order_of_table(table_id) == Some(order_id),
        s.after_remove_item(table_id, menu_id).has_order(order_id),
        s.after_remove_item(table_id, menu_id).has_items(order_id),
        s.after_remove_item(table_id, menu_id).items.len() == s.items.len(),
{
    lemma_item_keys_unique(s.items, s.next_item_id, s.orders, s.menus);
    let k = s.line_index(order_id, menu_id);
    let row = s.items[k];
    assert(line_at(s.items, k, order_id, menu_id));
    let at = choose|i: int| order_for(s.orders, i, table_id);
    assert(order_for(s.orders, at, table_id));
    assert(order_at(s.orders, at, order_id));
    let next = s.after_remove_item(table_id, menu_id);
    assert(next.items == s.items.update(k, shrunk(row)));
    assert(next.orders == s.orders);
    assert(line_at(next.items, k, order_id, menu_id));
    assert(owned_at(next.items, k, order_id));
    let j = next.line_index(order_id, menu_id);
    assert(line_at(next.items, j, order_id, menu_id));
    assert(line_at(s.items, j, order_id, menu_id));
    assert(j == k);
    lemma_scaling_bounds(row.cooking_time as int, row.quantity as int);
}

/// Listing the items of a table right after two different menu entries were
/// added to it, the table having had no order, gives exactly those two lines,
/// in the order given, one unit each; and the order's total cooking time is
/// the sum of the two cooking times. It holds while the counters have the
/// identities left that the request needs.
pub proof fn law_listing_after_first_add(
    s: StoreView,
    table_id: i64,
    first: i64,
    second: i64,
    lines: Seq<NewLine>,
)
    requires
        s.wf(),
        s.has_table(table_id),
        s.has_menu(first),
        s.has_menu(second),
        first != second,
        s.order_of_table(table_id).is_none(),
        drawn_for(seq![first, second], lines),
        s.next_order_id < i64::MAX,
        s.next_item_id < i64::MAX - 1,
    ensures
        s.add_items_result(table_id, lines) == Ok::<i64, LedgerError>(s.next_order_id),
        s.after_add_items(table_id, lines).order_of_table(table_id) == Some(s.next_order_id),
        s.after_add_items(table_id, lines).items_of_table(table_id).len() == 2,
        s.after_add_items(table_id, lines).items_of_table(table_id)[0] == item_response(
            s.menus,
            ItemRow {
                id: s.next_item_id,
                order_id: s.next_order_id,
                menu_id: first,
                cooking_time: lines[0].cooking_time,
                quantity: 1,
            },
        ),
        s.after_add_items(table_id, lines).items_of_table(table_id)[1] == item_response(
            s.menus,
            ItemRow {
                id: (s.next_item_id + 1) as i64,
                order_id: s.next_order_id,
                menu_id: second,
                cooking_time: lines[1].cooking_time,
                quantity: 1,
            },
        ),
        s.after_add_items(table_id, lines).total_cooking_time(s.next_order_id)
            == lines[0].cooking_time + lines[1].cooking_time,
{
    let id = s.next_order_id;
    let opened = s.with_order(table_id);
    assert(lines[0].menu_id == seq![first, second][0]);
    assert(lines[1].menu_id == seq![first, second][1]);
    lemma_no_items_of_future_order(s, id);
    assert(order_at(opened.orders, s.orders.len() as int, id));
    assert(!opened.has_line(id, first));
    let one = opened.with_item(id, first, lines[0].cooking_time);
    assert(opened.add_one(id, lines[0]) == Ok::<StoreView, LedgerError>(one));
    assert(order_at(one.orders, s.orders.len() as int, id));
    assert forall|j: int| !line_at(one.items, j, id, second) by {}
    let two = one.with_item(id, second, lines[1].cooking_time);
    let rest = lines.drop_first();
    assert(rest[0] == lines[1]);
    assert(one.add_one(id, rest[0]) == Ok::<StoreView, LedgerError>(two));
    assert(rest.drop_first().len() == 0);
    assert(one.add_all(id, rest) == two.add_all(id, rest.drop_first()));
    assert(opened.add_all(id, lines) == one.add_all(id, rest));
    assert(s.after_add_items(table_id, lines) == two);
    assert(order_for(two.orders, s.orders.len() as int, table_id));
    let at = choose|i: int| order_for(two.orders, i, table_id);
    assert(order_for(two.orders, at, table_id));
    if at < s.orders.len() {
        assert(order_for(s.orders, at, table_id));
    }
    assert(two.order_of_table(table_id) == Some(id));
    lemma_foreign_rows_add_nothing(s.items, s.menus, id);
    assert(one.items.drop_last() == s.items);
    assert(two.items.drop_last() == one.items);
    assert(lines_of(one.items, s.menus, id) == lines_of(s.items, s.menus, id).push(
        item_response(s.menus, one.items.last()),
    ));
    assert(lines_of(two.items, s.menus, id) == lines_of(one.items, s.menus, id).push(
        item_response(s.menus, two.items.last()),
    ));
    assert(total_time(one.items, id) == lines[0].cooking_time);
    assert(total_time(two.items, id) == lines[0].cooking_time + lines[1].cooking_time);
}

/// Changing a row of another order changes neither the listing nor the total of `order_id`.
pub proof fn lemma_foreign_update_adds_nothing(
    items: Seq<ItemRow>,
    menus: Seq<MenuResponse>,
    k: int,
    row: ItemRow,
    order_id: i64,
)
    requires
        0 <= k < items.len(),
        items[k].order_id != order_id,
        row.order_id != order_id,
    ensures
        lines_of(items.update(k, row), menus, order_id) == lines_of(items, menus, order_id),
        total_time(items.update(k, row), order_id) == total_time(items, order_id),
    decreases items.len(),
{
    let changed = items.update(k, row);
    if k == items.len() - 1 {
        assert(changed.drop_last() == items.drop_last());
    } else {
        lemma_foreign_update_adds_nothing(items.drop_last(), menus, k, row, order_id);
        assert(changed.drop_last() == items.drop_last().update(k, row));
        assert(changed.last() == items.last());
    }
}

/// Deleting a row of another order changes neither the listing nor the total of `order_id`.
pub proof fn lemma_foreign_removal_takes_nothing(
    items: Seq<ItemRow>,
    menus: Seq<MenuResponse>,
    k: int,
    order_id: i64,
)
    requires
        0 <= k < items.len(),
        items[k].order_id != order_id,
    ensures
        lines_of(items.remove(k), menus, order_id) == lines_of(items, menus, order_id),
        total_time(items.remove(k), order_id) == total_time(items, order_id),
    decreases items.len(),
{
    let rest = items.remove(k);
    if k == items.len() - 1 {
        assert(rest == items.drop_last());
    } else {
        lemma_foreign_removal_takes_nothing(items.drop_last(), menus, k, order_id);
        assert(rest.drop_last() == items.drop_last().remove(k));
        assert(rest.last() == items.last());
    }
}

/// Adding one unit to an order changes neither the orders nor what any other order holds.
pub proof fn lemma_add_one_is_local(s: StoreView, order_id: i64, line: NewLine, other: i64)
    requires
        s.wf(),
        other != order_id,
        s.add_one(order_id, line).is_ok(),
    ensures
        s.add_one(order_id, line).unwrap().orders == s.orders,
        s.add_one(order_id, line).unwrap().menus == s.menus,
        s.add_one(order_id, line).unwrap().items_of_order(other) == s.items_of_order(other),
        s.add_one(order_id, line).unwrap().total_cooking_time(other) == s.total_cooking_time(
            other,
        ),
{
    let next = s.add_one(order_id, line).unwrap();
    if s.has_line(order_id, line.menu_id) {
        let k = s.line_index(order_id, line.menu_id);
        assert(line_at(s.items, k, order_id, line.menu_id));
        lemma_foreign_update_adds_nothing(s.items, s.menus, k, grown(s.items[k]), other);
    } else {
        assert(next.items.drop_last() == s.items);
    }
}

/// Adding lines to an order changes no table, menu entry or order row.
pub proof fn lemma_add_all_keeps_orders(s: StoreView, order_id: i64, lines: Seq<NewLine>)
    requires
        s.wf(),
        s.add_all(order_id, lines).is_ok(),
    ensures
        s.add_all(order_id, lines).unwrap().tables == s.tables,
        s.add_all(order_id, lines).unwrap().menus == s.menus,
        s.add_all(order_id, lines).unwrap().orders == s.orders,
    decreases lines.len(),
{
    if lines.len() > 0 {
        let next = s.add_one(order_id, lines[0]).unwrap();
        lemma_add_one_keeps_items(s, order_id, lines[0]);
        lemma_add_one_stays_well_formed(s, order_id, lines[0]);
        lemma_add_all_keeps_orders(next, order_id, lines.drop_first());
    }
}

/// Adding lines to an order changes nothing of what any other order holds.
pub proof fn lemma_add_all_is_local(s: StoreView, order_id: i64, lines: Seq<NewLine>, other: i64)
    requires
        s.wf(),
        other != order_id,
        s.add_all(order_id, lines).is_ok(),
    ensures
        s.add_all(order_id, lines).unwrap().items_of_order(other) == s.items_of_order(other),
        s.add_all(order_id, lines).unwrap().total_cooking_time(other) == s.total_cooking_time(
            other,
        ),
    decreases lines.len(),
{
    if lines.len() > 0 {
        let next = s.add_one(order_id, lines[0]).unwrap();
        lemma_add_one_is_local(s, order_id, lines[0], other);
        lemma_add_one_stays_well_formed(s, order_id, lines[0]);
        lemma_add_all_is_local(next, order_id, lines.drop_first(), other);
    }
}

/// Adding one unit to an order keeps every constraint of the store.
pub proof fn lemma_add_one_stays_well_formed(s: StoreView, order_id: i64, line: NewLine)
    requires
        s.wf(),
        s.add_one(order_id, line).is_ok(),
    ensures
        s.add_one(order_id, line).unwrap().wf(),
{
    let next = s.add_one(order_id, line).unwrap();
    if s.has_line(order_id, line.menu_id) {
        let k = s.line_index(order_id, line.menu_id);
        assert(line_at(s.items, k, order_id, line.menu_id));
        lemma_scaling_bounds(s.items[k].cooking_time as int, s.items[k].quantity as int);
    } else {
        assert forall|i: int, j: int| 0 <= i < j < next.items.len() implies !((
        #[trigger] next.items[i]).order_id == (#[trigger] next.items[j]).order_id
            && next.items[i].menu_id == next.items[j].menu_id) by {
            if j == s.items.len() {
                assert(!line_at(s.items, i, order_id, line.menu_id));
            }
        }
    }
}

/// Appending an order for one table does not change which order another table has.
pub proof fn lemma_other_table_keeps_order_on_push(s: StoreView, row: OrderRow, other: i64)
    requires
        s.wf(),
        row.table_id != other,
    ensures
        (StoreView { orders: s.orders.push(row), ..s }).order_of_table(other) == s.order_of_table(
            other,
        ),
{
    let t = StoreView { orders: s.orders.push(row), ..s };
    lemma_order_keys_unique(s.orders, s.next_order_id, s.tables);
    if exists|i: int| order_for(t.orders, i, other) {
        let j = choose|i: int| order_for(t.orders, i, other);
        assert(order_for(s.orders, j, other));
        let j2 = choose|i: int| order_for(s.orders, i, other);
        assert(order_for(s.orders, j2, other));
    } else {
        assert forall|i: int| !order_for(s.orders, i, other) by {
            if order_for(s.orders, i, other) {
                assert(order_for(t.orders, i, other));
            }
        }
    }
}

/// Deleting the order of one table does not change which order another table has.
pub proof fn lemma_other_table_keeps_order_on_removal(s: StoreView, at: int, other: i64)
    requires
        s.wf(),
        0 <= at < s.orders.len(),
        s.orders[at].table_id != other,
    ensures
        (StoreView { orders: s.orders.remove(at), ..s }).order_of_table(other) == s.order_of_table(
            other,
        ),
{
    let t = StoreView { orders: s.orders.remove(at), ..s };
    lemma_order_keys_unique(s.orders, s.next_order_id, s.tables);
    if exists|i: int| order_for(t.orders, i, other) {
        let j = choose|i: int| order_for(t.orders, i, other);
        let j1 = if j < at {
            j
        } else {
            j + 1
        };
        assert(order_for(s.orders, j1, other));
        let j2 = choose|i: int| order_for(s.orders, i, other);
        assert(order_for(s.orders, j2, other));
    } else {
        assert forall|i: int| !order_for(s.orders, i, other) by {
            if order_for(s.orders, i, other) {
                if i < at {
                    assert(order_for(t.orders, i, other));
                } else {
                    assert(order_for(t.orders, i - 1, other));
                }
            }
        }
    }
}

/// Adding to the order of one table leaves every other table as it was: the
/// same order, the same line items, the same total cooking time.
pub proof fn law_add_leaves_other_tables(
    s: StoreView,
    table_id: i64,
    lines: Seq<NewLine>,
    other: i64,
)
    requires
        s.wf(),
        other != table_id,
    ensures
        s.after_add_items(table_id, lines).order_of_table(other) == s.order_of_table(other),
        s.after_add_items(table_id, lines).items_of_table(other) == s.items_of_table(other),
        s.order_of_table(other).is_some() ==> s.after_add_items(
            table_id,
            lines,
        ).total_cooking_time(s.order_of_table(other).unwrap()) == s.total_cooking_time(
            s.order_of_table(other).unwrap(),
        ),
{
    if s.add_items_result(table_id, lines).is_ok() {
        let id = s.add_items_result(table_id, lines).unwrap();
        let opened = s.opened(table_id);
        let done = s.after_add_items(table_id, lines);
        lemma_order_keys_unique(s.orders, s.next_order_id, s.tables);
        if s.order_of_table(table_id).is_none() {
            let row = OrderRow { id: s.next_order_id, table_id };
            lemma_other_table_keeps_order_on_push(s, row, other);
            assert(opened.orders == s.orders.push(row));
            assert forall|i: int, j: int| 0 <= i < j < opened.orders.len() implies (
            #[trigger] opened.orders[i]).table_id != (#[trigger] opened.orders[j]).table_id by {
                if j == s.orders.len() {
                    assert(!order_for(s.orders, i, table_id));
                }
            }
            assert forall|i: int| 0 <= i < opened.items.len() implies order_exists(
                opened.orders,
                (#[trigger] opened.items[i]).order_id,
            ) by {
                let w = choose|w: int| order_at(s.orders, w, s.items[i].order_id);
                assert(order_at(opened.orders, w, opened.items[i].order_id));
            }
            assert(opened.wf());
            let pushed = StoreView { orders: s.orders.push(row), ..s };
            assert(opened.orders == pushed.orders);
            assert(opened.order_of_table(other) == pushed.order_of_table(other));
        }
        assert(opened.order_of_table(other) == s.order_of_table(other));
        if s.order_of_table(other).is_some() {
            let o = s.order_of_table(other).unwrap();
            let j = choose|i: int| order_for(s.orders, i, other);
            assert(order_for(s.orders, j, other));
            if s.order_of_table(table_id).is_some() {
                let i = choose|i: int| order_for(s.orders, i, table_id);
                assert(order_for(s.orders, i, table_id));
                assert(order_at(s.orders, i, id));
                assert(order_at(s.orders, j, o));
            }
            assert(o != id);
            lemma_add_all_is_local(opened, id, lines, o);
        }
        lemma_add_all_keeps_orders(opened, id, lines);
        assert(done.orders == opened.orders);
    }
}

/// Removing from the order of one table leaves every other table as it was:
/// the same order, the same line items, the same total cooking time.
pub proof fn law_remove_leaves_other_tables(s: StoreView, table_id: i64, menu_id: i64, other: i64)
    requires
        s.wf(),
        other != table_id,
    ensures
        s.after_remove_item(table_id, menu_id).order_of_table(other) == s.order_of_table(other),
        s.after_remove_item(table_id, menu_id).items_of_table(other) == s.items_of_table(other),
        s.order_of_table(other).is_some() ==> s.after_remove_item(
            table_id,
            menu_id,
        ).total_cooking_time(s.order_of_table(other).unwrap()) == s.total_cooking_time(
            s.order_of_table(other).unwrap(),
        ),
{
    if s.order_of_table(table_id).is_some() {
        let id = s.order_of_table(table_id).unwrap();
        lemma_order_keys_unique(s.orders, s.next_order_id, s.tables);
        let at = choose|i: int| order_for(s.orders, i, table_id);
        assert(order_for(s.orders, at, table_id));
        assert(order_at(s.orders, at, id));
        let after = s.after_removal(id, menu_id);
        let done = s.after_remove_item(table_id, menu_id);
        assert(after.orders == s.orders);
        if done != after {
            let gone = choose|i: int| order_at(after.orders, i, id);
            assert(order_at(after.orders, at, id));
            assert(gone == at);
            lemma_other_table_keeps_order_on_removal(s, at, other);
            let removed = StoreView { orders: s.orders.remove(at), ..s };
            assert(done.orders == removed.orders);
            assert(done.order_of_table(other) == removed.order_of_table(other));
        }
        assert(done.order_of_table(other) == s.order_of_table(other));
        assert(done.items == after.items);
        assert(done.menus == s.menus);
        if s.order_of_table(other).is_some() {
            let o = s.order_of_table(other).unwrap();
            let j = choose|i: int| order_for(s.orders, i, other);
            assert(order_for(s.orders, j, other));
            assert(order_at(s.orders, j, o));
            assert(o != id);
            if s.has_line(id, menu_id) {
                let k = s.line_index(id, menu_id);
                assert(line_at(s.items, k, id, menu_id));
                if s.items[k].quantity > 1 {
                    lemma_foreign_update_adds_nothing(s.items, s.menus, k, shrunk(s.items[k]), o);
                } else {
                    lemma_foreign_removal_takes_nothing(s.items, s.menus, k, o);
                }
            }
        }
    }
}

/// A request that names no menu entry is refused with `BadRequest` and changes nothing.
pub proof fn law_empty_request_refused(s: StoreView, table_id: i64)
    ensures
        s.add_items_result(table_id, Seq::empty()) == Err::<i64, LedgerError>(
            LedgerError::BadRequest,
        ),
        s.after_add_items(table_id, Seq::empty()) == s,
{
}

/// Removing from a table that has no open order is refused with `NotFound`
/// and changes nothing.
pub proof fn law_remove_without_order_not_found(s: StoreView, table_id: i64, menu_id: i64)
    requires
        s.order_of_table(table_id).is_none(),
    ensures
        s.remove_item_result(table_id, menu_id) == Err::<Outcome, LedgerError>(
            LedgerError::NotFound,
        ),
        s.after_remove_item(table_id, menu_id) == s,
{
}

} // verus!
