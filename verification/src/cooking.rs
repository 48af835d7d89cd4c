//! The cooking-time policy: how long a fresh line item cooks, and how the
//! aggregate time of a line item follows its quantity.

use rand::Rng;
use vstd::prelude::*;

verus! {

/// Shortest cooking time drawn for one unit of a fresh line item.
pub const MIN_UNIT_COOK_TIME: i64 = 5;

/// Longest cooking time drawn for one unit of a fresh line item.
pub const MAX_UNIT_COOK_TIME: i64 = 15;

/// Cooking time of one unit, recovered from the aggregate by truncating division.
pub open spec fn per_unit(cooking_time: int, quantity: int) -> int
    recommends
        cooking_time >= 0,
        quantity >= 1,
{
    cooking_time / quantity
}

/// Aggregate cooking time after one more unit joins a line item.
pub open spec fn scaled_up(cooking_time: int, quantity: int) -> int
    recommends
        cooking_time >= 0,
        quantity >= 1,
{
    per_unit(cooking_time, quantity) * (quantity + 1)
}

/// Aggregate cooking time after one unit leaves a line item.
pub open spec fn scaled_down(cooking_time: int, quantity: int) -> int
    recommends
        cooking_time >= 0,
        quantity >= 1,
{
    cooking_time - per_unit(cooking_time, quantity)
}

/// The per-unit time never exceeds the aggregate, so scaling up at most doubles
/// the aggregate and scaling down keeps it between zero and its old value.
pub proof fn lemma_scaling_bounds(cooking_time: int, quantity: int)
    requires
        cooking_time >= 0,
        quantity >= 1,
    ensures
        0 <= per_unit(cooking_time, quantity) <= cooking_time,
        0 <= scaled_up(cooking_time, quantity) <= 2 * cooking_time,
        0 <= scaled_down(cooking_time, quantity) <= cooking_time,
        per_unit(cooking_time, quantity) * quantity <= cooking_time,
{
    let p = cooking_time / quantity;
    assert(0 <= p && p * quantity <= cooking_time && p <= cooking_time) by (nonlinear_arith)
        requires
            cooking_time >= 0,
            quantity >= 1,
            p == cooking_time / quantity,
    ;
    assert(p * (quantity + 1) == p * quantity + p) by (nonlinear_arith);
    assert(0 <= p * (quantity + 1)) by (nonlinear_arith)
        requires
            0 <= p,
            quantity >= 1,
    ;
}

/// Calls `rand::thread_rng` and `rand::Rng::gen_range` on the inclusive range
/// `low..=high`. Claimed of them, without proof: the value drawn lies within
/// the range, both ends included. Which value comes is left open, and two
/// calls may differ. `gen_range` panics on an empty range, which `requires`
/// leaves out; `thread_rng` panics where the operating system cannot seed
/// the generator, which no contract can leave out.
#[verifier::external_body]
fn draw_between(low: i64, high: i64) -> (drawn: i64)
    requires
        low <= high,
    ensures
        low <= drawn <= high,
{
    rand::thread_rng().gen_range(low..=high)
}

/// Draws the cooking time of one unit of a freshly added line item.
pub fn initial_cook_time() -> (time: i64)
    ensures
        MIN_UNIT_COOK_TIME <= time <= MAX_UNIT_COOK_TIME,
{
    draw_between(MIN_UNIT_COOK_TIME, MAX_UNIT_COOK_TIME)
}

/// Says whether `time` is a value that `initial_cook_time` may draw.
pub open spec fn is_initial_cook_time(time: i64) -> bool {
    MIN_UNIT_COOK_TIME <= time <= MAX_UNIT_COOK_TIME
}

/// New aggregate cooking time when a line item grows from `quantity` to
/// `quantity + 1` units: the truncated per-unit time, times the new quantity.
pub fn scale_up_on_quantity_increase(cooking_time: i64, quantity: i64) -> (scaled: i64)
    requires
        cooking_time >= 0,
        quantity >= 1,
        quantity < i64::MAX,
        scaled_up(cooking_time as int, quantity as int) <= i64::MAX,
    ensures
        scaled == scaled_up(cooking_time as int, quantity as int),
{
    proof {
        lemma_scaling_bounds(cooking_time as int, quantity as int);
    }
    let unit: i64 = cooking_time / quantity;
    unit * (quantity + 1)
}

/// New aggregate cooking time when a line item shrinks from `quantity` to
/// `quantity - 1` units: the old aggregate less the truncated per-unit time.
/// A line item of one unit is removed, not scaled, so `quantity` exceeds one.
pub fn scale_down_on_quantity_decrease(cooking_time: i64, quantity: i64) -> (scaled: i64)
    requires
        cooking_time >= 0,
        quantity > 1,
    ensures
        scaled == scaled_down(cooking_time as int, quantity as int),
        0 <= scaled <= cooking_time,
{
    proof {
        lemma_scaling_bounds(cooking_time as int, quantity as int);
    }
    let unit: i64 = cooking_time / quantity;
    cooking_time - unit
}

} // verus!
