//! One side of a book as a mathematical object: a finite map from price to
//! the queue resting at that price.

use vstd::prelude::*;
use crate::matching::{crosses, match_queue};
use crate::price_level::{lemma_volume_push, queue_volume};
use crate::types::{Execution, OrderSide, OrderView};

verus! {

/// The price levels of one side of a book. A price is counted in units.
pub type Levels = Map<i64, Seq<OrderView>>;

/// Whether price `a` is at least as good as price `b` for orders resting on
/// `side`: the highest bid is best, and the lowest ask.
pub open spec fn at_least_as_good(a: i64, b: i64, side: OrderSide) -> bool {
    match side {
        OrderSide::Buy => a >= b,
        OrderSide::Sell => a <= b,
    }
}

/// Whether `price` is the best price among `levels` resting on `side`.
pub open spec fn is_best(levels: Levels, price: i64, side: OrderSide) -> bool {
    &&& levels.contains_key(price)
    &&& forall|other: i64| levels.contains_key(other) ==> at_least_as_good(price, other, side)
}

/// The best price among `levels`, if there is any level.
pub open spec fn best_price(levels: Levels, side: OrderSide) -> i64 {
    choose|price: i64| is_best(levels, price, side)
}

/// What an order must satisfy to rest at `price` on `side` of the book for
/// `symbol`: it belongs there, its price is positive, and it has an open
/// quantity.
pub open spec fn may_rest(
    order: OrderView,
    side: OrderSide,
    price: i64,
    symbol: Seq<char>,
) -> bool {
    &&& order.side == side
    &&& order.price == price
    &&& 0 < price
    &&& order.symbol == symbol
    &&& 0 <= order.filled < order.amount
}

/// Whether `levels` is a valid side of the book for `symbol`: finitely many
/// levels, none empty, every order where it belongs.
pub open spec fn levels_wf(levels: Levels, side: OrderSide, symbol: Seq<char>) -> bool {
    &&& levels.dom().finite()
    &&& forall|price: i64| #[trigger]
        levels.contains_key(price) ==> {
            &&& levels[price].len() > 0
            &&& forall|i: int|
                0 <= i < levels[price].len() ==> may_rest(
                    #[trigger] levels[price][i],
                    side,
                    price,
                    symbol,
                )
        }
}

/// The levels after `order` came to rest: at the tail of the queue at its
/// price, which is created if it was not there.
pub open spec fn levels_add(levels: Levels, order: OrderView) -> Levels {
    let price = order.price as i64;
    let queue = if levels.contains_key(price) {
        levels[price]
    } else {
        Seq::empty()
    };
    levels.insert(price, queue.push(order))
}

/// The levels after the order at position `i` of the queue at `price` left.
/// A queue that becomes empty is dropped.
pub open spec fn levels_remove_at(levels: Levels, price: i64, i: int) -> Levels {
    if levels[price].len() == 1 {
        levels.remove(price)
    } else {
        levels.insert(price, levels[price].remove(i))
    }
}

/// The open quantity of all levels together.
pub open spec fn levels_volume(levels: Levels) -> int
    decreases levels.dom().len(),
    when levels.dom().finite()
{
    if levels.dom().len() == 0 {
        0
    } else {
        let price = choose|price: i64| levels.contains_key(price);
        if levels.contains_key(price) {
            queue_volume(levels[price]) + levels_volume(levels.remove(price))
        } else {
            0
        }
    }
}

/// Whether an order with identifier `id` rests in the queue at `price`.
pub open spec fn rests_at(levels: Levels, id: Seq<char>, price: i64) -> bool {
    &&& levels.contains_key(price)
    &&& exists|i: int| 0 <= i < levels[price].len() && #[trigger] levels[price][i].id == id
}

/// What a depth snapshot reports of one level.
pub struct LevelSummary {
    pub price: int,
    /// The open quantity of the level.
    pub amount: int,
    /// The number of orders in its queue.
    pub order_count: int,
}

/// The summary of the queue resting at `price`.
pub open spec fn summary_of(price: i64, queue: Seq<OrderView>) -> LevelSummary {
    LevelSummary {
        price: price as int,
        amount: queue_volume(queue),
        order_count: queue.len() as int,
    }
}

/// The summaries of the best `depth` levels resting on `side`, best first;
/// of all levels, if there are fewer.
pub open spec fn top_levels(levels: Levels, side: OrderSide, depth: nat) -> Seq<LevelSummary>
    decreases depth,
{
    let price = best_price(levels, side);
    if depth == 0 || !levels.contains_key(price) {
        Seq::empty()
    } else {
        seq![summary_of(price, levels[price])] + top_levels(
            levels.remove(price),
            side,
            (depth - 1) as nat,
        )
    }
}

/// The outcome of matching a taker against one side of the book.
pub struct LevelsOutcome {
    /// The executions, in the order they happened.
    pub executions: Seq<Execution>,
    /// The state of each maker right after it was hit, in the same order.
    pub makers: Seq<OrderView>,
    /// The taker after the pass.
    pub taker: OrderView,
    /// What is left of the side.
    pub levels: Levels,
}

/// Matches `taker` against the levels resting on `side`, best price first
/// and, at each price, oldest order first. The pass stops as soon as no
/// level is left, the taker is filled, or the best price no longer crosses.
/// A level whose queue is used up is dropped.
pub open spec fn match_levels(taker: OrderView, levels: Levels, side: OrderSide) -> LevelsOutcome
    decreases levels.dom().len(),
    when levels.dom().finite()
{
    let price = best_price(levels, side);
    if !levels.contains_key(price) || taker.is_filled() || !crosses(taker, price as int) {
        LevelsOutcome { executions: Seq::empty(), makers: Seq::empty(), taker, levels }
    } else {
        let at = match_queue(taker, levels[price]);
        if at.queue.len() > 0 {
            LevelsOutcome {
                executions: at.executions,
                makers: at.makers,
                taker: at.taker,
                levels: levels.insert(price, at.queue),
            }
        } else {
            let rest = match_levels(at.taker, levels.remove(price), side);
            LevelsOutcome {
                executions: at.executions + rest.executions,
                makers: at.makers + rest.makers,
                taker: rest.taker,
                levels: rest.levels,
            }
        }
    }
}

/// A finite side with at least one level has a best price.
pub proof fn lemma_best_exists(levels: Levels, side: OrderSide)
    requires
        levels.dom().finite(),
        levels.dom().len() > 0,
    ensures
        is_best(levels, best_price(levels, side), side),
    decreases levels.dom().len(),
{
    let some = choose|price: i64| levels.contains_key(price);
    assert(levels.contains_key(some)) by {
        if forall|price: i64| !levels.contains_key(price) {
            assert(levels.dom() =~= Set::<i64>::empty());
        }
    }
    let others = levels.remove(some);
    if others.dom().len() == 0 {
        assert(is_best(levels, some, side));
    } else {
        lemma_best_exists(others, side);
        let b = best_price(others, side);
        let winner = if at_least_as_good(some, b, side) {
            some
        } else {
            b
        };
        assert(is_best(levels, winner, side));
    }
}

/// The best price is the only price that is at least as good as all others.
pub proof fn lemma_best_unique(levels: Levels, price: i64, side: OrderSide)
    requires
        is_best(levels, price, side),
    ensures
        best_price(levels, side) == price,
{
}

/// The volume of a side is the volume of any one of its levels and the
/// volume of the others.
pub proof fn lemma_volume_split(levels: Levels, price: i64)
    requires
        levels.dom().finite(),
        levels.contains_key(price),
    ensures
        levels_volume(levels) == queue_volume(levels[price]) + levels_volume(levels.remove(price)),
    decreases levels.dom().len(),
{
    let first = choose|p: i64| levels.contains_key(p);
    if first != price {
        let without_first = levels.remove(first);
        let without_price = levels.remove(price);
        lemma_volume_split(without_first, price);
        lemma_volume_split(without_price, first);
        assert(without_first.remove(price) =~= without_price.remove(first));
    }
}

/// A side without a level at `price` is not changed by dropping that level.
pub proof fn lemma_volume_absent(levels: Levels, price: i64)
    requires
        !levels.contains_key(price),
    ensures
        levels.remove(price) == levels,
{
}

/// Replacing the queue at one price changes the volume of the side by the
/// difference between the volume of the new queue and that of the old one.
pub proof fn lemma_volume_with(levels: Levels, price: i64, queue: Seq<OrderView>)
    requires
        levels.dom().finite(),
    ensures
        levels_volume(levels.insert(price, queue)) == levels_volume(levels) + queue_volume(queue)
            - (if levels.contains_key(price) {
            queue_volume(levels[price])
        } else {
            0
        }),
{
    let after = levels.insert(price, queue);
    lemma_volume_split(after, price);
    assert(after.remove(price) =~= levels.remove(price));
    if levels.contains_key(price) {
        lemma_volume_split(levels, price);
    } else {
        lemma_volume_absent(levels, price);
    }
}

/// An order that comes to rest adds its open quantity to the volume.
pub proof fn lemma_volume_add(levels: Levels, order: OrderView)
    requires
        levels.dom().finite(),
    ensures
        levels_volume(levels_add(levels, order)) == levels_volume(levels) + order.remaining(),
{
    let price = order.price as i64;
    let queue = if levels.contains_key(price) {
        levels[price]
    } else {
        Seq::empty()
    };
    lemma_volume_push(queue, order);
    lemma_volume_with(levels, price, queue.push(order));
}

} // verus!
