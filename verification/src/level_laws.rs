//! What a matching pass over one side of the book does to the orders that
//! rest there.

use vstd::prelude::*;
use crate::levels::{
    at_least_as_good, best_price, lemma_best_exists, lemma_volume_split, lemma_volume_with,
    levels_volume, levels_wf, match_levels, may_rest, rests_at, Levels,
};
use crate::matching::{
    crosses, executed_total, filled_ids, is_open, lemma_match_queue_accounts,
    lemma_match_queue_left, lemma_match_queue_makers, lemma_match_queue_taker, match_queue,
};
use crate::types::{Execution, OrderSide, OrderView};

verus! {

/// No identifier occurs twice among the orders of `levels`.
pub open spec fn unique_ids(levels: Levels) -> bool {
    forall|pa: i64, ia: int, pb: i64, ib: int|
        #![trigger levels[pa][ia], levels[pb][ib]]
        levels.contains_key(pa) && 0 <= ia < levels[pa].len() && levels.contains_key(pb) && 0 <= ib
            < levels[pb].len() && levels[pa][ia].id == levels[pb][ib].id ==> pa == pb && ia == ib
}

/// The filled makers of two runs of makers are those of the one or the other.
pub proof fn lemma_filled_ids_concat(a: Seq<OrderView>, b: Seq<OrderView>)
    ensures
        filled_ids(a + b) =~= filled_ids(a).union(filled_ids(b)),
{
    let ab = a + b;
    assert forall|id: Seq<char>| filled_ids(a).contains(id) implies filled_ids(ab).contains(id) by {
        let k = choose|k: int| 0 <= k < a.len() && (#[trigger] a[k]).id == id && a[k].is_filled();
        assert(ab[k] == a[k]);
    }
    assert forall|id: Seq<char>| filled_ids(b).contains(id) implies filled_ids(ab).contains(id) by {
        let k = choose|k: int| 0 <= k < b.len() && (#[trigger] b[k]).id == id && b[k].is_filled();
        assert(ab[a.len() + k] == b[k]);
    }
}

/// The makers that a pass over one queue of open makers filled are the
/// makers that left the queue: with `n` the number that left, the first `n`.
pub proof fn lemma_match_queue_filled(taker: OrderView, queue: Seq<OrderView>)
    requires
        taker.well_formed(),
        forall|i: int| 0 <= i < queue.len() ==> is_open(#[trigger] queue[i]),
    ensures
        ({
            let out = match_queue(taker, queue);
            let n = queue.len() - out.queue.len();
            forall|id: Seq<char>|
                filled_ids(out.makers).contains(id) <==> exists|i: int|
                    0 <= i < n && (#[trigger] queue[i]).id == id
        }),
{
    let out = match_queue(taker, queue);
    let n = queue.len() - out.queue.len();
    lemma_match_queue_taker(taker, queue);
    lemma_match_queue_makers(taker, queue);
    assert forall|id: Seq<char>|
        (exists|i: int| 0 <= i < n && (#[trigger] queue[i]).id == id) implies filled_ids(
        out.makers,
    ).contains(id) by {
        let i = choose|i: int| 0 <= i < n && (#[trigger] queue[i]).id == id;
        assert(out.makers[i].id == id && out.makers[i].is_filled());
    }
}

/// A valid side stays valid when a level is dropped.
pub proof fn lemma_wf_without(levels: Levels, price: i64, side: OrderSide, symbol: Seq<char>)
    requires
        levels_wf(levels, side, symbol),
    ensures
        levels_wf(levels.remove(price), side, symbol),
{
}

/// A pass over a valid side leaves a valid side and a taker within bounds
/// that kept everything but its filled quantity, which can only have grown.
/// If the side is the one opposite to the taker and the taker is not filled
/// after the pass, no price that is left crosses it.
pub proof fn lemma_match_levels_wf(
    taker: OrderView,
    levels: Levels,
    side: OrderSide,
    symbol: Seq<char>,
)
    requires
        taker.well_formed(),
        levels_wf(levels, side, symbol),
    ensures
        ({
            let out = match_levels(taker, levels, side);
            &&& levels_wf(out.levels, side, symbol)
            &&& out.taker == OrderView { filled: out.taker.filled, ..taker }
            &&& out.taker.well_formed()
            &&& taker.filled <= out.taker.filled
            &&& out.makers.len() == out.executions.len()
            &&& forall|price: i64| out.levels.contains_key(price) ==> levels.contains_key(price)
            &&& !out.taker.is_filled() && side == taker.side.opposite() ==> forall|price: i64|
                out.levels.contains_key(price) ==> !crosses(taker, price as int)
        }),
    decreases levels.dom().len(),
{
    let price = best_price(levels, side);
    if levels.dom().len() > 0 {
        lemma_best_exists(levels, side);
    }
    if levels.contains_key(price) && !taker.is_filled() && crosses(taker, price as int) {
        let queue = levels[price];
        lemma_match_queue_taker(taker, queue);
        lemma_match_queue_left(taker, queue);
        let at = match_queue(taker, queue);
        if at.queue.len() == 0 {
            lemma_match_levels_wf(at.taker, levels.remove(price), side, symbol);
            let rest = match_levels(at.taker, levels.remove(price), side);
            assert forall|p: i64| rest.levels.contains_key(p) implies crosses(taker, p as int)
                == crosses(at.taker, p as int) by {}
        }
    }
}

/// What a pass over a valid side with unique identifiers does to the orders
/// that rest there. An order rests after the pass exactly if it rested before
/// and was not filled by the pass, and then at the price it rested at.
/// The makers that were filled all rested before the pass. Identifiers stay
/// unique.
pub proof fn lemma_match_levels_rests(
    taker: OrderView,
    levels: Levels,
    side: OrderSide,
    symbol: Seq<char>,
)
    requires
        taker.well_formed(),
        levels_wf(levels, side, symbol),
        unique_ids(levels),
    ensures
        ({
            let out = match_levels(taker, levels, side);
            let filled = filled_ids(out.makers);
            &&& unique_ids(out.levels)
            &&& forall|id: Seq<char>, p: i64| #[trigger]
                rests_at(out.levels, id, p) ==> rests_at(levels, id, p) && !filled.contains(id)
            &&& forall|id: Seq<char>, p: i64| #[trigger]
                rests_at(levels, id, p) ==> rests_at(out.levels, id, p) || filled.contains(id)
            &&& forall|id: Seq<char>| #[trigger]
                filled.contains(id) ==> exists|p: i64| rests_at(levels, id, p)
        }),
    decreases levels.dom().len(),
{
    let out = match_levels(taker, levels, side);
    let filled = filled_ids(out.makers);
    let price = best_price(levels, side);
    if levels.contains_key(price) && !taker.is_filled() && crosses(taker, price as int) {
        let queue = levels[price];
        lemma_match_queue_taker(taker, queue);
        lemma_match_queue_left(taker, queue);
        lemma_match_queue_filled(taker, queue);
        let at = match_queue(taker, queue);
        let n = queue.len() - at.queue.len();
        let filled_at = filled_ids(at.makers);
        if at.queue.len() > 0 {
            let after = levels.insert(price, at.queue);
            assert forall|id: Seq<char>, p: i64| #[trigger] rests_at(levels, id, p) implies rests_at(
                after,
                id,
                p,
            ) || filled.contains(id) by {
                let i = choose|i: int| 0 <= i < levels[p].len() && #[trigger] levels[p][i].id == id;
                if p == price && i >= n {
                    assert(after[p][i - n].id == id);
                }
            }
            assert forall|id: Seq<char>| #[trigger] filled.contains(id) implies exists|p: i64|
                rests_at(levels, id, p) by {
                assert(rests_at(levels, id, price));
            }
        } else {
            let others = levels.remove(price);
            lemma_match_levels_rests(at.taker, others, side, symbol);
            let rest = match_levels(at.taker, others, side);
            lemma_filled_ids_concat(at.makers, rest.makers);
            assert forall|id: Seq<char>, p: i64| #[trigger] rests_at(levels, id, p) implies rests_at(
                out.levels,
                id,
                p,
            ) || filled.contains(id) by {
                if p != price {
                    assert(rests_at(others, id, p));
                }
            }
            assert forall|id: Seq<char>| #[trigger] filled.contains(id) implies exists|p: i64|
                rests_at(levels, id, p) by {
                if filled_at.contains(id) {
                    assert(rests_at(levels, id, price));
                } else {
                    let p = choose|p: i64| rests_at(others, id, p);
                    assert(rests_at(levels, id, p));
                }
            }
        }
    }
}

/// The quantity exchanged by two runs of executions is the sum of what each
/// run exchanged.
pub proof fn lemma_executed_total_concat(a: Seq<Execution>, b: Seq<Execution>)
    ensures
        executed_total(a + b) == executed_total(a) + executed_total(b),
    decreases a.len(),
{
    if a.len() > 0 {
        lemma_executed_total_concat(a.drop_first(), b);
        assert((a + b).drop_first() =~= a.drop_first() + b);
    }
}

/// The accounts of a pass over a valid side: the taker gained what the
/// executions exchanged in all, and the side lost as much open quantity.
pub proof fn lemma_match_levels_accounts(
    taker: OrderView,
    levels: Levels,
    side: OrderSide,
    symbol: Seq<char>,
)
    requires
        taker.well_formed(),
        levels_wf(levels, side, symbol),
    ensures
        ({
            let out = match_levels(taker, levels, side);
            &&& out.taker.filled == taker.filled + executed_total(out.executions)
            &&& levels_volume(out.levels) == levels_volume(levels) - executed_total(out.executions)
        }),
    decreases levels.dom().len(),
{
    let price = best_price(levels, side);
    if levels.contains_key(price) && !taker.is_filled() && crosses(taker, price as int) {
        let queue = levels[price];
        lemma_match_queue_taker(taker, queue);
        lemma_match_queue_accounts(taker, queue);
        let at = match_queue(taker, queue);
        if at.queue.len() > 0 {
            lemma_volume_with(levels, price, at.queue);
        } else {
            let others = levels.remove(price);
            lemma_match_levels_accounts(at.taker, others, side, symbol);
            let rest = match_levels(at.taker, others, side);
            lemma_executed_total_concat(at.executions, rest.executions);
            lemma_volume_split(levels, price);
        }
    }
}

/// Whether price `a` is strictly better than price `b` for orders resting on
/// `side`.
pub open spec fn strictly_better(a: i64, b: i64, side: OrderSide) -> bool {
    at_least_as_good(a, b, side) && a != b
}

/// Whether every order that has priority over position `i` of the queue at
/// `price` is among `filled`: every order at a strictly better price, and
/// every order ahead of it in its own queue.
pub open spec fn all_ahead_filled(
    levels: Levels,
    side: OrderSide,
    price: i64,
    i: int,
    filled: Set<Seq<char>>,
) -> bool {
    forall|q: i64, j: int|
        #![trigger levels[q][j]]
        levels.contains_key(q) && 0 <= j < levels[q].len() && (strictly_better(q, price, side) || (q
            == price && j < i)) ==> filled.contains(levels[q][j].id)
}

/// Whether `execution` is a fill of the order at position `i` of the queue
/// at `price`, at that price, that left that order as `maker`.
pub open spec fn is_fill_of(
    levels: Levels,
    price: i64,
    i: int,
    execution: Execution,
    maker: OrderView,
) -> bool {
    &&& levels.contains_key(price)
    &&& 0 <= i < levels[price].len()
    &&& execution.price == price
    &&& execution.maker_order_id == levels[price][i].id
    &&& maker == levels[price][i].fill(execution.amount)
    &&& maker.filled <= maker.amount
}

/// Price-time priority, and what every execution of a pass over a valid
/// side looks like. Each execution is for a positive quantity, names the
/// taker, and fills one resting order at that order's own price, which the
/// taker crosses. And whenever an order is hit, every order at a strictly
/// better price and every order ahead of it in its own queue is filled by
/// the same pass.
pub proof fn lemma_match_levels_hits(
    taker: OrderView,
    levels: Levels,
    side: OrderSide,
    symbol: Seq<char>,
)
    requires
        taker.well_formed(),
        levels_wf(levels, side, symbol),
    ensures
        ({
            let out = match_levels(taker, levels, side);
            &&& out.makers.len() == out.executions.len()
            &&& forall|k: int|
                0 <= k < out.executions.len() ==> ({
                    &&& (#[trigger] out.executions[k]).amount > 0
                    &&& out.executions[k].price > 0
                    &&& crosses(taker, out.executions[k].price)
                    &&& out.executions[k].taker_order_id == taker.id
                    &&& out.executions[k].taker_side == taker.side
                    &&& out.executions[k].symbol == taker.symbol
                    &&& exists|p: i64, i: int|
                        #![trigger levels[p][i]]
                        is_fill_of(levels, p, i, out.executions[k], out.makers[k])
                            && all_ahead_filled(levels, side, p, i, filled_ids(out.makers))
                })
        }),
    decreases levels.dom().len(),
{
    let price = best_price(levels, side);
    if levels.contains_key(price) && !taker.is_filled() && crosses(taker, price as int) {
        lemma_best_exists(levels, side);
        let queue = levels[price];
        lemma_match_queue_taker(taker, queue);
        lemma_match_queue_makers(taker, queue);
        lemma_match_queue_filled(taker, queue);
        let at = match_queue(taker, queue);
        let others = levels.remove(price);
        let rest = match_levels(at.taker, others, side);
        if at.queue.len() == 0 {
            lemma_wf_without(levels, price, side, symbol);
            lemma_match_levels_hits(at.taker, others, side, symbol);
            lemma_filled_ids_concat(at.makers, rest.makers);
        }
    }
}

} // verus!
