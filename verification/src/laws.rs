//! What holds of every engine, every book and every order placed.

use vstd::prelude::*;
use crate::engine_laws::lemma_place_wf;
use crate::engine_model::EngineView;
use crate::level_laws::{
    lemma_match_levels_accounts, lemma_match_levels_hits, lemma_match_levels_rests,
    lemma_match_levels_wf, strictly_better,
};
use crate::levels::{lemma_volume_add, levels_add, levels_remove_at, match_levels, rests_at};
use crate::matching::{crosses, executed_total, filled_ids};
use crate::order_book::{BookView, OrderBook, SnapshotView};
use crate::price_level::lemma_position_is;
use crate::stamp::Stamper;
use crate::types::{Execution, OrderSide, OrderType, OrderView, Trade};

verus! {

/// Every resting order has an open quantity and lies in a level of its own
/// side at its own price; no level is empty.
pub proof fn law_resting_orders(book: BookView, side: OrderSide, price: i64, i: int)
    requires
        book.wf(),
        book.side(side).contains_key(price),
        0 <= i < book.side(side)[price].len(),
    ensures
        book.side(side)[price].len() > 0,
        book.side(side)[price][i].remaining() > 0,
        book.side(side)[price][i].side == side,
        book.side(side)[price][i].price == price,
        rests_at(
            book.side(book.side(side)[price][i].side),
            book.side(side)[price][i].id,
            book.side(side)[price][i].price as i64,
        ),
{
}

/// The book of a valid engine is never crossed: where both sides have a
/// level, the best bid is below the best ask.
pub proof fn law_not_crossed(engine: EngineView, symbol: Seq<char>)
    requires
        engine.wf(),
        engine.books.contains_key(symbol),
    ensures
        (match (
            engine.books[symbol].best(OrderSide::Buy),
            engine.books[symbol].best(OrderSide::Sell),
        ) {
            (Some(bid), Some(ask)) => bid < ask,
            _ => true,
        }),
{
}

/// Every trade of a placement is sound. It is for a positive quantity at a
/// positive price and names the taker and the taker's side. Its maker was
/// resting on the opposite side of the book before the placement, and the
/// trade's price is that maker's price, whatever the taker's limit; a limit
/// taker does not pay more, nor receive less, than its limit.
pub proof fn law_trades_are_sound(engine: EngineView, order: OrderView, k: int)
    requires
        engine.wf(),
        engine.rejection(order) is None,
        0 <= k < engine.place(order).executions.len(),
    ensures
        ({
            let trade = engine.place(order).executions[k];
            let resting = engine.book(order.symbol).side(order.side.opposite());
            &&& trade.amount > 0
            &&& trade.price > 0
            &&& trade.taker_side == order.side
            &&& trade.taker_order_id == order.id
            &&& trade.symbol == order.symbol
            &&& crosses(order, trade.price)
            &&& exists|p: i64, i: int|
                #![trigger resting[p][i]]
                {
                    &&& resting.contains_key(p)
                    &&& 0 <= i < resting[p].len()
                    &&& resting[p][i].id == trade.maker_order_id
                    &&& resting[p][i].price == trade.price
                    &&& resting[p][i].side != order.side
                }
        }),
{
    let book = engine.book(order.symbol);
    let opposite = order.side.opposite();
    let resting = book.side(opposite);
    lemma_match_levels_hits(order, resting, opposite, order.symbol);
}

/// Conservation. Each trade adds its amount to the filled quantity of its
/// maker, and the taker's filled quantity grows by the amounts of all trades
/// together; neither is ever filled beyond its amount.
pub proof fn law_conservation(engine: EngineView, order: OrderView)
    requires
        engine.wf(),
        engine.rejection(order) is None,
    ensures
        ({
            let placed = engine.place(order);
            let resting = engine.book(order.symbol).side(order.side.opposite());
            &&& placed.taker.filled == order.filled + executed_total(placed.executions)
            &&& placed.taker.filled <= order.amount
            &&& placed.makers.len() == placed.executions.len()
            &&& forall|k: int|
                0 <= k < placed.executions.len() ==> exists|p: i64, i: int|
                    #![trigger resting[p][i]]
                    {
                        &&& resting.contains_key(p)
                        &&& 0 <= i < resting[p].len()
                        &&& resting[p][i].id == placed.executions[k].maker_order_id
                        &&& (#[trigger] placed.makers[k]) == resting[p][i].fill(
                            placed.executions[k].amount,
                        )
                        &&& placed.makers[k].filled <= placed.makers[k].amount
                    }
        }),
{
    let book = engine.book(order.symbol);
    let opposite = order.side.opposite();
    let resting = book.side(opposite);
    lemma_match_levels_wf(order, resting, opposite, order.symbol);
    lemma_match_levels_accounts(order, resting, opposite, order.symbol);
    lemma_match_levels_hits(order, resting, opposite, order.symbol);
}

/// The open quantity of the book after a placement. A limit order changes
/// it by its own open quantity less twice what was traded: the makers lose
/// what was traded, and what is left of the order comes to rest. A market
/// order only takes what was traded, since what is left of it is dropped.
pub proof fn law_volume(engine: EngineView, order: OrderView)
    requires
        engine.wf(),
        engine.rejection(order) is None,
        i64::MIN <= order.price <= i64::MAX,
    ensures
        ({
            let traded = executed_total(engine.place(order).executions);
            let before = engine.book(order.symbol).volume();
            let after = engine.placed_book(order).volume();
            match order.order_type {
                OrderType::Limit => after == before + order.remaining() - 2 * traded,
                OrderType::Market => after == before - traded,
            }
        }),
{
    let book = engine.book(order.symbol);
    let own = order.side;
    let opposite = order.side.opposite();
    let out = match_levels(order, book.side(opposite), opposite);
    lemma_match_levels_wf(order, book.side(opposite), opposite, order.symbol);
    lemma_match_levels_accounts(order, book.side(opposite), opposite, order.symbol);
    if EngineView::comes_to_rest(out.taker) {
        lemma_volume_add(book.side(own), out.taker);
    }
}

/// Price-time priority. Let A and B rest on the same side, A at a strictly
/// better price than B or ahead of B in the same queue. If a placement hits
/// B at all, it fills A, and A has left the book.
pub proof fn law_price_time_priority(
    engine: EngineView,
    order: OrderView,
    price_a: i64,
    a: int,
    price_b: i64,
    b: int,
    k: int,
)
    requires
        engine.wf(),
        engine.rejection(order) is None,
        engine.book(order.symbol).side(order.side.opposite()).contains_key(price_a),
        engine.book(order.symbol).side(order.side.opposite()).contains_key(price_b),
        0 <= a < engine.book(order.symbol).side(order.side.opposite())[price_a].len(),
        0 <= b < engine.book(order.symbol).side(order.side.opposite())[price_b].len(),
        strictly_better(price_a, price_b, order.side.opposite()) || (price_a == price_b && a < b),
        0 <= k < engine.place(order).executions.len(),
        engine.place(order).executions[k].maker_order_id == engine.book(order.symbol).side(
            order.side.opposite(),
        )[price_b][b].id,
    ensures
        ({
            let resting = engine.book(order.symbol).side(order.side.opposite());
            let placed = engine.place(order);
            &&& filled_ids(placed.makers).contains(resting[price_a][a].id)
            &&& forall|p: i64|
                !rests_at(
                    engine.placed_book(order).side(order.side.opposite()),
                    resting[price_a][a].id,
                    p,
                )
        }),
{
    let book = engine.book(order.symbol);
    let opposite = order.side.opposite();
    let resting = book.side(opposite);
    lemma_match_levels_hits(order, resting, opposite, order.symbol);
    lemma_match_levels_rests(order, resting, opposite, order.symbol);
    lemma_match_levels_wf(order, resting, opposite, order.symbol);
}

/// Placing a limit order that crosses nothing and cancelling it at once
/// leaves every book and the index as they were. (If the symbol had no book
/// yet it has an empty one afterwards.)
pub proof fn law_place_then_cancel(engine: EngineView, order: OrderView)
    requires
        engine.wf(),
        engine.rejection(order) is None,
        i64::MIN <= order.price <= i64::MAX,
        order.order_type == OrderType::Limit,
        !order.is_filled(),
        forall|p: i64|
            engine.book(order.symbol).side(order.side.opposite()).contains_key(p) ==> !crosses(
                order,
                p as int,
            ),
    ensures
        ({
            let after = engine.place(order).engine.cancel(order.id);
            &&& engine.place(order).executions.len() == 0
            &&& engine.place(order).engine.cancelled(order.id) == Some(order)
            &&& after.index == engine.index
            &&& forall|symbol: Seq<char>| after.book(symbol) == engine.book(symbol)
            &&& engine.books.contains_key(order.symbol) ==> after == engine
        }),
{
    let book = engine.book(order.symbol);
    let own = order.side;
    let mine = book.side(own);
    let price = order.price as i64;
    let placed = engine.place(order).engine;
    let queue = levels_add(mine, order)[price];
    let last = queue.len() - 1;
    assert forall|j: int| 0 <= j < last implies (#[trigger] queue[j]).id != order.id by {
        if mine[price][j].id == order.id {
            assert(rests_at(mine, order.id, price));
        }
    }
    lemma_position_is(queue, order.id, last);
    assert(levels_remove_at(levels_add(mine, order), price, last) =~= mine) by {
        if queue.len() > 1 {
            assert(queue.remove(last) =~= mine[price]);
        }
    }
    let after = placed.cancel(order.id);
    assert(after.index =~= engine.index);
    if engine.books.contains_key(order.symbol) {
        assert(after.books =~= engine.books);
    }
}

/// One step of an operation stream.
pub enum Operation {
    Place(OrderView),
    Cancel(Seq<char>),
}

/// What a stream of operations comes to.
pub struct Run {
    /// The engine after the last operation.
    pub engine: EngineView,
    /// The executions of all placements, in the order they happened.
    pub executions: Seq<Execution>,
}

/// Applies `operations` to `engine` one after the other. An order that is
/// turned away changes nothing.
pub open spec fn run(engine: EngineView, operations: Seq<Operation>) -> Run
    decreases operations.len(),
{
    if operations.len() == 0 {
        Run { engine, executions: Seq::empty() }
    } else {
        let before = run(engine, operations.drop_last());
        match operations.last() {
            Operation::Place(order) => if before.engine.rejection(order) is None {
                Run {
                    engine: before.engine.place(order).engine,
                    executions: before.executions + before.engine.place(order).executions,
                }
            } else {
                before
            },
            Operation::Cancel(id) => Run {
                engine: before.engine.cancel(id),
                executions: before.executions,
            },
        }
    }
}

/// Determinism. Two engines of equal value that are fed the same stream of
/// operations execute the same trades, in the same order, and end with
/// equal values; and each stays valid on the way.
pub proof fn law_determinism(first: EngineView, second: EngineView, operations: Seq<Operation>)
    requires
        first == second,
        first.wf(),
        forall|i: int|
            0 <= i < operations.len() ==> (#[trigger] operations[i] matches Operation::Place(order)
                ==> i64::MIN <= order.price <= i64::MAX),
    ensures
        run(first, operations).executions == run(second, operations).executions,
        run(first, operations).engine == run(second, operations).engine,
        run(first, operations).engine.wf(),
    decreases operations.len(),
{
    if operations.len() > 0 {
        let earlier = operations.drop_last();
        law_determinism(first, second, earlier);
        let before = run(first, earlier);
        match operations.last() {
            Operation::Place(order) => {
                if before.engine.rejection(order) is None {
                    lemma_place_wf(before.engine, order);
                }
            },
            Operation::Cancel(id) => {
                crate::engine_laws::lemma_cancel_wf(before.engine, id);
            },
        }
    }
}

/// With identifiers counted up and a set time, a trade is determined by what
/// it settles: two trades that bear the stamp of one reproducible stamper
/// and settle the same execution agree in every field.
pub proof fn law_reproducible_trades(stamper: Stamper, first: Trade, second: Trade)
    requires
        stamper.is_reproducible(),
        stamper.marks(first),
        stamper.marks(second),
        first.execution() == second.execution(),
    ensures
        first.id@ == second.id@,
        first.timestamp == second.timestamp,
        first.symbol@ == second.symbol@,
        first.maker_order_id@ == second.maker_order_id@,
        first.taker_order_id@ == second.taker_order_id@,
        first.price == second.price,
        first.amount == second.amount,
        first.taker_side == second.taker_side,
{
}

/// A snapshot depends on the value of the book and on the depth alone: two
/// snapshots of one book to one depth, with no change of the book between
/// them, are equal.
pub proof fn law_snapshot_is_pure(
    book: BookView,
    depth: nat,
    first: SnapshotView,
    second: SnapshotView,
)
    requires
        first == OrderBook::snapshot_view(book, depth),
        second == OrderBook::snapshot_view(book, depth),
    ensures
        first == second,
{
}

} // verus!
