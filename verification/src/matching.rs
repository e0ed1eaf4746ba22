//! What it means to match an incoming order against resting orders, and the
//! single step every match is made of.

use vstd::prelude::*;
use crate::decimal::Decimal;
use crate::price_level::{lemma_volume_remove, lemma_volume_update, queue_volume};
use crate::types::{Execution, Order, OrderSide, OrderType, OrderView, Trade};

verus! {

/// Whether a taker may trade at a resting price: a market order always may, a
/// limit buy at or below its limit, a limit sell at or above it.
pub open spec fn crosses(taker: OrderView, maker_price: int) -> bool {
    taker.order_type == OrderType::Market || match taker.side {
        OrderSide::Buy => maker_price <= taker.price,
        OrderSide::Sell => maker_price >= taker.price,
    }
}

/// The quantity exchanged when `taker` meets `maker`: the smaller of what
/// each still has open.
pub open spec fn fill_quantity(taker: OrderView, maker: OrderView) -> int {
    if taker.remaining() <= maker.remaining() {
        taker.remaining()
    } else {
        maker.remaining()
    }
}

/// The execution that results when `taker` meets `maker`. The price is the
/// maker's, whatever the taker's limit.
pub open spec fn execution_of(taker: OrderView, maker: OrderView) -> Execution {
    Execution {
        symbol: taker.symbol,
        maker_order_id: maker.id,
        taker_order_id: taker.id,
        price: maker.price,
        amount: fill_quantity(taker, maker),
        taker_side: taker.side,
    }
}

/// The outcome of matching a taker against one queue of resting orders.
pub struct QueueOutcome {
    /// The executions, in the order they happened.
    pub executions: Seq<Execution>,
    /// The state of each maker right after it was hit, in the same order.
    pub makers: Seq<OrderView>,
    /// The taker after the pass.
    pub taker: OrderView,
    /// What is left of the queue.
    pub queue: Seq<OrderView>,
}

/// Matches `taker` against `queue`, head first. The pass stops as soon as
/// the queue is empty, the taker is filled, or the head no longer crosses.
/// A maker that is filled leaves the queue; one that is only partly filled
/// stays at the head.
pub open spec fn match_queue(taker: OrderView, queue: Seq<OrderView>) -> QueueOutcome
    decreases queue.len(),
{
    if queue.len() == 0 || taker.is_filled() || !crosses(taker, queue[0].price) {
        QueueOutcome { executions: Seq::empty(), makers: Seq::empty(), taker, queue }
    } else {
        let maker = queue[0];
        let quantity = fill_quantity(taker, maker);
        let hit = maker.fill(quantity);
        if hit.is_filled() {
            let rest = match_queue(taker.fill(quantity), queue.drop_first());
            QueueOutcome {
                executions: seq![execution_of(taker, maker)] + rest.executions,
                makers: seq![hit] + rest.makers,
                taker: rest.taker,
                queue: rest.queue,
            }
        } else {
            QueueOutcome {
                executions: seq![execution_of(taker, maker)],
                makers: seq![hit],
                taker: taker.fill(quantity),
                queue: queue.update(0, hit),
            }
        }
    }
}

/// The identifiers of the makers among `makers` that were filled.
pub open spec fn filled_ids(makers: Seq<OrderView>) -> Set<Seq<char>> {
    Set::new(
        |id: Seq<char>|
            exists|k: int|
                0 <= k < makers.len() && (#[trigger] makers[k]).id == id && makers[k].is_filled(),
    )
}

/// The quantity that a sequence of executions exchanged in all.
pub open spec fn executed_total(executions: Seq<Execution>) -> int
    decreases executions.len(),
{
    if executions.len() == 0 {
        0
    } else {
        executions[0].amount + executed_total(executions.drop_first())
    }
}

/// A maker that may be matched: its fill state is within bounds and it has
/// an open quantity.
pub open spec fn is_open(order: OrderView) -> bool {
    0 <= order.filled < order.amount
}

/// In a pass over one queue of open makers the taker keeps everything but
/// its filled quantity, which can only grow and stays within the amount. No
/// more makers are hit than the queue holds, each at most once.
pub proof fn lemma_match_queue_taker(taker: OrderView, queue: Seq<OrderView>)
    requires
        taker.well_formed(),
        forall|i: int| 0 <= i < queue.len() ==> is_open(#[trigger] queue[i]),
    ensures
        ({
            let out = match_queue(taker, queue);
            &&& out.taker == OrderView { filled: out.taker.filled, ..taker }
            &&& out.taker.well_formed()
            &&& taker.filled <= out.taker.filled
            &&& out.queue.len() <= queue.len()
            &&& out.makers.len() == out.executions.len()
            &&& queue.len() - out.queue.len() <= out.makers.len() <= queue.len() - out.queue.len()
                + 1
            &&& out.makers.len() <= queue.len()
            &&& out.makers.len() == queue.len() - out.queue.len() + 1 ==> out.queue.len() > 0
            &&& out.queue.len() > 0 && crosses(taker, out.queue[0].price) ==> out.taker.is_filled()
        }),
    decreases queue.len(),
{
    if queue.len() > 0 && !taker.is_filled() && crosses(taker, queue[0].price) {
        let maker = queue[0];
        let quantity = fill_quantity(taker, maker);
        if maker.fill(quantity).is_filled() {
            let rest_queue = queue.drop_first();
            lemma_match_queue_taker(taker.fill(quantity), rest_queue);
        }
    }
}

/// What a pass over one queue of open makers leaves of the queue: with `n`
/// the number of makers that left, the old queue from position `n` on, every
/// order as it was but for the filled quantity of the head, and every order
/// still open.
pub proof fn lemma_match_queue_left(taker: OrderView, queue: Seq<OrderView>)
    requires
        taker.well_formed(),
        forall|i: int| 0 <= i < queue.len() ==> is_open(#[trigger] queue[i]),
    ensures
        ({
            let out = match_queue(taker, queue);
            let n = queue.len() - out.queue.len();
            &&& 0 <= n <= queue.len()
            &&& forall|j: int|
                0 <= j < out.queue.len() ==> ({
                    &&& is_open(#[trigger] out.queue[j])
                    &&& out.queue[j] == OrderView { filled: out.queue[j].filled, ..queue[n + j] }
                    &&& j > 0 ==> out.queue[j] == queue[n + j]
                })
        }),
    decreases queue.len(),
{
    if queue.len() > 0 && !taker.is_filled() && crosses(taker, queue[0].price) {
        let maker = queue[0];
        let quantity = fill_quantity(taker, maker);
        if maker.fill(quantity).is_filled() {
            let rest_queue = queue.drop_first();
            lemma_match_queue_left(taker.fill(quantity), rest_queue);
        }
    }
}

/// Whom a pass over one queue of open makers hit: the k-th execution was
/// against the k-th maker of the old queue, at that maker's price, which the
/// taker crosses, and for a positive quantity, by which the maker's filled
/// quantity grew. With `n` the number of makers that left the queue, the
/// maker was filled exactly if it is one of the first `n`.
pub proof fn lemma_match_queue_makers(taker: OrderView, queue: Seq<OrderView>)
    requires
        taker.well_formed(),
        forall|i: int| 0 <= i < queue.len() ==> is_open(#[trigger] queue[i]),
    ensures
        ({
            let out = match_queue(taker, queue);
            let n = queue.len() - out.queue.len();
            &&& out.makers.len() == out.executions.len()
            &&& out.makers.len() <= queue.len()
            &&& forall|k: int|
                0 <= k < out.makers.len() ==> ({
                    &&& (#[trigger] out.makers[k]) == OrderView {
                        filled: out.makers[k].filled,
                        ..queue[k]
                    }
                    &&& out.makers[k].is_filled() <==> k < n
                    &&& out.makers[k].filled == queue[k].filled + out.executions[k].amount
                    &&& out.makers[k].filled <= out.makers[k].amount
                })
            &&& forall|k: int|
                0 <= k < out.executions.len() ==> ({
                    &&& (#[trigger] out.executions[k]).amount > 0
                    &&& out.executions[k].price == queue[k].price
                    &&& out.executions[k].maker_order_id == queue[k].id
                    &&& out.executions[k].taker_order_id == taker.id
                    &&& out.executions[k].taker_side == taker.side
                    &&& out.executions[k].symbol == taker.symbol
                    &&& crosses(taker, queue[k].price)
                })
        }),
    decreases queue.len(),
{
    lemma_match_queue_taker(taker, queue);
    if queue.len() > 0 && !taker.is_filled() && crosses(taker, queue[0].price) {
        let maker = queue[0];
        let quantity = fill_quantity(taker, maker);
        let hit = maker.fill(quantity);
        if hit.is_filled() {
            let rest_queue = queue.drop_first();
            let moved = taker.fill(quantity);
            lemma_match_queue_makers(moved, rest_queue);
        }
    }
}

/// The accounts of a pass over one queue of open makers: the taker gained
/// what the executions exchanged in all, and the queue lost as much open
/// quantity.
pub proof fn lemma_match_queue_accounts(taker: OrderView, queue: Seq<OrderView>)
    requires
        taker.well_formed(),
        forall|i: int| 0 <= i < queue.len() ==> is_open(#[trigger] queue[i]),
    ensures
        ({
            let out = match_queue(taker, queue);
            &&& out.taker.filled == taker.filled + executed_total(out.executions)
            &&& queue_volume(out.queue) == queue_volume(queue) - executed_total(out.executions)
        }),
    decreases queue.len(),
{
    let out = match_queue(taker, queue);
    if queue.len() > 0 && !taker.is_filled() && crosses(taker, queue[0].price) {
        let maker = queue[0];
        let quantity = fill_quantity(taker, maker);
        let hit = maker.fill(quantity);
        if hit.is_filled() {
            let rest_queue = queue.drop_first();
            let moved = taker.fill(quantity);
            lemma_match_queue_accounts(moved, rest_queue);
            let rest = match_queue(moved, rest_queue);
            assert(out.executions.drop_first() =~= rest.executions);
            lemma_volume_remove(queue, 0);
        } else {
            assert(out.executions.drop_first() =~= Seq::<Execution>::empty());
            assert(executed_total(Seq::<Execution>::empty()) == 0);
            lemma_volume_update(queue, 0, hit);
        }
    }
}

/// Whether `taker` may trade at `maker_price`.
pub fn taker_crosses(taker: &Order, maker_price: Decimal) -> (r: bool)
    ensures
        r == crosses(taker@, maker_price@),
{
    match taker.order_type {
        OrderType::Market => true,
        OrderType::Limit => match taker.side {
            OrderSide::Buy => maker_price.units <= taker.price.units,
            OrderSide::Sell => maker_price.units >= taker.price.units,
        },
    }
}

/// Executes one fill between `taker` and `maker` and records it as a trade
/// with the given identifier and time. Both orders gain the same filled
/// quantity, which is the trade's amount; the trade's price is the maker's.
pub fn execute_fill(
    taker: &mut Order,
    maker: &mut Order,
    trade_id: String,
    timestamp: i64,
) -> (trade: Trade)
    requires
        old(taker)@.well_formed(),
        old(maker)@.well_formed(),
        !old(taker)@.is_filled(),
        !old(maker)@.is_filled(),
    ensures
        trade.execution() == execution_of(old(taker)@, old(maker)@),
        trade.id == trade_id,
        trade.timestamp == timestamp,
        trade.amount@ > 0,
        final(taker)@ == old(taker)@.fill(trade.amount@),
        final(maker)@ == old(maker)@.fill(trade.amount@),
        final(taker)@.well_formed(),
        final(maker)@.well_formed(),
{
    let quantity = taker.remaining().min(maker.remaining());
    let trade = Trade {
        id: trade_id,
        symbol: taker.symbol.clone(),
        maker_order_id: maker.id.clone(),
        taker_order_id: taker.id.clone(),
        price: maker.price,
        amount: quantity,
        taker_side: taker.side,
        timestamp,
    };
    taker.filled = Decimal::from_units(taker.filled.units + quantity.units);
    maker.filled = Decimal::from_units(maker.filled.units + quantity.units);
    trade
}

} // verus!
