//! The order book of one symbol: bids and asks indexed by price.

use std::collections::BTreeMap;
use vstd::prelude::*;
use crate::decimal::{midpoint_units, Decimal};
use crate::levels::{
    best_price, is_best, levels_add, levels_remove_at, levels_volume, levels_wf, match_levels,
    may_rest, top_levels, LevelSummary, Levels,
};
use crate::price_level::{lemma_position_of, position_of, PriceLevel};
use crate::side::{
    best_of, level_views, match_side, priced, rest_order, summarize, unrest_order,
};
use crate::stamp::Stamper;
use crate::types::{executions, order_views, MatchingResult, Order, OrderSide, OrderView};

verus! {

/// The mathematical value of an [`OrderBook`].
pub struct BookView {
    pub symbol: Seq<char>,
    /// The buy side: the highest price is the best.
    pub bids: Levels,
    /// The sell side: the lowest price is the best.
    pub asks: Levels,
}

impl BookView {
    /// The levels resting on `side`.
    pub open spec fn side(self, side: OrderSide) -> Levels {
        match side {
            OrderSide::Buy => self.bids,
            OrderSide::Sell => self.asks,
        }
    }

    /// This book with the levels resting on `side` replaced.
    pub open spec fn with_side(self, side: OrderSide, levels: Levels) -> BookView {
        match side {
            OrderSide::Buy => BookView { bids: levels, ..self },
            OrderSide::Sell => BookView { asks: levels, ..self },
        }
    }

    /// An empty book for `symbol`.
    pub open spec fn empty(symbol: Seq<char>) -> BookView {
        BookView { symbol, bids: Map::empty(), asks: Map::empty() }
    }

    /// No level is empty, and every resting order has an open quantity and
    /// lies on its own side, at its own price, in the book of its symbol.
    pub open spec fn wf(self) -> bool {
        &&& levels_wf(self.bids, OrderSide::Buy, self.symbol)
        &&& levels_wf(self.asks, OrderSide::Sell, self.symbol)
    }

    /// Every bid is below every ask.
    pub open spec fn uncrossed(self) -> bool {
        forall|bid: i64, ask: i64|
            self.bids.contains_key(bid) && self.asks.contains_key(ask) ==> bid < ask
    }

    /// The best price on `side`, if the side has any level.
    pub open spec fn best(self, side: OrderSide) -> Option<int> {
        if is_best(self.side(side), best_price(self.side(side), side), side) {
            Some(best_price(self.side(side), side) as int)
        } else {
            None
        }
    }

    /// The book after `order` came to rest on its side.
    pub open spec fn add(self, order: OrderView) -> BookView {
        self.with_side(order.side, levels_add(self.side(order.side), order))
    }

    /// Where the first order with identifier `id` stands in the queue at
    /// `price` on `side`, if there is such an order.
    pub open spec fn position(self, id: Seq<char>, side: OrderSide, price: i64) -> Option<int> {
        let levels = self.side(side);
        if levels.contains_key(price) && position_of(levels[price], id) < levels[price].len() {
            Some(position_of(levels[price], id))
        } else {
            None
        }
    }

    /// The book after the first order with identifier `id` left the queue at
    /// `price` on `side`; the book itself if there is no such order.
    pub open spec fn remove(self, id: Seq<char>, side: OrderSide, price: i64) -> BookView {
        match self.position(id, side, price) {
            Some(i) => self.with_side(side, levels_remove_at(self.side(side), price, i)),
            None => self,
        }
    }

    /// The open quantity of both sides together.
    pub open spec fn volume(self) -> int {
        levels_volume(self.bids) + levels_volume(self.asks)
    }
}

/// What a depth snapshot reports of one level: its price, the open quantity
/// of its queue in units, and the number of orders in the queue.
#[derive(Clone, Copy, Debug, PartialEq, Eq, Structural)]
pub struct LevelSnapshot {
    pub price: Decimal,
    pub amount: i128,
    pub order_count: usize,
}

impl View for LevelSnapshot {
    type V = LevelSummary;

    open spec fn view(&self) -> LevelSummary {
        LevelSummary {
            price: self.price@,
            amount: self.amount as int,
            order_count: self.order_count as int,
        }
    }
}

/// The views of a sequence of level snapshots, in the same order.
pub open spec fn level_summaries(levels: Seq<LevelSnapshot>) -> Seq<LevelSummary> {
    levels.map_values(|l: LevelSnapshot| l@)
}

/// A copy of the top of a book at one moment. It shares nothing with the
/// book it was taken from.
#[derive(Debug, Clone)]
pub struct BookSnapshot {
    pub symbol: String,
    /// The best bids, highest price first.
    pub bids: Vec<LevelSnapshot>,
    /// The best asks, lowest price first.
    pub asks: Vec<LevelSnapshot>,
}

/// The mathematical value of a [`BookSnapshot`].
pub struct SnapshotView {
    pub symbol: Seq<char>,
    pub bids: Seq<LevelSummary>,
    pub asks: Seq<LevelSummary>,
}

impl View for BookSnapshot {
    type V = SnapshotView;

    open spec fn view(&self) -> SnapshotView {
        SnapshotView {
            symbol: self.symbol@,
            bids: level_summaries(self.bids@),
            asks: level_summaries(self.asks@),
        }
    }
}

/// The order book of one symbol. Bids and asks are kept apart, each indexed
/// by price, and each price holds its orders in arrival order.
pub struct OrderBook {
    symbol: String,
    bids: BTreeMap<i64, PriceLevel>,
    asks: BTreeMap<i64, PriceLevel>,
}

impl View for OrderBook {
    type V = BookView;

    closed spec fn view(&self) -> BookView {
        BookView {
            symbol: self.symbol@,
            bids: level_views(self.bids@),
            asks: level_views(self.asks@),
        }
    }
}

impl OrderBook {
    /// The validity of the book: its value is well formed, and every level
    /// is filed under its own price.
    pub closed spec fn wf(&self) -> bool {
        &&& self@.wf()
        &&& priced(self.bids@)
        &&& priced(self.asks@)
    }

    /// A valid book has a well-formed value.
    pub proof fn lemma_wf_view(&self)
        requires
            self.wf(),
        ensures
            self@.wf(),
    {
    }

    /// An empty book for `symbol`.
    pub fn new(symbol: String) -> (book: Self)
        ensures
            book.wf(),
            book@ == BookView::empty(symbol@),
    {
        let book = OrderBook { symbol, bids: BTreeMap::new(), asks: BTreeMap::new() };
        assert(book@.bids =~= Map::<i64, Seq<OrderView>>::empty());
        book
    }

    /// The symbol this book is for.
    pub fn symbol(&self) -> (symbol: &String)
        ensures
            symbol@ == self@.symbol,
    {
        &self.symbol
    }

    /// Rests `order` on its side at its price: at the tail of the queue
    /// there, which is created if the price had none.
    pub fn add_order(&mut self, order: Order)
        requires
            old(self).wf(),
            may_rest(order@, order.side, order.price.units, old(self)@.symbol),
        ensures
            final(self).wf(),
            final(self)@ == old(self)@.add(order@),
    {
        match order.side {
            OrderSide::Buy => rest_order(&mut self.bids, order),
            OrderSide::Sell => rest_order(&mut self.asks, order),
        }
    }

    /// Takes the first order with the given identifier out of the queue at
    /// `price` on `side` and returns it; the level is dropped if that empties
    /// it. Returns `None`, and leaves the book as it is, if there is no such
    /// level or no such order in it.
    pub fn remove_order(&mut self, order_id: &str, side: OrderSide, price: Decimal) -> (removed:
        Option<Order>)
        requires
            old(self).wf(),
        ensures
            final(self).wf(),
            final(self)@ == old(self)@.remove(order_id@, side, price.units),
            (match old(self)@.position(order_id@, side, price.units) {
                Some(i) => removed matches Some(order) && order@ == old(self)@.side(
                    side,
                )[price.units][i],
                None => removed is None,
            }),
    {
        proof {
            let levels = self@.side(side);
            if levels.contains_key(price.units) {
                lemma_position_of(levels[price.units], order_id@);
            }
            assert forall|p: i64| self.bids@.contains_key(p) implies (#[trigger] self.bids@[p])@.len()
                > 0 by {
                assert(self@.bids.contains_key(p));
            }
            assert forall|p: i64| self.asks@.contains_key(p) implies (#[trigger] self.asks@[p])@.len()
                > 0 by {
                assert(self@.asks.contains_key(p));
            }
        }
        match side {
            OrderSide::Buy => unrest_order(&mut self.bids, order_id, price.units),
            OrderSide::Sell => unrest_order(&mut self.asks, order_id, price.units),
        }
    }

    /// Matches `taker` against the opposite side of the book: best price
    /// first and, at each price, oldest order first, for as long as the taker
    /// has an open quantity and the best price crosses. Each fill is at the
    /// maker's price. Makers that are filled leave the book, and so do levels
    /// that become empty; the taker's own side is left as it is.
    ///
    /// The trades come back in the order they were executed, each stamped by
    /// `stamper` with its identifier and time, together with the state of
    /// each maker right after it was hit.
    pub fn match_order(&mut self, taker: &mut Order, stamper: &mut Stamper) -> (result:
        MatchingResult)
        requires
            old(self).wf(),
            old(taker)@.well_formed(),
        ensures
            final(self).wf(),
            final(taker)@.well_formed(),
            ({
                let opposite = old(taker).side.opposite();
                let out = match_levels(old(taker)@, old(self)@.side(opposite), opposite);
                &&& final(self)@ == old(self)@.with_side(opposite, out.levels)
                &&& final(taker)@ == out.taker
                &&& executions(result.trades@) == out.executions
                &&& order_views(result.updated_orders@) == out.makers
            }),
            *final(stamper) == old(stamper).after(result.trades@.len()),
            forall|j: int|
                0 <= j < result.trades@.len() ==> old(stamper).after(j as nat).marks(
                    #[trigger] result.trades@[j],
                ),
    {
        match taker.side {
            OrderSide::Buy => match_side(
                &mut self.asks,
                OrderSide::Sell,
                taker,
                stamper,
                Ghost(self.symbol@),
            ),
            OrderSide::Sell => match_side(
                &mut self.bids,
                OrderSide::Buy,
                taker,
                stamper,
                Ghost(self.symbol@),
            ),
        }
    }

    /// The value of a snapshot of this book to the given depth: on each side
    /// the best `depth` levels, best first, each with its price, open
    /// quantity and number of orders.
    pub open spec fn snapshot_view(book: BookView, depth: nat) -> SnapshotView {
        SnapshotView {
            symbol: book.symbol,
            bids: top_levels(book.bids, OrderSide::Buy, depth),
            asks: top_levels(book.asks, OrderSide::Sell, depth),
        }
    }

    /// A copy of the top `depth` levels of each side, best first. The copy
    /// is a value of its own: later changes of the book do not reach it.
    pub fn snapshot(&self, depth: usize) -> (snapshot: BookSnapshot)
        requires
            self.wf(),
        ensures
            snapshot@ == Self::snapshot_view(self@, depth as nat),
    {
        BookSnapshot {
            symbol: self.symbol.clone(),
            bids: summarize(&self.bids, OrderSide::Buy, depth, Ghost(self.symbol@)),
            asks: summarize(&self.asks, OrderSide::Sell, depth, Ghost(self.symbol@)),
        }
    }

    /// The highest bid, if there is any bid.
    pub fn best_bid(&self) -> (best: Option<Decimal>)
        ensures
            best is Some <==> self@.best(OrderSide::Buy) is Some,
            best matches Some(price) ==> self@.best(OrderSide::Buy) == Some(price@),
    {
        match best_of(&self.bids, OrderSide::Buy) {
            Some(price) => Some(Decimal::from_units(price)),
            None => None,
        }
    }

    /// The lowest ask, if there is any ask.
    pub fn best_ask(&self) -> (best: Option<Decimal>)
        ensures
            best is Some <==> self@.best(OrderSide::Sell) is Some,
            best matches Some(price) ==> self@.best(OrderSide::Sell) == Some(price@),
    {
        match best_of(&self.asks, OrderSide::Sell) {
            Some(price) => Some(Decimal::from_units(price)),
            None => None,
        }
    }

    /// The lowest ask less the highest bid, when both sides have a level.
    pub fn spread(&self) -> (spread: Option<Decimal>)
        requires
            self.wf(),
        ensures
            (match (self@.best(OrderSide::Sell), self@.best(OrderSide::Buy)) {
                (Some(ask), Some(bid)) => spread matches Some(d) && d@ == ask - bid,
                _ => spread is None,
            }),
    {
        match (self.best_ask(), self.best_bid()) {
            (Some(ask), Some(bid)) => {
                assert(may_rest(self@.asks[ask.units][0], OrderSide::Sell, ask.units, self@.symbol));
                assert(may_rest(self@.bids[bid.units][0], OrderSide::Buy, bid.units, self@.symbol));
                Some(Decimal::from_units(ask.units - bid.units))
            },
            _ => None,
        }
    }

    /// The midpoint between the lowest ask and the highest bid, when both
    /// sides have a level. Where it falls between two units it is rounded
    /// toward negative infinity.
    pub fn mid_price(&self) -> (mid: Option<Decimal>)
        ensures
            (match (self@.best(OrderSide::Sell), self@.best(OrderSide::Buy)) {
                (Some(ask), Some(bid)) => mid matches Some(d) && d@ == midpoint_units(ask, bid),
                _ => mid is None,
            }),
    {
        match (self.best_ask(), self.best_bid()) {
            (Some(ask), Some(bid)) => Some(ask.midpoint(bid)),
            _ => None,
        }
    }
}

} // verus!
