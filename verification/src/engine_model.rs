//! The matching engine as a mathematical object: its books, its index of
//! resting orders, and what placing and cancelling an order do to them.

use vstd::prelude::*;
use crate::level_laws::unique_ids;
use crate::levels::{levels_add, levels_remove_at, match_levels, rests_at, Levels};
use crate::matching::filled_ids;
use crate::order_book::BookView;
use crate::price_level::position_of;
use crate::stamp::Stamper;
use crate::store::LocationView;
use crate::types::{Execution, OrderSide, OrderType, OrderView};

verus! {

/// Why an order was turned away. Every variant is a failure of validation:
/// the order is rejected before anything is changed.
#[derive(Clone, Copy, Debug, PartialEq, Eq, Structural)]
pub enum InvalidInput {
    /// The amount is zero or negative.
    NonPositiveAmount,
    /// The filled quantity is negative or exceeds the amount.
    FilledOutOfRange,
    /// A limit order with a zero or negative price.
    NonPositivePrice,
    /// The symbol is empty.
    EmptySymbol,
    /// The identifier is empty.
    EmptyId,
    /// An order with this identifier is resting in a book.
    DuplicateId,
    /// The side code is neither 0 (buy) nor 1 (sell).
    UnknownSide,
    /// The order type code is neither 0 (limit) nor 1 (market).
    UnknownOrderType,
    /// The price is not a decimal number that can be held exactly.
    MalformedPrice,
    /// The amount is not a decimal number that can be held exactly.
    MalformedAmount,
}

/// The mathematical value of a matching engine.
pub struct EngineView {
    /// The books, by symbol.
    pub books: Map<Seq<char>, BookView>,
    /// Where each resting order lies, by order identifier.
    pub index: Map<Seq<char>, LocationView>,
    /// What stamps the next trade.
    pub stamper: Stamper,
}

/// What placing an order comes to.
pub struct Placement {
    /// The engine afterwards.
    pub engine: EngineView,
    /// The executions, in the order they happened.
    pub executions: Seq<Execution>,
    /// The state of each maker right after it was hit, in the same order.
    pub makers: Seq<OrderView>,
    /// The order after the pass.
    pub taker: OrderView,
}

/// Where `order` comes to rest.
pub open spec fn location_of(order: OrderView) -> LocationView {
    LocationView { symbol: order.symbol, side: order.side, price: order.price as i64 }
}

impl EngineView {
    /// An engine without books or orders.
    pub open spec fn empty(stamper: Stamper) -> EngineView {
        EngineView { books: Map::empty(), index: Map::empty(), stamper }
    }

    /// The book for `symbol`; an empty book if the engine has none yet.
    pub open spec fn book(self, symbol: Seq<char>) -> BookView {
        if self.books.contains_key(symbol) {
            self.books[symbol]
        } else {
            BookView::empty(symbol)
        }
    }

    /// Every book is valid, filed under its own symbol, not crossed, and
    /// holds no identifier twice on a side.
    pub open spec fn books_wf(self) -> bool {
        forall|symbol: Seq<char>| #[trigger]
            self.books.contains_key(symbol) ==> {
                &&& self.books[symbol].wf()
                &&& self.books[symbol].symbol == symbol
                &&& self.books[symbol].uncrossed()
                &&& unique_ids(self.books[symbol].bids)
                &&& unique_ids(self.books[symbol].asks)
            }
    }

    /// Every indexed order rests where the index says.
    pub open spec fn index_sound(self) -> bool {
        forall|id: Seq<char>| #[trigger]
            self.index.contains_key(id) ==> {
                &&& self.books.contains_key(self.index[id].symbol)
                &&& rests_at(
                    self.books[self.index[id].symbol].side(self.index[id].side),
                    id,
                    self.index[id].price,
                )
            }
    }

    /// Every resting order is indexed, with the place where it rests.
    pub open spec fn index_complete(self) -> bool {
        forall|symbol: Seq<char>, side: OrderSide, id: Seq<char>, price: i64|
            self.books.contains_key(symbol) && #[trigger] rests_at(
                self.books[symbol].side(side),
                id,
                price,
            ) ==> self.index.contains_key(id) && self.index[id] == (LocationView {
                symbol,
                side,
                price,
            })
    }

    /// The validity of the engine: valid books, and an index that holds
    /// exactly the resting orders, each with its place.
    pub open spec fn wf(self) -> bool {
        &&& self.books.dom().finite()
        &&& self.index.dom().finite()
        &&& self.books_wf()
        &&& self.index_sound()
        &&& self.index_complete()
    }

    /// Why the engine turns `order` away, if it does. The tests are made in
    /// this order: amount, filled quantity, price, symbol, identifier.
    pub open spec fn rejection(self, order: OrderView) -> Option<InvalidInput> {
        if order.amount <= 0 {
            Some(InvalidInput::NonPositiveAmount)
        } else if order.filled < 0 || order.filled > order.amount {
            Some(InvalidInput::FilledOutOfRange)
        } else if order.order_type == OrderType::Limit && order.price <= 0 {
            Some(InvalidInput::NonPositivePrice)
        } else if order.symbol.len() == 0 {
            Some(InvalidInput::EmptySymbol)
        } else if order.id.len() == 0 {
            Some(InvalidInput::EmptyId)
        } else if self.index.contains_key(order.id) {
            Some(InvalidInput::DuplicateId)
        } else {
            None
        }
    }

    /// Whether `order`, as it leaves the matching pass, comes to rest: a
    /// limit order with an open quantity does, a market order never.
    pub open spec fn comes_to_rest(taker: OrderView) -> bool {
        taker.order_type == OrderType::Limit && !taker.is_filled()
    }

    /// The book for the symbol of `order` after the order was placed: the
    /// order was matched against the opposite side, and came to rest on its
    /// own side if it is a limit order that was not filled.
    pub open spec fn placed_book(self, order: OrderView) -> BookView {
        let book = self.book(order.symbol);
        let opposite = order.side.opposite();
        let out = match_levels(order, book.side(opposite), opposite);
        let matched = book.with_side(opposite, out.levels);
        if Self::comes_to_rest(out.taker) {
            matched.add(out.taker)
        } else {
            matched
        }
    }

    /// The index after `order` was placed: the makers that were filled have
    /// left it, and the order has entered it if it came to rest.
    pub open spec fn placed_index(self, order: OrderView) -> Map<Seq<char>, LocationView> {
        let opposite = order.side.opposite();
        let out = match_levels(order, self.book(order.symbol).side(opposite), opposite);
        let cleared = self.index.remove_keys(filled_ids(out.makers));
        if Self::comes_to_rest(out.taker) {
            cleared.insert(order.id, location_of(order))
        } else {
            cleared
        }
    }

    /// What placing `order` comes to, for an order that is not turned away.
    /// The order is matched against the opposite side of the book for its
    /// symbol, which is created if it was not there. The makers that were
    /// filled leave the index. A limit order that is not filled comes to
    /// rest on its own side and enters the index; what is left of a market
    /// order is dropped. The stamper has stamped one trade for each
    /// execution.
    pub open spec fn place(self, order: OrderView) -> Placement {
        let opposite = order.side.opposite();
        let out = match_levels(order, self.book(order.symbol).side(opposite), opposite);
        Placement {
            engine: EngineView {
                books: self.books.insert(order.symbol, self.placed_book(order)),
                index: self.placed_index(order),
                stamper: self.stamper.after(out.executions.len()),
            },
            executions: out.executions,
            makers: out.makers,
            taker: out.taker,
        }
    }

    /// The order that cancelling `id` hands back, if `id` is indexed.
    pub open spec fn cancelled(self, id: Seq<char>) -> Option<OrderView> {
        if self.index.contains_key(id) {
            let at = self.index[id];
            let queue = self.books[at.symbol].side(at.side)[at.price];
            Some(queue[position_of(queue, id)])
        } else {
            None
        }
    }

    /// The engine after `id` was cancelled: the order has left its level,
    /// which is dropped if that empties it, and the index. An identifier
    /// that is not indexed changes nothing.
    pub open spec fn cancel(self, id: Seq<char>) -> EngineView {
        if self.index.contains_key(id) {
            let at = self.index[id];
            EngineView {
                books: self.books.insert(
                    at.symbol,
                    self.books[at.symbol].remove(id, at.side, at.price),
                ),
                index: self.index.remove(id),
                stamper: self.stamper,
            }
        } else {
            self
        }
    }
}

/// The orders that rest after one more came to rest are those that rested
/// before, and the new one at its price.
pub proof fn lemma_add_rests(levels: Levels, order: OrderView)
    ensures
        forall|id: Seq<char>, p: i64| #[trigger]
            rests_at(levels_add(levels, order), id, p) <==> rests_at(levels, id, p) || (id
                == order.id && p == order.price as i64),
{
    let price = order.price as i64;
    let after = levels_add(levels, order);
    assert forall|id: Seq<char>, p: i64|
        rests_at(levels, id, p) || (id == order.id && p == price) implies #[trigger] rests_at(
        after,
        id,
        p,
    ) by {
        if rests_at(levels, id, p) {
            let i = choose|i: int| 0 <= i < levels[p].len() && #[trigger] levels[p][i].id == id;
            assert(after[p][i].id == id);
        } else {
            assert(after[p][after[p].len() - 1].id == id);
        }
    }
}

/// Identifiers stay unique when an order comes to rest whose identifier no
/// resting order has.
pub proof fn lemma_add_unique(levels: Levels, order: OrderView)
    requires
        unique_ids(levels),
        forall|p: i64| !rests_at(levels, order.id, p),
    ensures
        unique_ids(levels_add(levels, order)),
{
    let price = order.price as i64;
    let after = levels_add(levels, order);
    assert forall|pa: i64, ia: int, pb: i64, ib: int|
        #![trigger after[pa][ia], after[pb][ib]]
        after.contains_key(pa) && 0 <= ia < after[pa].len() && after.contains_key(pb) && 0 <= ib
            < after[pb].len() && after[pa][ia].id == after[pb][ib].id implies pa == pb && ia
        == ib by {
        let new_a = pa == price && ia == after[price].len() - 1;
        let new_b = pb == price && ib == after[price].len() - 1;
        if new_b && !new_a {
            assert(rests_at(levels, order.id, pa));
        } else if new_a && !new_b {
            assert(rests_at(levels, order.id, pb));
        }
    }
}

/// With unique identifiers, the orders that rest after one left are those
/// that rested before, but for the one that left. Identifiers stay unique.
pub proof fn lemma_remove_rests(levels: Levels, price: i64, i: int)
    requires
        unique_ids(levels),
        levels.contains_key(price),
        0 <= i < levels[price].len(),
    ensures
        unique_ids(levels_remove_at(levels, price, i)),
        forall|id: Seq<char>, p: i64| #[trigger]
            rests_at(levels_remove_at(levels, price, i), id, p) <==> rests_at(levels, id, p) && id
                != levels[price][i].id,
        forall|p: i64|
            levels_remove_at(levels, price, i).contains_key(p) ==> levels.contains_key(p),
{
    let after = levels_remove_at(levels, price, i);
    let gone = levels[price][i].id;
    assert forall|id: Seq<char>, p: i64| rests_at(levels, id, p) && id != gone implies #[trigger] rests_at(
        after,
        id,
        p,
    ) by {
        let k = choose|k: int| 0 <= k < levels[p].len() && #[trigger] levels[p][k].id == id;
        let j = if p == price && k > i {
            k - 1
        } else {
            k
        };
        assert(after[p][j].id == id);
    }
}

} // verus!
