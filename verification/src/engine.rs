//! The matching engine: the books of all symbols and the index of resting
//! orders, with placing, cancelling, snapshots and statistics.

use vstd::prelude::*;
use crate::engine_laws::{lemma_cancel_wf, lemma_indexed_is_found, lemma_place_wf};
use crate::engine_model::{EngineView, InvalidInput};
use crate::laws::law_trades_are_sound;
use crate::level_laws::{lemma_filled_ids_concat, lemma_match_levels_wf};
use crate::matching::filled_ids;
use crate::order_book::{BookSnapshot, BookView, OrderBook};
use crate::stamp::{Clock, Stamper};
use crate::store::{
    count_books, count_orders, forget_order, held_books, held_locations, is_recorded, new_books,
    new_index, put_book, record_order, snapshot_book, take_book, BookMap, LocationView, OrderIndex,
    OrderLocation,
};
use crate::types::{executions, order_views, MatchingResult, Order, OrderType};

verus! {

/// How much the engine holds.
#[derive(Clone, Copy, Debug, PartialEq, Eq, Structural)]
pub struct EngineStats {
    /// The number of resting orders.
    pub total_orders: usize,
    /// The number of symbols that have a book.
    pub active_symbols: usize,
}

/// The values of the books of a map of books.
spec fn book_views(held: Map<Seq<char>, OrderBook>) -> Map<Seq<char>, BookView> {
    Map::new(|symbol: Seq<char>| held.contains_key(symbol), |symbol: Seq<char>| held[symbol]@)
}

/// The values of the locations of an order index.
spec fn location_views(held: Map<Seq<char>, OrderLocation>) -> Map<Seq<char>, LocationView> {
    Map::new(|id: Seq<char>| held.contains_key(id), |id: Seq<char>| held[id]@)
}

/// Takes the makers that were filled out of the index.
fn forget_filled(index: &mut OrderIndex, makers: &Vec<Order>)
    ensures
        location_views(held_locations(*final(index))) == location_views(
            held_locations(*old(index)),
        ).remove_keys(filled_ids(order_views(makers@))),
{
    let ghost before = location_views(held_locations(*index));
    let ghost views = order_views(makers@);
    let mut i: usize = 0;
    while i < makers.len()
        invariant
            0 <= i <= makers@.len(),
            views == order_views(makers@),
            location_views(held_locations(*index)) == before.remove_keys(
                filled_ids(views.take(i as int)),
            ),
        decreases makers@.len() - i,
    {
        let ghost done = views.take(i as int);
        let ghost last = seq![views[i as int]];
        proof {
            assert(views.take(i + 1) =~= done + last);
            lemma_filled_ids_concat(done, last);
            assert(last[0] == views[i as int]);
        }
        if makers[i].is_filled() {
            let ghost held = held_locations(*index);
            forget_order(index, makers[i].id.as_str());
            proof {
                let id = views[i as int].id;
                assert(location_views(held.remove(id)) =~= location_views(held).remove(id));
            }
        }
        i = i + 1;
    }
    assert(views.take(i as int) =~= views);
}

/// The matching engine. It owns one book per symbol, created when the symbol
/// is first named, and an index that tells where each resting order lies.
pub struct MatchingEngine {
    order_books: BookMap,
    orders: OrderIndex,
    stamper: Stamper,
}

impl View for MatchingEngine {
    type V = EngineView;

    closed spec fn view(&self) -> EngineView {
        EngineView {
            books: book_views(held_books(self.order_books)),
            index: location_views(held_locations(self.orders)),
            stamper: self.stamper,
        }
    }
}

impl MatchingEngine {
    /// The validity of the engine: every book is valid, and the value of
    /// the engine is well formed.
    pub closed spec fn wf(&self) -> bool {
        &&& forall|symbol: Seq<char>| #[trigger]
            held_books(self.order_books).contains_key(symbol) ==> held_books(
                self.order_books,
            )[symbol].wf()
        &&& self@.wf()
    }

    /// A valid engine has a well-formed value.
    pub proof fn lemma_wf_view(&self)
        requires
            self.wf(),
        ensures
            self@.wf(),
    {
    }

    /// An engine without books or orders, which stamps its trades with
    /// random identifiers and the time of the machine's clock.
    pub fn new() -> (engine: Self)
        ensures
            engine.wf(),
            engine@ == EngineView::empty(
                Stamper { ids: crate::stamp::IdSource::Random, clock: Clock::System },
            ),
    {
        Self::with_stamper(Stamper::system())
    }

    /// An engine without books or orders, which stamps its trades with
    /// `stamper`.
    pub fn with_stamper(stamper: Stamper) -> (engine: Self)
        ensures
            engine.wf(),
            engine@ == EngineView::empty(stamper),
    {
        let engine = MatchingEngine { order_books: new_books(), orders: new_index(), stamper };
        proof {
            assert(engine@.books =~= Map::<Seq<char>, BookView>::empty());
            assert(engine@.index =~= Map::<Seq<char>, LocationView>::empty());
        }
        engine
    }

    /// Sets where the time of the trades to come is taken from.
    pub fn set_clock(&mut self, clock: Clock)
        requires
            old(self).wf(),
        ensures
            final(self).wf(),
            final(self)@ == (EngineView {
                stamper: Stamper { ids: old(self)@.stamper.ids, clock },
                ..old(self)@
            }),
    {
        self.stamper.clock = clock;
    }

    /// Why `order` is turned away, if it is.
    fn rejection_of(&self, order: &Order) -> (reason: Option<InvalidInput>)
        ensures
            reason == self@.rejection(order@),
    {
        if order.amount.units <= 0 {
            Some(InvalidInput::NonPositiveAmount)
        } else if order.filled.units < 0 || order.filled.units > order.amount.units {
            Some(InvalidInput::FilledOutOfRange)
        } else if order.order_type == OrderType::Limit && order.price.units <= 0 {
            Some(InvalidInput::NonPositivePrice)
        } else if order.symbol.as_str().is_empty() {
            Some(InvalidInput::EmptySymbol)
        } else if order.id.as_str().is_empty() {
            Some(InvalidInput::EmptyId)
        } else if is_recorded(&self.orders, order.id.as_str()) {
            Some(InvalidInput::DuplicateId)
        } else {
            None
        }
    }

    /// Places `order`.
    ///
    /// An order is turned away, and nothing is changed, if its amount is not
    /// positive, its filled quantity is out of bounds, it is a limit order
    /// without a positive price, its symbol or identifier is empty, or an
    /// order with its identifier is resting.
    ///
    /// Otherwise the order is matched against the opposite side of the book
    /// for its symbol, best price first and oldest order first, each fill at
    /// the maker's price. Makers that are filled leave the book and the
    /// index. A limit order that is left with an open quantity comes to rest
    /// at its price and enters the index. What is left of a market order is
    /// dropped. The result holds the trades in the order they were executed,
    /// each stamped with its identifier and time, and the state of each
    /// maker right after it was hit.
    pub fn place_order(&mut self, order: Order) -> (outcome: Result<MatchingResult, InvalidInput>)
        requires
            old(self).wf(),
        ensures
            final(self).wf(),
            (match old(self)@.rejection(order@) {
                Some(reason) => outcome matches Err(why) && why == reason && final(self)@ == old(
                    self,
                )@,
                None => outcome matches Ok(result) && ({
                    let placed = old(self)@.place(order@);
                    &&& final(self)@ == placed.engine
                    &&& executions(result.trades@) == placed.executions
                    &&& order_views(result.updated_orders@) == placed.makers
                    &&& forall|k: int|
                        0 <= k < result.trades@.len() ==> old(self)@.stamper.after(k as nat).marks(
                            #[trigger] result.trades@[k],
                        )
                    &&& forall|k: int|
                        0 <= k < result.trades@.len() ==> ({
                            &&& (#[trigger] result.trades@[k]).amount@ > 0
                            &&& result.trades@[k].price@ > 0
                            &&& result.trades@[k].taker_side == order.side
                            &&& result.trades@[k].taker_order_id@ == order.id@
                            &&& result.trades@[k].symbol@ == order.symbol@
                        })
                }),
            }),
    {
        if let Some(reason) = self.rejection_of(&order) {
            return Err(reason);
        }
        let ghost before = self@;
        let ghost placed = before.place(order@);
        let mut taker = order;
        let taken = take_book(&mut self.order_books, taker.symbol.as_str());
        let mut book = match taken {
            Some(book) => book,
            None => OrderBook::new(taker.symbol.clone()),
        };
        proof {
            let opposite = order@.side.opposite();
            lemma_match_levels_wf(order@, book@.side(opposite), opposite, order@.symbol);
        }
        let result = book.match_order(&mut taker, &mut self.stamper);
        forget_filled(&mut self.orders, &result.updated_orders);
        let symbol = taker.symbol.clone();
        if taker.order_type == OrderType::Limit && !taker.is_filled() {
            let location = OrderLocation {
                symbol: taker.symbol.clone(),
                side: taker.side,
                price: taker.price,
            };
            record_order(&mut self.orders, taker.id.clone(), location);
            book.add_order(taker);
        }
        put_book(&mut self.order_books, symbol, book);
        proof {
            lemma_place_wf(before, order@);
            assert(self@.books =~= placed.engine.books);
            assert(self@.index =~= placed.engine.index);
            assert forall|k: int| 0 <= k < result.trades@.len() implies {
                &&& (#[trigger] result.trades@[k]).amount@ > 0
                &&& result.trades@[k].price@ > 0
                &&& result.trades@[k].taker_side == order.side
                &&& result.trades@[k].taker_order_id@ == order.id@
                &&& result.trades@[k].symbol@ == order.symbol@
            } by {
                law_trades_are_sound(before, order@, k);
            }
        }
        Ok(result)
    }

    /// Cancels the resting order with the given identifier and hands it
    /// back, with whatever it had been filled by. The order leaves its level,
    /// which is dropped if that empties it, and the index. Returns `None`,
    /// and changes nothing, if no resting order has the identifier.
    pub fn cancel_order(&mut self, order_id: &str) -> (cancelled: Option<Order>)
        requires
            old(self).wf(),
        ensures
            final(self).wf(),
            final(self)@ == old(self)@.cancel(order_id@),
            (match old(self)@.cancelled(order_id@) {
                Some(order) => cancelled matches Some(handed) && handed@ == order && handed.id@
                    == order_id@,
                None => cancelled is None,
            }),
    {
        let ghost before = self@;
        proof {
            lemma_cancel_wf(before, order_id@);
            if before.index.contains_key(order_id@) {
                lemma_indexed_is_found(before, order_id@);
            }
        }
        match forget_order(&mut self.orders, order_id) {
            None => {
                assert(self@.index =~= before.index);
                None
            },
            Some(location) => {
                let mut book = take_book(&mut self.order_books, location.symbol.as_str()).unwrap();
                let removed = book.remove_order(order_id, location.side, location.price);
                put_book(&mut self.order_books, location.symbol, book);
                proof {
                    let after = before.cancel(order_id@);
                    assert(self@.books =~= after.books);
                    assert(self@.index =~= after.index);
                }
                removed
            },
        }
    }

    /// A snapshot of the book for `symbol` to the given depth: on each side
    /// the best `depth` levels, best first. Returns `None` if the symbol has
    /// no book yet.
    pub fn get_order_book(&self, symbol: &str, depth: usize) -> (snapshot: Option<BookSnapshot>)
        requires
            self.wf(),
        ensures
            (match snapshot {
                Some(taken) => self@.books.contains_key(symbol@) && taken@
                    == OrderBook::snapshot_view(self@.books[symbol@], depth as nat),
                None => !self@.books.contains_key(symbol@),
            }),
    {
        snapshot_book(&self.order_books, symbol, depth)
    }

    /// The number of resting orders and the number of symbols with a book.
    pub fn get_stats(&self) -> (stats: EngineStats)
        ensures
            stats.total_orders == self@.index.dom().len(),
            stats.active_symbols == self@.books.dom().len(),
    {
        proof {
            assert(self@.index.dom() =~= held_locations(self.orders).dom());
            assert(self@.books.dom() =~= held_books(self.order_books).dom());
        }
        EngineStats {
            total_orders: count_orders(&self.orders),
            active_symbols: count_books(&self.order_books),
        }
    }
}

} // verus!
