//! Placing and cancelling an order keep the engine valid.

use vstd::prelude::*;
use crate::engine_model::{lemma_add_rests, lemma_add_unique, lemma_remove_rests, EngineView};
use crate::level_laws::{lemma_match_levels_rests, lemma_match_levels_wf, unique_ids};
use crate::levels::{match_levels, rests_at};
use crate::matching::{crosses, filled_ids};
use crate::price_level::{lemma_position_of, position_of};
use crate::types::{OrderSide, OrderView};

verus! {

/// What is known of the book for an order's symbol before the order is
/// placed: it is valid, which an empty book is too, and no order in it has
/// the identifier of the order about to be placed.
pub proof fn lemma_book_before(engine: EngineView, order: OrderView)
    requires
        engine.wf(),
        engine.rejection(order) is None,
    ensures
        ({
            let book = engine.book(order.symbol);
            &&& book.wf()
            &&& book.symbol == order.symbol
            &&& book.uncrossed()
            &&& unique_ids(book.bids)
            &&& unique_ids(book.asks)
            &&& forall|side: OrderSide, p: i64| !rests_at(book.side(side), order.id, p)
            &&& !engine.books.contains_key(order.symbol) ==> forall|side: OrderSide, p: i64|
                !book.side(side).contains_key(p)
        }),
{
}

/// The book for an order's symbol is valid after the order was placed: well
/// formed, not crossed, and without an identifier twice on a side.
pub proof fn lemma_placed_book_wf(engine: EngineView, order: OrderView)
    requires
        engine.wf(),
        engine.rejection(order) is None,
        i64::MIN <= order.price <= i64::MAX,
    ensures
        ({
            let placed = engine.placed_book(order);
            &&& placed.wf()
            &&& placed.symbol == order.symbol
            &&& placed.uncrossed()
            &&& unique_ids(placed.bids)
            &&& unique_ids(placed.asks)
        }),
{
    let book = engine.book(order.symbol);
    let own = order.side;
    let opposite = order.side.opposite();
    let out = match_levels(order, book.side(opposite), opposite);
    let placed = engine.placed_book(order);
    lemma_book_before(engine, order);
    lemma_match_levels_wf(order, book.side(opposite), opposite, order.symbol);
    lemma_match_levels_rests(order, book.side(opposite), opposite, order.symbol);
    if EngineView::comes_to_rest(out.taker) {
        let price = order.price as i64;
        lemma_add_unique(book.side(own), out.taker);
        assert forall|bid: i64, ask: i64|
            placed.bids.contains_key(bid) && placed.asks.contains_key(ask) implies bid < ask by {
            match own {
                OrderSide::Buy => {
                    if bid == price {
                        assert(!crosses(order, ask as int));
                    }
                },
                OrderSide::Sell => {
                    if ask == price {
                        assert(!crosses(order, bid as int));
                    }
                },
            }
        }
    } else {
        assert forall|bid: i64, ask: i64|
            placed.bids.contains_key(bid) && placed.asks.contains_key(ask) implies bid < ask by {
        }
    }
}

/// Which orders rest in the book for an order's symbol after the order was
/// placed: those that rested before and were not filled, each where it was,
/// and the order itself if it came to rest.
pub proof fn lemma_placed_book_rests(engine: EngineView, order: OrderView)
    requires
        engine.wf(),
        engine.rejection(order) is None,
        i64::MIN <= order.price <= i64::MAX,
    ensures
        ({
            let book = engine.book(order.symbol);
            let placed = engine.placed_book(order);
            let opposite = order.side.opposite();
            let out = match_levels(order, book.side(opposite), opposite);
            let filled = filled_ids(out.makers);
            &&& forall|side: OrderSide, id: Seq<char>, p: i64| #[trigger]
                rests_at(placed.side(side), id, p) ==> ({
                    ||| rests_at(book.side(side), id, p) && !filled.contains(id) && id != order.id
                    ||| EngineView::comes_to_rest(out.taker) && id == order.id && side == order.side
                        && p == order.price as i64
                })
            &&& forall|side: OrderSide, id: Seq<char>, p: i64| #[trigger]
                rests_at(book.side(side), id, p) && !filled.contains(id) ==> rests_at(
                    placed.side(side),
                    id,
                    p,
                )
            &&& EngineView::comes_to_rest(out.taker) ==> rests_at(
                placed.side(order.side),
                order.id,
                order.price as i64,
            )
            &&& forall|id: Seq<char>| #[trigger]
                filled.contains(id) ==> exists|p: i64| rests_at(book.side(opposite), id, p)
        }),
{
    let book = engine.book(order.symbol);
    let own = order.side;
    let opposite = order.side.opposite();
    let out = match_levels(order, book.side(opposite), opposite);
    lemma_match_levels_wf(order, book.side(opposite), opposite, order.symbol);
    lemma_match_levels_rests(order, book.side(opposite), opposite, order.symbol);
    lemma_add_rests(book.side(own), out.taker);
}

/// Placing an order that is not turned away keeps the engine valid.
pub proof fn lemma_place_wf(engine: EngineView, order: OrderView)
    requires
        engine.wf(),
        engine.rejection(order) is None,
        i64::MIN <= order.price <= i64::MAX,
    ensures
        engine.place(order).engine.wf(),
{
    let book = engine.book(order.symbol);
    let opposite = order.side.opposite();
    let out = match_levels(order, book.side(opposite), opposite);
    let filled = filled_ids(out.makers);
    let cleared = engine.index.remove_keys(filled);
    lemma_placed_book_wf(engine, order);
    lemma_placed_book_rests(engine, order);
    vstd::set_lib::lemma_set_subset_finite(engine.index.dom(), cleared.dom());
}

/// An indexed order is found by cancellation: the queue that the index
/// names holds an order with the identifier.
pub proof fn lemma_indexed_is_found(engine: EngineView, id: Seq<char>)
    requires
        engine.wf(),
        engine.index.contains_key(id),
    ensures
        ({
            let at = engine.index[id];
            let book = engine.books[at.symbol];
            &&& engine.books.contains_key(at.symbol)
            &&& book.side(at.side).contains_key(at.price)
            &&& book.position(id, at.side, at.price) == Some(
                position_of(book.side(at.side)[at.price], id),
            )
            &&& engine.cancelled(id) matches Some(order) && order.id == id
        }),
{
    let at = engine.index[id];
    let book = engine.books[at.symbol];
    let queue = book.side(at.side)[at.price];
    lemma_position_of(queue, id);
}

/// Cancelling keeps the engine valid.
pub proof fn lemma_cancel_wf(engine: EngineView, id: Seq<char>)
    requires
        engine.wf(),
    ensures
        engine.cancel(id).wf(),
{
    if engine.index.contains_key(id) {
        let at = engine.index[id];
        let book = engine.books[at.symbol];
        let levels = book.side(at.side);
        let i = position_of(levels[at.price], id);
        lemma_position_of(levels[at.price], id);
        let removed = book.remove(id, at.side, at.price);
        lemma_remove_rests(levels, at.price, i);
        assert(removed.side(at.side.opposite()) == book.side(at.side.opposite()));
    }
}

} // verus!
