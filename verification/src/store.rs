//! The two concurrent hash maps of the engine, seen through contracts: the
//! books by symbol, and the location of each resting order by identifier.
//!
//! Each function here makes one call into `dashmap`; its contract is taken
//! on trust from the source of that crate. The engine owns its maps and
//! hands out no reference into them, so a call never waits on a lock held by
//! the caller.

use dashmap::DashMap;
use vstd::prelude::*;
use crate::decimal::Decimal;
use crate::order_book::{BookSnapshot, OrderBook};
use crate::types::OrderSide;

verus! {

#[verifier::external_type_specification]
#[verifier::external_body]
#[verifier::reject_recursive_types(K)]
#[verifier::reject_recursive_types(V)]
#[verifier::reject_recursive_types(S)]
pub struct ExDashMap<K, V, S>(DashMap<K, V, S>);

/// Where a resting order is to be found: the book, the side and the price
/// level.
#[derive(Debug, Clone)]
pub struct OrderLocation {
    pub symbol: String,
    pub side: OrderSide,
    pub price: Decimal,
}

/// The mathematical value of an [`OrderLocation`].
pub struct LocationView {
    pub symbol: Seq<char>,
    pub side: OrderSide,
    pub price: i64,
}

impl View for OrderLocation {
    type V = LocationView;

    open spec fn view(&self) -> LocationView {
        LocationView { symbol: self.symbol@, side: self.side, price: self.price.units }
    }
}

/// The map that holds the books, by symbol.
pub type BookMap = DashMap<String, OrderBook>;

/// The map that holds the location of each resting order, by identifier.
pub type OrderIndex = DashMap<String, OrderLocation>;

/// The books that a map of books holds, by symbol.
pub uninterp spec fn held_books(books: DashMap<String, OrderBook>) -> Map<Seq<char>, OrderBook>;

/// The locations that an order index holds, by order identifier.
pub uninterp spec fn held_locations(index: DashMap<String, OrderLocation>) -> Map<
    Seq<char>,
    OrderLocation,
>;

/// `DashMap::new`: a map that holds no book.
#[verifier::external_body]
pub(crate) fn new_books() -> (books: BookMap)
    ensures
        forall|symbol: Seq<char>| !held_books(books).contains_key(symbol),
{
    DashMap::new()
}

/// `DashMap::remove`: takes the book for `symbol` out of the map and hands
/// it over, if the map holds one; the other books stay.
#[verifier::external_body]
pub(crate) fn take_book(books: &mut DashMap<String, OrderBook>, symbol: &str) -> (taken: Option<
    OrderBook,
>)
    ensures
        held_books(*final(books)) == held_books(*old(books)).remove(symbol@),
        taken == (if held_books(*old(books)).contains_key(symbol@) {
            Some(held_books(*old(books))[symbol@])
        } else {
            None::<OrderBook>
        }),
{
    match books.remove(symbol) {
        Some(entry) => Some(entry.1),
        None => None,
    }
}

/// `DashMap::insert`: files `book` under `symbol`, in place of the book that
/// was filed there, if any; the other books stay.
#[verifier::external_body]
pub(crate) fn put_book(books: &mut DashMap<String, OrderBook>, symbol: String, book: OrderBook)
    ensures
        held_books(*final(books)) == held_books(*old(books)).insert(symbol@, book),
{
    books.insert(symbol, book);
}

/// `DashMap::len`: the number of books held.
#[verifier::external_body]
pub(crate) fn count_books(books: &DashMap<String, OrderBook>) -> (count: usize)
    ensures
        count == held_books(*books).dom().len(),
{
    books.len()
}

/// `DashMap::view`: applies [`OrderBook::snapshot`] to the book for `symbol`
/// where it lies and hands back the snapshot, or `None` if the map holds no
/// book for the symbol. The map is left as it is.
#[verifier::external_body]
pub(crate) fn snapshot_book(
    books: &DashMap<String, OrderBook>,
    symbol: &str,
    depth: usize,
) -> (taken: Option<BookSnapshot>)
    requires
        held_books(*books).contains_key(symbol@) ==> held_books(*books)[symbol@].wf(),
    ensures
        (match taken {
            Some(snapshot) => held_books(*books).contains_key(symbol@) && snapshot@
                == OrderBook::snapshot_view(held_books(*books)[symbol@]@, depth as nat),
            None => !held_books(*books).contains_key(symbol@),
        }),
{
    books.view(symbol, |_, book| book.snapshot(depth))
}

/// `DashMap::new`: an index that holds no location.
#[verifier::external_body]
pub(crate) fn new_index() -> (index: OrderIndex)
    ensures
        forall|id: Seq<char>| !held_locations(index).contains_key(id),
{
    DashMap::new()
}

/// `DashMap::contains_key`: whether the index holds a location for `id`.
#[verifier::external_body]
pub(crate) fn is_recorded(index: &DashMap<String, OrderLocation>, id: &str) -> (recorded: bool)
    ensures
        recorded == held_locations(*index).contains_key(id@),
{
    index.contains_key(id)
}

/// `DashMap::insert`: records `location` for `id`, in place of the location
/// that was recorded for it, if any; the other entries stay.
#[verifier::external_body]
pub(crate) fn record_order(
    index: &mut DashMap<String, OrderLocation>,
    id: String,
    location: OrderLocation,
)
    ensures
        held_locations(*final(index)) == held_locations(*old(index)).insert(id@, location),
{
    index.insert(id, location);
}

/// `DashMap::remove`: takes the location recorded for `id` out of the index
/// and hands it over, if there is one; the other entries stay.
#[verifier::external_body]
pub(crate) fn forget_order(index: &mut DashMap<String, OrderLocation>, id: &str) -> (taken: Option<
    OrderLocation,
>)
    ensures
        held_locations(*final(index)) == held_locations(*old(index)).remove(id@),
        taken == (if held_locations(*old(index)).contains_key(id@) {
            Some(held_locations(*old(index))[id@])
        } else {
            None::<OrderLocation>
        }),
{
    match index.remove(id) {
        Some(entry) => Some(entry.1),
        None => None,
    }
}

/// `DashMap::len`: the number of locations held.
#[verifier::external_body]
pub(crate) fn count_orders(index: &DashMap<String, OrderLocation>) -> (count: usize)
    ensures
        count == held_locations(*index).dom().len(),
{
    index.len()
}

} // verus!
