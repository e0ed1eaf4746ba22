//! Orders, trades and the result of a matching pass.

use vstd::prelude::*;
use crate::decimal::Decimal;

verus! {

/// The side of the book an order belongs to.
#[derive(Clone, Copy, Debug, PartialEq, Eq, Structural)]
pub enum OrderSide {
    Buy,
    Sell,
}

/// How an order is priced.
#[derive(Clone, Copy, Debug, PartialEq, Eq, Structural)]
pub enum OrderType {
    Limit,
    Market,
}

impl OrderSide {
    /// The side an order of this side trades against.
    pub open spec fn spec_opposite(self) -> OrderSide {
        match self {
            OrderSide::Buy => OrderSide::Sell,
            OrderSide::Sell => OrderSide::Buy,
        }
    }

    #[verifier::when_used_as_spec(spec_opposite)]
    pub fn opposite(self) -> (s: OrderSide)
        ensures
            s == self.spec_opposite(),
    {
        match self {
            OrderSide::Buy => OrderSide::Sell,
            OrderSide::Sell => OrderSide::Buy,
        }
    }
}

/// An order as submitted, together with how much of it has been filled.
#[derive(Debug)]
pub struct Order {
    pub id: String,
    pub user_id: String,
    pub symbol: String,
    pub side: OrderSide,
    pub order_type: OrderType,
    pub price: Decimal,
    pub amount: Decimal,
    pub filled: Decimal,
    pub timestamp: i64,
}

/// The mathematical value of an [`Order`].
pub struct OrderView {
    pub id: Seq<char>,
    pub user_id: Seq<char>,
    pub symbol: Seq<char>,
    pub side: OrderSide,
    pub order_type: OrderType,
    pub price: int,
    pub amount: int,
    pub filled: int,
    pub timestamp: int,
}

impl OrderView {
    /// The quantity still open.
    pub open spec fn remaining(self) -> int {
        self.amount - self.filled
    }

    pub open spec fn is_filled(self) -> bool {
        self.filled >= self.amount
    }

    /// The fill state is within its bounds: `0 <= filled <= amount`, with a
    /// strictly positive amount.
    pub open spec fn well_formed(self) -> bool {
        0 < self.amount && 0 <= self.filled <= self.amount
    }

    /// This order with `quantity` more of it filled.
    pub open spec fn fill(self, quantity: int) -> OrderView {
        OrderView { filled: self.filled + quantity, ..self }
    }
}

impl View for Order {
    type V = OrderView;

    open spec fn view(&self) -> OrderView {
        OrderView {
            id: self.id@,
            user_id: self.user_id@,
            symbol: self.symbol@,
            side: self.side,
            order_type: self.order_type,
            price: self.price@,
            amount: self.amount@,
            filled: self.filled@,
            timestamp: self.timestamp as int,
        }
    }
}

impl Clone for Order {
    fn clone(&self) -> (copy: Self)
        ensures
            copy == *self,
    {
        Order {
            id: self.id.clone(),
            user_id: self.user_id.clone(),
            symbol: self.symbol.clone(),
            side: self.side,
            order_type: self.order_type,
            price: self.price,
            amount: self.amount,
            filled: self.filled,
            timestamp: self.timestamp,
        }
    }
}

impl Order {
    /// The quantity still open: `amount - filled`.
    pub fn remaining(&self) -> (r: Decimal)
        requires
            self@.well_formed(),
        ensures
            r@ == self@.remaining(),
    {
        Decimal::from_units(self.amount.units - self.filled.units)
    }

    /// Whether nothing is left to fill.
    pub fn is_filled(&self) -> (r: bool)
        ensures
            r == self@.is_filled(),
    {
        self.filled.units >= self.amount.units
    }
}

/// The views of a sequence of orders, in the same order.
pub open spec fn order_views(orders: Seq<Order>) -> Seq<OrderView> {
    orders.map_values(|o: Order| o@)
}

/// One execution between a resting order (the maker) and an incoming order
/// (the taker).
#[derive(Debug)]
pub struct Trade {
    pub id: String,
    pub symbol: String,
    pub maker_order_id: String,
    pub taker_order_id: String,
    pub price: Decimal,
    pub amount: Decimal,
    pub taker_side: OrderSide,
    pub timestamp: i64,
}

/// What a trade settles: everything in a [`Trade`] but its identifier and
/// the time it was stamped with.
pub struct Execution {
    pub symbol: Seq<char>,
    pub maker_order_id: Seq<char>,
    pub taker_order_id: Seq<char>,
    pub price: int,
    pub amount: int,
    pub taker_side: OrderSide,
}

impl Trade {
    pub open spec fn execution(&self) -> Execution {
        Execution {
            symbol: self.symbol@,
            maker_order_id: self.maker_order_id@,
            taker_order_id: self.taker_order_id@,
            price: self.price@,
            amount: self.amount@,
            taker_side: self.taker_side,
        }
    }
}

impl Clone for Trade {
    fn clone(&self) -> (copy: Self)
        ensures
            copy == *self,
    {
        Trade {
            id: self.id.clone(),
            symbol: self.symbol.clone(),
            maker_order_id: self.maker_order_id.clone(),
            taker_order_id: self.taker_order_id.clone(),
            price: self.price,
            amount: self.amount,
            taker_side: self.taker_side,
            timestamp: self.timestamp,
        }
    }
}

/// The executions of a sequence of trades, in the same order.
pub open spec fn executions(trades: Seq<Trade>) -> Seq<Execution> {
    trades.map_values(|t: Trade| t.execution())
}

/// What one matching pass produced: the trades, in the order they were
/// executed, and the state of each resting order right after it was hit.
pub struct MatchingResult {
    pub trades: Vec<Trade>,
    pub updated_orders: Vec<Order>,
}

impl MatchingResult {
    pub fn new() -> (r: Self)
        ensures
            r.trades@.len() == 0,
            r.updated_orders@.len() == 0,
    {
        MatchingResult { trades: Vec::new(), updated_orders: Vec::new() }
    }
}

} // verus!
