//! Between the wire and the engine: side and order type codes, decimal
//! numbers written as text, and the fills reported for a placement.

use std::str::FromStr;
use vstd::prelude::*;
use crate::decimal::{exact_units, Decimal, DecimalParts, FRACTION_DIGITS};
use crate::engine_model::InvalidInput;
use crate::types::{MatchingResult, Order, OrderSide, OrderType, OrderView, Trade};

verus! {

/// The mantissa and scale that `rust_decimal` reads from a text, if it reads
/// the text as a decimal number at all.
pub uninterp spec fn parsed_parts(text: Seq<char>) -> Option<DecimalParts>;

/// The text that `rust_decimal` writes for a number of units, taken as a
/// decimal with eight fractional digits.
pub uninterp spec fn units_text(units: int) -> Seq<char>;

/// `rust_decimal::Decimal::from_str`, and of the number that was read its
/// `mantissa` and `scale`. `None` means that the text is no decimal number
/// to `rust_decimal`.
#[verifier::external_body]
fn parse_parts(text: &str) -> (parts: Option<DecimalParts>)
    ensures
        parts == parsed_parts(text@),
{
    match rust_decimal::Decimal::from_str(text) {
        Ok(number) => Some(DecimalParts { mantissa: number.mantissa(), scale: number.scale() }),
        Err(_) => None,
    }
}

/// `to_string` of the `rust_decimal::Decimal` that `Decimal::new` makes of
/// `units` with scale eight.
#[verifier::external_body]
fn format_units(units: i64) -> (text: String)
    ensures
        text@ == units_text(units as int),
{
    rust_decimal::Decimal::new(units, FRACTION_DIGITS).to_string()
}

/// The side that a wire code stands for: 0 is buy, 1 is sell.
pub open spec fn side_of_code(code: i32) -> Option<OrderSide> {
    if code == 0 {
        Some(OrderSide::Buy)
    } else if code == 1 {
        Some(OrderSide::Sell)
    } else {
        None
    }
}

/// The order type that a wire code stands for: 0 is limit, 1 is market.
pub open spec fn order_type_of_code(code: i32) -> Option<OrderType> {
    if code == 0 {
        Some(OrderType::Limit)
    } else if code == 1 {
        Some(OrderType::Market)
    } else {
        None
    }
}

/// The decimal that a text stands for: the number that `rust_decimal` reads
/// from it, if that is a whole number of units within range.
pub open spec fn decimal_of_text(text: Seq<char>) -> Option<int> {
    match parsed_parts(text) {
        Some(parts) => exact_units(parts.mantissa as int, parts.scale as nat),
        None => None,
    }
}

/// The side for a wire code; any code but 0 and 1 is rejected.
pub fn side_from_code(code: i32) -> (side: Result<OrderSide, InvalidInput>)
    ensures
        (match side_of_code(code) {
            Some(known) => side == Ok::<OrderSide, InvalidInput>(known),
            None => side == Err::<OrderSide, InvalidInput>(InvalidInput::UnknownSide),
        }),
{
    if code == 0 {
        Ok(OrderSide::Buy)
    } else if code == 1 {
        Ok(OrderSide::Sell)
    } else {
        Err(InvalidInput::UnknownSide)
    }
}

/// The order type for a wire code; any code but 0 and 1 is rejected.
pub fn order_type_from_code(code: i32) -> (order_type: Result<OrderType, InvalidInput>)
    ensures
        (match order_type_of_code(code) {
            Some(known) => order_type == Ok::<OrderType, InvalidInput>(known),
            None => order_type == Err::<OrderType, InvalidInput>(InvalidInput::UnknownOrderType),
        }),
{
    if code == 0 {
        Ok(OrderType::Limit)
    } else if code == 1 {
        Ok(OrderType::Market)
    } else {
        Err(InvalidInput::UnknownOrderType)
    }
}

/// Reads a decimal number from its text. `None` if the text is no decimal
/// number, has a digit that is not zero beyond the eighth fractional digit,
/// or is out of range.
pub fn parse_decimal(text: &str) -> (number: Option<Decimal>)
    ensures
        (match decimal_of_text(text@) {
            Some(units) => number matches Some(d) && d@ == units,
            None => number is None,
        }),
{
    match parse_parts(text) {
        Some(parts) => Decimal::from_parts(parts.mantissa, parts.scale),
        None => None,
    }
}

/// Writes a decimal number as text, with all eight fractional digits.
pub fn decimal_to_text(number: Decimal) -> (text: String)
    ensures
        text@ == units_text(number@),
{
    format_units(number.units)
}

/// Why a request is turned away before it reaches the engine, if it is. The
/// tests are made in this order: side, order type, price, amount.
pub open spec fn wire_rejection(
    side: i32,
    order_type: i32,
    price: Seq<char>,
    amount: Seq<char>,
) -> Option<InvalidInput> {
    if side_of_code(side) is None {
        Some(InvalidInput::UnknownSide)
    } else if order_type_of_code(order_type) is None {
        Some(InvalidInput::UnknownOrderType)
    } else if decimal_of_text(price) is None {
        Some(InvalidInput::MalformedPrice)
    } else if decimal_of_text(amount) is None {
        Some(InvalidInput::MalformedAmount)
    } else {
        None
    }
}

/// Builds the order that a request asks for. The order starts unfilled. A
/// request with an unknown side or order type code, or with a price or an
/// amount that cannot be read, is rejected.
pub fn order_from_wire(
    order_id: String,
    user_id: String,
    symbol: String,
    side: i32,
    order_type: i32,
    price: &str,
    amount: &str,
    timestamp: i64,
) -> (order: Result<Order, InvalidInput>)
    ensures
        (match wire_rejection(side, order_type, price@, amount@) {
            Some(reason) => order matches Err(why) && why == reason,
            None => order matches Ok(built) && built@ == (OrderView {
                id: order_id@,
                user_id: user_id@,
                symbol: symbol@,
                side: side_of_code(side).unwrap(),
                order_type: order_type_of_code(order_type).unwrap(),
                price: decimal_of_text(price@).unwrap(),
                amount: decimal_of_text(amount@).unwrap(),
                filled: 0,
                timestamp: timestamp as int,
            }),
        }),
{
    let side = match side_from_code(side) {
        Ok(side) => side,
        Err(reason) => {
            return Err(reason);
        },
    };
    let order_type = match order_type_from_code(order_type) {
        Ok(order_type) => order_type,
        Err(reason) => {
            return Err(reason);
        },
    };
    let price = match parse_decimal(price) {
        Some(price) => price,
        None => {
            return Err(InvalidInput::MalformedPrice);
        },
    };
    let amount = match parse_decimal(amount) {
        Some(amount) => amount,
        None => {
            return Err(InvalidInput::MalformedAmount);
        },
    };
    Ok(
        Order {
            id: order_id,
            user_id,
            symbol,
            side,
            order_type,
            price,
            amount,
            filled: Decimal::zero(),
            timestamp,
        },
    )
}

/// What is reported of one trade: its identifier, its price and amount as
/// text, and its time.
#[derive(Debug)]
pub struct Fill {
    pub trade_id: String,
    pub price: String,
    pub amount: String,
    pub timestamp: i64,
}

impl Fill {
    /// Whether this fill reports `trade`.
    pub open spec fn reports(&self, trade: Trade) -> bool {
        &&& self.trade_id@ == trade.id@
        &&& self.price@ == units_text(trade.price@)
        &&& self.amount@ == units_text(trade.amount@)
        &&& self.timestamp == trade.timestamp
    }
}

/// The fills that report the trades of a placement, one for each trade and
/// in the same order.
pub fn fills_of(result: &MatchingResult) -> (fills: Vec<Fill>)
    ensures
        fills@.len() == result.trades@.len(),
        forall|i: int| 0 <= i < fills@.len() ==> (#[trigger] fills@[i]).reports(result.trades@[i]),
{
    let mut fills: Vec<Fill> = Vec::new();
    let mut i: usize = 0;
    while i < result.trades.len()
        invariant
            0 <= i <= result.trades@.len(),
            fills@.len() == i,
            forall|j: int| 0 <= j < i ==> (#[trigger] fills@[j]).reports(result.trades@[j]),
        decreases result.trades@.len() - i,
    {
        let trade = &result.trades[i];
        fills.push(
            Fill {
                trade_id: trade.id.clone(),
                price: decimal_to_text(trade.price),
                amount: decimal_to_text(trade.amount),
                timestamp: trade.timestamp,
            },
        );
        i = i + 1;
    }
    fills
}

} // verus!
