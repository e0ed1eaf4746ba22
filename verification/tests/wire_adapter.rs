use matching_engine::decimal::Decimal;
use matching_engine::engine_model::InvalidInput;
use matching_engine::types::{MatchingResult, OrderSide, OrderType, Trade};
use matching_engine::wire::{
    decimal_to_text, fills_of, order_from_wire, order_type_from_code, parse_decimal,
    side_from_code,
};

#[test]
fn side_codes() {
    assert_eq!(side_from_code(0), Ok(OrderSide::Buy));
    assert_eq!(side_from_code(1), Ok(OrderSide::Sell));
    assert_eq!(side_from_code(2), Err(InvalidInput::UnknownSide));
    assert_eq!(side_from_code(-1), Err(InvalidInput::UnknownSide));
}

#[test]
fn order_type_codes() {
    assert_eq!(order_type_from_code(0), Ok(OrderType::Limit));
    assert_eq!(order_type_from_code(1), Ok(OrderType::Market));
    assert_eq!(order_type_from_code(2), Err(InvalidInput::UnknownOrderType));
    assert_eq!(order_type_from_code(i32::MIN), Err(InvalidInput::UnknownOrderType));
}

#[test]
fn decimals_are_read_from_text() {
    assert_eq!(parse_decimal("1.5"), Some(Decimal::from_units(150_000_000)));
    assert_eq!(parse_decimal("100"), Some(Decimal::from_units(10_000_000_000)));
    assert_eq!(parse_decimal("-0.00000001"), Some(Decimal::from_units(-1)));
    assert_eq!(parse_decimal("0.10000000000"), Some(Decimal::from_units(10_000_000)));
    assert_eq!(parse_decimal("50000.25"), Some(Decimal::from_units(5_000_025_000_000)));
    assert_eq!(parse_decimal("0"), Some(Decimal::zero()));
}

#[test]
fn unreadable_decimals_are_refused() {
    assert_eq!(parse_decimal(""), None);
    assert_eq!(parse_decimal("abc"), None);
    assert_eq!(parse_decimal("1.2.3"), None);
    assert_eq!(parse_decimal("0.000000001"), None);
    assert_eq!(parse_decimal("92233720369"), None);
    assert_eq!(parse_decimal("79228162514264337593543950336"), None);
}

#[test]
fn decimals_are_written_with_all_fraction_digits() {
    assert_eq!(decimal_to_text(Decimal::from_units(150_000_000)), "1.50000000");
    assert_eq!(decimal_to_text(Decimal::from_units(-1)), "-0.00000001");
    assert_eq!(decimal_to_text(Decimal::zero()), "0.00000000");
    assert_eq!(decimal_to_text(Decimal::from_units(i64::MAX)), "92233720368.54775807");
    assert_eq!(decimal_to_text(Decimal::from_units(i64::MIN)), "-92233720368.54775808");
}

#[test]
fn text_round_trip() {
    for units in [0i64, 1, -1, 150_000_000, 9_999_999_999, i64::MAX, i64::MIN] {
        let number = Decimal::from_units(units);
        assert_eq!(parse_decimal(&decimal_to_text(number)), Some(number));
    }
}

fn request(side: i32, order_type: i32, price: &str, amount: &str) -> Result<matching_engine::types::Order, InvalidInput> {
    order_from_wire(
        "order-1".to_string(),
        "alice".to_string(),
        "BTC-USD".to_string(),
        side,
        order_type,
        price,
        amount,
        1_700_000_000_000,
    )
}

#[test]
fn a_good_request_becomes_an_unfilled_order() {
    let order = request(1, 0, "50000.5", "0.25").unwrap();
    assert_eq!(order.id, "order-1");
    assert_eq!(order.user_id, "alice");
    assert_eq!(order.symbol, "BTC-USD");
    assert_eq!(order.side, OrderSide::Sell);
    assert_eq!(order.order_type, OrderType::Limit);
    assert_eq!(order.price, Decimal::from_units(5_000_050_000_000));
    assert_eq!(order.amount, Decimal::from_units(25_000_000));
    assert_eq!(order.filled, Decimal::zero());
    assert_eq!(order.timestamp, 1_700_000_000_000);
}

#[test]
fn bad_requests_are_rejected_in_order() {
    assert_eq!(request(2, 9, "x", "y").unwrap_err(), InvalidInput::UnknownSide);
    assert_eq!(request(0, 9, "x", "y").unwrap_err(), InvalidInput::UnknownOrderType);
    assert_eq!(request(0, 1, "x", "y").unwrap_err(), InvalidInput::MalformedPrice);
    assert_eq!(request(0, 1, "0", "y").unwrap_err(), InvalidInput::MalformedAmount);
    assert_eq!(request(0, 1, "0", "0.000000001").unwrap_err(), InvalidInput::MalformedAmount);
    assert!(request(0, 1, "0", "3").is_ok());
}

#[test]
fn fills_report_each_trade() {
    let trade = |id: &str, price: i64, amount: i64, timestamp: i64| Trade {
        id: id.to_string(),
        symbol: "BTC-USD".to_string(),
        maker_order_id: "m".to_string(),
        taker_order_id: "t".to_string(),
        price: Decimal::from_units(price),
        amount: Decimal::from_units(amount),
        taker_side: OrderSide::Buy,
        timestamp,
    };
    let mut result = MatchingResult::new();
    assert!(fills_of(&result).is_empty());
    result.trades.push(trade("t1", 10_000_000_000, 200_000_000, 11));
    result.trades.push(trade("t2", 10_100_000_000, 50_000_000, 12));
    let fills = fills_of(&result);
    assert_eq!(fills.len(), 2);
    assert_eq!(fills[0].trade_id, "t1");
    assert_eq!(fills[0].price, "100.00000000");
    assert_eq!(fills[0].amount, "2.00000000");
    assert_eq!(fills[0].timestamp, 11);
    assert_eq!(fills[1].trade_id, "t2");
    assert_eq!(fills[1].price, "101.00000000");
    assert_eq!(fills[1].amount, "0.50000000");
    assert_eq!(fills[1].timestamp, 12);
}
