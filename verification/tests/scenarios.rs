use matching_engine::decimal::Decimal;
use matching_engine::engine::MatchingEngine;
use matching_engine::types::{Order, OrderSide, OrderType};

fn dec(whole: i64) -> Decimal {
    Decimal::from_int(whole).unwrap()
}

fn order(id: &str, side: OrderSide, order_type: OrderType, price: i64, amount: i64) -> Order {
    Order {
        id: id.to_string(),
        user_id: "user".to_string(),
        symbol: "BTC-USD".to_string(),
        side,
        order_type,
        price: dec(price),
        amount: dec(amount),
        filled: Decimal::zero(),
        timestamp: 0,
    }
}

fn limit(id: &str, side: OrderSide, price: i64, amount: i64) -> Order {
    order(id, side, OrderType::Limit, price, amount)
}

fn market(id: &str, side: OrderSide, amount: i64) -> Order {
    order(id, side, OrderType::Market, 0, amount)
}

#[test]
fn price_time_priority() {
    let mut engine = MatchingEngine::new();
    assert!(engine.place_order(limit("A", OrderSide::Sell, 100, 10)).unwrap().trades.is_empty());
    assert!(engine.place_order(limit("B", OrderSide::Sell, 100, 10)).unwrap().trades.is_empty());
    let result = engine.place_order(limit("T", OrderSide::Buy, 100, 10)).unwrap();
    assert_eq!(result.trades.len(), 1);
    assert_eq!(result.trades[0].maker_order_id, "A");
    assert_eq!(result.trades[0].taker_order_id, "T");
    assert_eq!(result.trades[0].price, dec(100));
    assert_eq!(result.trades[0].amount, dec(10));
    assert_eq!(result.trades[0].taker_side, OrderSide::Buy);
    let book = engine.get_order_book("BTC-USD", 10).unwrap();
    assert!(book.bids.is_empty());
    assert_eq!(book.asks.len(), 1);
    assert_eq!(book.asks[0].price, dec(100));
    assert_eq!(book.asks[0].amount, dec(10).units as i128);
    assert_eq!(book.asks[0].order_count, 1);
    let left = engine.cancel_order("B").unwrap();
    assert_eq!(left.id, "B");
    assert_eq!(left.filled, Decimal::zero());
    assert!(engine.cancel_order("A").is_none());
}

#[test]
fn maker_price_wins() {
    let mut engine = MatchingEngine::new();
    engine.place_order(limit("S", OrderSide::Sell, 100, 5)).unwrap();
    let result = engine.place_order(limit("T", OrderSide::Buy, 105, 5)).unwrap();
    assert_eq!(result.trades.len(), 1);
    assert_eq!(result.trades[0].price, dec(100));
    assert_eq!(result.trades[0].amount, dec(5));
    assert_eq!(result.updated_orders.len(), 1);
    assert!(result.updated_orders[0].is_filled());
    let book = engine.get_order_book("BTC-USD", 10).unwrap();
    assert!(book.bids.is_empty());
    assert!(book.asks.is_empty());
    assert_eq!(engine.get_stats().total_orders, 0);
}

#[test]
fn partial_residual_rests() {
    let mut engine = MatchingEngine::new();
    engine.place_order(limit("S", OrderSide::Sell, 100, 3)).unwrap();
    let result = engine.place_order(limit("T", OrderSide::Buy, 100, 10)).unwrap();
    assert_eq!(result.trades.len(), 1);
    assert_eq!(result.trades[0].price, dec(100));
    assert_eq!(result.trades[0].amount, dec(3));
    let book = engine.get_order_book("BTC-USD", 10).unwrap();
    assert!(book.asks.is_empty());
    assert_eq!(book.bids.len(), 1);
    assert_eq!(book.bids[0].price, dec(100));
    assert_eq!(book.bids[0].amount, dec(7).units as i128);
    let rested = engine.cancel_order("T").unwrap();
    assert_eq!(rested.filled, dec(3));
    assert_eq!(rested.remaining(), dec(7));
}

#[test]
fn market_sweeps_multiple_levels() {
    let mut engine = MatchingEngine::new();
    engine.place_order(limit("S1", OrderSide::Sell, 100, 2)).unwrap();
    engine.place_order(limit("S2", OrderSide::Sell, 101, 3)).unwrap();
    engine.place_order(limit("S3", OrderSide::Sell, 102, 10)).unwrap();
    let result = engine.place_order(market("T", OrderSide::Buy, 6)).unwrap();
    let fills: Vec<(Decimal, Decimal)> = result.trades.iter().map(|t| (t.amount, t.price)).collect();
    assert_eq!(fills, vec![(dec(2), dec(100)), (dec(3), dec(101)), (dec(1), dec(102))]);
    let book = engine.get_order_book("BTC-USD", 10).unwrap();
    assert_eq!(book.asks.len(), 1);
    assert_eq!(book.asks[0].price, dec(102));
    assert_eq!(book.asks[0].amount, dec(9).units as i128);
    assert!(book.bids.is_empty());
    assert_eq!(engine.get_stats().total_orders, 1);
}

#[test]
fn market_exhausts_liquidity() {
    let mut engine = MatchingEngine::new();
    let result = engine.place_order(market("T", OrderSide::Buy, 5)).unwrap();
    assert!(result.trades.is_empty());
    assert!(result.updated_orders.is_empty());
    let book = engine.get_order_book("BTC-USD", 10).unwrap();
    assert!(book.bids.is_empty());
    assert!(book.asks.is_empty());
    assert_eq!(engine.get_stats().total_orders, 0);
    assert!(engine.cancel_order("T").is_none());
}

#[test]
fn cancel_mid_book() {
    let mut engine = MatchingEngine::new();
    engine.place_order(limit("A", OrderSide::Sell, 100, 10)).unwrap();
    engine.place_order(limit("B", OrderSide::Sell, 100, 10)).unwrap();
    engine.place_order(limit("C", OrderSide::Sell, 100, 10)).unwrap();
    let cancelled = engine.cancel_order("B").unwrap();
    assert_eq!(cancelled.id, "B");
    assert_eq!(cancelled.filled, Decimal::zero());
    let result = engine.place_order(limit("T", OrderSide::Buy, 100, 30)).unwrap();
    let makers: Vec<&str> = result.trades.iter().map(|t| t.maker_order_id.as_str()).collect();
    assert_eq!(makers, vec!["A", "C"]);
    let book = engine.get_order_book("BTC-USD", 10).unwrap();
    assert!(book.asks.is_empty());
    assert_eq!(book.bids[0].amount, dec(10).units as i128);
}
