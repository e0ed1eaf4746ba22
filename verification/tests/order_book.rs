use matching_engine::decimal::Decimal;
use matching_engine::matching::{execute_fill, taker_crosses};
use matching_engine::order_book::{LevelSnapshot, OrderBook};
use matching_engine::price_level::PriceLevel;
use matching_engine::stamp::{Stamper, ID_LENGTH};
use matching_engine::types::{MatchingResult, Order, OrderSide, OrderType};

fn units(whole: i64) -> Decimal {
    Decimal::from_int(whole).unwrap()
}

fn resting(id: &str, side: OrderSide, price: i64, amount: i64) -> Order {
    Order {
        id: id.to_string(),
        user_id: "user".to_string(),
        symbol: "ETH-USD".to_string(),
        side,
        order_type: OrderType::Limit,
        price: units(price),
        amount: units(amount),
        filled: Decimal::zero(),
        timestamp: 7,
    }
}

fn taker(id: &str, side: OrderSide, order_type: OrderType, price: i64, amount: i64) -> Order {
    Order { order_type, ..resting(id, side, price, amount) }
}

fn level(price: i64, amount: i64, order_count: usize) -> LevelSnapshot {
    LevelSnapshot { price: units(price), amount: units(amount).units as i128, order_count }
}

#[test]
fn remaining_and_is_filled() {
    let mut order = resting("a", OrderSide::Buy, 10, 4);
    assert_eq!(order.remaining(), units(4));
    assert!(!order.is_filled());
    order.filled = units(3);
    assert_eq!(order.remaining(), units(1));
    assert!(!order.is_filled());
    order.filled = units(4);
    assert_eq!(order.remaining(), Decimal::zero());
    assert!(order.is_filled());
}

#[test]
fn opposite_sides() {
    assert_eq!(OrderSide::Buy.opposite(), OrderSide::Sell);
    assert_eq!(OrderSide::Sell.opposite(), OrderSide::Buy);
}

#[test]
fn a_new_result_is_empty() {
    let result = MatchingResult::new();
    assert!(result.trades.is_empty());
    assert!(result.updated_orders.is_empty());
}

#[test]
fn crossing_rules() {
    let buy = taker("t", OrderSide::Buy, OrderType::Limit, 100, 1);
    assert!(taker_crosses(&buy, units(99)));
    assert!(taker_crosses(&buy, units(100)));
    assert!(!taker_crosses(&buy, units(101)));
    let sell = taker("t", OrderSide::Sell, OrderType::Limit, 100, 1);
    assert!(!taker_crosses(&sell, units(99)));
    assert!(taker_crosses(&sell, units(100)));
    assert!(taker_crosses(&sell, units(101)));
    let market = taker("t", OrderSide::Buy, OrderType::Market, 0, 1);
    assert!(taker_crosses(&market, units(1_000_000)));
    let market_sell = taker("t", OrderSide::Sell, OrderType::Market, 0, 1);
    assert!(taker_crosses(&market_sell, Decimal::from_units(1)));
}

#[test]
fn one_fill_moves_the_same_quantity_on_both_sides() {
    let mut incoming = taker("t", OrderSide::Buy, OrderType::Limit, 105, 10);
    incoming.filled = units(2);
    let mut maker = resting("m", OrderSide::Sell, 100, 5);
    maker.filled = units(1);
    let trade = execute_fill(&mut incoming, &mut maker, "trade-9".to_string(), 1234);
    assert_eq!(trade.id, "trade-9");
    assert_eq!(trade.timestamp, 1234);
    assert_eq!(trade.symbol, "ETH-USD");
    assert_eq!(trade.maker_order_id, "m");
    assert_eq!(trade.taker_order_id, "t");
    assert_eq!(trade.price, units(100));
    assert_eq!(trade.amount, units(4));
    assert_eq!(trade.taker_side, OrderSide::Buy);
    assert_eq!(incoming.filled, units(6));
    assert_eq!(maker.filled, units(5));
    assert!(maker.is_filled());
    assert!(!incoming.is_filled());
}

#[test]
fn one_fill_is_bounded_by_the_taker() {
    let mut incoming = taker("t", OrderSide::Sell, OrderType::Market, 0, 3);
    let mut maker = resting("m", OrderSide::Buy, 50, 8);
    let trade = execute_fill(&mut incoming, &mut maker, "x".to_string(), 0);
    assert_eq!(trade.amount, units(3));
    assert_eq!(trade.price, units(50));
    assert_eq!(trade.taker_side, OrderSide::Sell);
    assert!(incoming.is_filled());
    assert_eq!(maker.remaining(), units(5));
}

#[test]
fn price_level_keeps_arrival_order() {
    let mut queue = PriceLevel::new(units(100));
    assert_eq!(queue.len(), 0);
    assert_eq!(queue.total_amount(), 0);
    queue.add_order(resting("a", OrderSide::Sell, 100, 1));
    queue.add_order(resting("b", OrderSide::Sell, 100, 2));
    queue.add_order(resting("c", OrderSide::Sell, 100, 3));
    assert_eq!(queue.price, units(100));
    assert_eq!(queue.len(), 3);
    assert_eq!(queue.total_amount(), units(6).units as i128);
    let ids: Vec<&str> = queue.orders.iter().map(|o| o.id.as_str()).collect();
    assert_eq!(ids, vec!["a", "b", "c"]);
    let removed = queue.remove_order("b").unwrap();
    assert_eq!(removed.id, "b");
    assert_eq!(removed.amount, units(2));
    assert!(queue.remove_order("b").is_none());
    assert!(queue.remove_order("zzz").is_none());
    let ids: Vec<&str> = queue.orders.iter().map(|o| o.id.as_str()).collect();
    assert_eq!(ids, vec!["a", "c"]);
    assert_eq!(queue.total_amount(), units(4).units as i128);
}

#[test]
fn price_level_removes_the_first_of_equal_identifiers() {
    let mut queue = PriceLevel::new(units(5));
    queue.add_order(resting("x", OrderSide::Buy, 5, 1));
    queue.add_order(resting("y", OrderSide::Buy, 5, 2));
    queue.add_order(resting("x", OrderSide::Buy, 5, 3));
    let removed = queue.remove_order("x").unwrap();
    assert_eq!(removed.amount, units(1));
    let amounts: Vec<Decimal> = queue.orders.iter().map(|o| o.amount).collect();
    assert_eq!(amounts, vec![units(2), units(3)]);
}

#[test]
fn price_level_total_counts_what_is_open() {
    let mut queue = PriceLevel::new(units(5));
    let mut partly = resting("x", OrderSide::Buy, 5, 10);
    partly.filled = units(4);
    queue.add_order(partly);
    queue.add_order(resting("y", OrderSide::Buy, 5, 1));
    assert_eq!(queue.total_amount(), units(7).units as i128);
}

#[test]
fn total_of_large_amounts_does_not_overflow() {
    let mut queue = PriceLevel::new(Decimal::from_units(1));
    for i in 0..4 {
        let mut order = resting("big", OrderSide::Sell, 1, 1);
        order.id = format!("big-{}", i);
        order.price = Decimal::from_units(1);
        order.amount = Decimal::from_units(i64::MAX);
        queue.add_order(order);
    }
    assert_eq!(queue.total_amount(), 4 * (i64::MAX as i128));
}

#[test]
fn an_empty_book_has_no_best_prices() {
    let book = OrderBook::new("ETH-USD".to_string());
    assert_eq!(book.symbol(), "ETH-USD");
    assert_eq!(book.best_bid(), None);
    assert_eq!(book.best_ask(), None);
    assert_eq!(book.spread(), None);
    assert_eq!(book.mid_price(), None);
    let snapshot = book.snapshot(5);
    assert_eq!(snapshot.symbol, "ETH-USD");
    assert!(snapshot.bids.is_empty());
    assert!(snapshot.asks.is_empty());
}

fn sample_book() -> OrderBook {
    let mut book = OrderBook::new("ETH-USD".to_string());
    book.add_order(resting("b1", OrderSide::Buy, 98, 1));
    book.add_order(resting("b2", OrderSide::Buy, 99, 2));
    book.add_order(resting("b3", OrderSide::Buy, 97, 3));
    book.add_order(resting("b4", OrderSide::Buy, 99, 4));
    book.add_order(resting("a1", OrderSide::Sell, 103, 5));
    book.add_order(resting("a2", OrderSide::Sell, 102, 6));
    book.add_order(resting("a3", OrderSide::Sell, 104, 7));
    book.add_order(resting("a4", OrderSide::Sell, 102, 8));
    book
}

#[test]
fn best_prices_spread_and_mid() {
    let book = sample_book();
    assert_eq!(book.best_bid(), Some(units(99)));
    assert_eq!(book.best_ask(), Some(units(102)));
    assert_eq!(book.spread(), Some(units(3)));
    assert_eq!(book.mid_price(), Some(Decimal::from_units(10_050_000_000)));
}

#[test]
fn one_sided_book_has_no_spread() {
    let mut book = OrderBook::new("ETH-USD".to_string());
    book.add_order(resting("b1", OrderSide::Buy, 98, 1));
    assert_eq!(book.best_bid(), Some(units(98)));
    assert_eq!(book.best_ask(), None);
    assert_eq!(book.spread(), None);
    assert_eq!(book.mid_price(), None);
}

#[test]
fn mid_price_between_units_rounds_down() {
    let mut book = OrderBook::new("ETH-USD".to_string());
    let mut bid = resting("b", OrderSide::Buy, 1, 1);
    bid.price = Decimal::from_units(3);
    let mut ask = resting("a", OrderSide::Sell, 1, 1);
    ask.price = Decimal::from_units(4);
    book.add_order(bid);
    book.add_order(ask);
    assert_eq!(book.mid_price(), Some(Decimal::from_units(3)));
    assert_eq!(book.spread(), Some(Decimal::from_units(1)));
}

#[test]
fn snapshot_lists_the_best_levels_first() {
    let book = sample_book();
    let all = book.snapshot(10);
    assert_eq!(all.bids, vec![level(99, 6, 2), level(98, 1, 1), level(97, 3, 1)]);
    assert_eq!(all.asks, vec![level(102, 14, 2), level(103, 5, 1), level(104, 7, 1)]);
    let top = book.snapshot(2);
    assert_eq!(top.bids, vec![level(99, 6, 2), level(98, 1, 1)]);
    assert_eq!(top.asks, vec![level(102, 14, 2), level(103, 5, 1)]);
    let none = book.snapshot(0);
    assert!(none.bids.is_empty());
    assert!(none.asks.is_empty());
    let exact = book.snapshot(3);
    assert_eq!(exact.bids.len(), 3);
    assert_eq!(exact.asks.len(), 3);
}

#[test]
fn a_snapshot_is_a_value_of_its_own() {
    let mut book = sample_book();
    let before = book.snapshot(10);
    let again = book.snapshot(10);
    assert_eq!(before.bids, again.bids);
    assert_eq!(before.asks, again.asks);
    book.remove_order("a2", OrderSide::Sell, units(102)).unwrap();
    book.add_order(resting("b9", OrderSide::Buy, 100, 9));
    assert_eq!(before.asks, vec![level(102, 14, 2), level(103, 5, 1), level(104, 7, 1)]);
    assert_eq!(before.bids[0], level(99, 6, 2));
    let after = book.snapshot(10);
    assert_eq!(after.asks[0], level(102, 8, 1));
    assert_eq!(after.bids[0], level(100, 9, 1));
}

#[test]
fn removing_the_last_order_drops_the_level() {
    let mut book = sample_book();
    let removed = book.remove_order("a1", OrderSide::Sell, units(103)).unwrap();
    assert_eq!(removed.id, "a1");
    let asks = book.snapshot(10).asks;
    assert_eq!(asks, vec![level(102, 14, 2), level(104, 7, 1)]);
    book.remove_order("a2", OrderSide::Sell, units(102)).unwrap();
    book.remove_order("a4", OrderSide::Sell, units(102)).unwrap();
    assert_eq!(book.best_ask(), Some(units(104)));
}

#[test]
fn removing_needs_the_right_side_and_price() {
    let mut book = sample_book();
    assert!(book.remove_order("a1", OrderSide::Buy, units(103)).is_none());
    assert!(book.remove_order("a1", OrderSide::Sell, units(102)).is_none());
    assert!(book.remove_order("a1", OrderSide::Sell, units(500)).is_none());
    assert!(book.remove_order("nobody", OrderSide::Sell, units(103)).is_none());
    assert_eq!(book.snapshot(10).asks.len(), 3);
    assert_eq!(book.snapshot(10).bids.len(), 3);
    assert!(book.remove_order("a1", OrderSide::Sell, units(103)).is_some());
}

#[test]
fn a_sell_walks_the_bids_from_the_highest_down() {
    let mut book = sample_book();
    let mut incoming = taker("t", OrderSide::Sell, OrderType::Market, 0, 8);
    let mut stamper = Stamper::reproducible(0, 0);
    let result = book.match_order(&mut incoming, &mut stamper);
    let fills: Vec<(&str, Decimal, Decimal)> =
        result.trades.iter().map(|t| (t.maker_order_id.as_str(), t.price, t.amount)).collect();
    assert_eq!(
        fills,
        vec![
            ("b2", units(99), units(2)),
            ("b4", units(99), units(4)),
            ("b1", units(98), units(1)),
            ("b3", units(97), units(1)),
        ]
    );
    assert!(incoming.is_filled());
    assert_eq!(book.snapshot(10).bids, vec![level(97, 2, 1)]);
    assert_eq!(book.snapshot(10).asks.len(), 3);
    let states: Vec<(&str, Decimal)> =
        result.updated_orders.iter().map(|o| (o.id.as_str(), o.filled)).collect();
    assert_eq!(
        states,
        vec![("b2", units(2)), ("b4", units(4)), ("b1", units(1)), ("b3", units(1))]
    );
}

#[test]
fn a_limit_buy_stops_at_its_limit() {
    let mut book = sample_book();
    let mut incoming = taker("t", OrderSide::Buy, OrderType::Limit, 103, 100);
    let mut stamper = Stamper::reproducible(0, 0);
    let result = book.match_order(&mut incoming, &mut stamper);
    let fills: Vec<(&str, Decimal, Decimal)> =
        result.trades.iter().map(|t| (t.maker_order_id.as_str(), t.price, t.amount)).collect();
    assert_eq!(
        fills,
        vec![
            ("a2", units(102), units(6)),
            ("a4", units(102), units(8)),
            ("a1", units(103), units(5)),
        ]
    );
    assert_eq!(incoming.filled, units(19));
    assert_eq!(book.best_ask(), Some(units(104)));
    assert_eq!(book.best_bid(), Some(units(99)));
}

#[test]
fn a_taker_that_crosses_nothing_changes_nothing() {
    let mut book = sample_book();
    let mut incoming = taker("t", OrderSide::Buy, OrderType::Limit, 101, 5);
    let mut stamper = Stamper::reproducible(5, 0);
    let result = book.match_order(&mut incoming, &mut stamper);
    assert!(result.trades.is_empty());
    assert!(result.updated_orders.is_empty());
    assert_eq!(incoming.filled, Decimal::zero());
    assert_eq!(stamper, Stamper::reproducible(5, 0));
    assert_eq!(book.snapshot(10).asks.len(), 3);
}

#[test]
fn trades_are_stamped_by_the_stamper() {
    let mut book = sample_book();
    let mut incoming = taker("t", OrderSide::Buy, OrderType::Market, 0, 15);
    let mut stamper = Stamper::reproducible(41, 999);
    let result = book.match_order(&mut incoming, &mut stamper);
    assert_eq!(result.trades.len(), 3);
    for (k, trade) in result.trades.iter().enumerate() {
        assert_eq!(trade.id.len(), ID_LENGTH);
        assert_eq!(trade.id, uuid::Uuid::from_u128(41 + k as u128).to_string());
        assert_eq!(trade.timestamp, 999);
    }
    assert_eq!(result.trades[0].id, "00000000-0000-0000-0000-000000000029");
    assert_eq!(stamper, Stamper::reproducible(44, 999));
}

#[test]
fn the_sequence_of_identifiers_wraps_around() {
    let mut book = sample_book();
    let mut incoming = taker("t", OrderSide::Buy, OrderType::Market, 0, 15);
    let mut stamper = Stamper::reproducible(u128::MAX, 1);
    let result = book.match_order(&mut incoming, &mut stamper);
    assert_eq!(result.trades[0].id, "ffffffff-ffff-ffff-ffff-ffffffffffff");
    assert_eq!(result.trades[1].id, "00000000-0000-0000-0000-000000000000");
    assert_eq!(result.trades[2].id, "00000000-0000-0000-0000-000000000001");
    assert_eq!(stamper, Stamper::reproducible(2, 1));
}

#[test]
fn system_stamps_are_fresh() {
    let mut book = sample_book();
    let mut incoming = taker("t", OrderSide::Buy, OrderType::Market, 0, 15);
    let mut stamper = Stamper::system();
    let result = book.match_order(&mut incoming, &mut stamper);
    assert_eq!(result.trades.len(), 3);
    assert_ne!(result.trades[0].id, result.trades[1].id);
    assert_ne!(result.trades[1].id, result.trades[2].id);
    for trade in result.trades.iter() {
        assert_eq!(trade.id.len(), ID_LENGTH);
        let parsed = uuid::Uuid::parse_str(&trade.id).unwrap();
        assert_eq!(parsed.get_version_num(), 4);
        assert!(trade.timestamp > 1_600_000_000_000);
    }
    assert_eq!(stamper, Stamper::system());
}

#[test]
fn test_can_match_limit_orders() {
    let seller_at_99 = units(99);
    assert!(taker_crosses(&taker("buy", OrderSide::Buy, OrderType::Limit, 100, 1), seller_at_99));
    assert!(!taker_crosses(&taker("buy", OrderSide::Buy, OrderType::Limit, 98, 1), seller_at_99));
}

#[test]
fn test_mid_price_calculation() {
    let mid = units(100).midpoint(units(102));
    assert_eq!(mid, units(101));
}
