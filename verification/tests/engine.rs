use matching_engine::decimal::Decimal;
use matching_engine::engine::{EngineStats, MatchingEngine};
use matching_engine::engine_model::InvalidInput;
use matching_engine::order_book::LevelSnapshot;
use matching_engine::stamp::{Clock, Stamper};
use matching_engine::types::{Order, OrderSide, OrderType, Trade};

fn whole(n: i64) -> Decimal {
    Decimal::from_int(n).unwrap()
}

fn make(id: &str, symbol: &str, side: OrderSide, order_type: OrderType, price: i64, amount: i64) -> Order {
    Order {
        id: id.to_string(),
        user_id: "user".to_string(),
        symbol: symbol.to_string(),
        side,
        order_type,
        price: whole(price),
        amount: whole(amount),
        filled: Decimal::zero(),
        timestamp: 1,
    }
}

fn buy(id: &str, price: i64, amount: i64) -> Order {
    make(id, "BTC-USD", OrderSide::Buy, OrderType::Limit, price, amount)
}

fn sell(id: &str, price: i64, amount: i64) -> Order {
    make(id, "BTC-USD", OrderSide::Sell, OrderType::Limit, price, amount)
}

fn summary(price: i64, amount: i64, order_count: usize) -> LevelSnapshot {
    LevelSnapshot { price: whole(price), amount: whole(amount).units as i128, order_count }
}

fn key(trade: &Trade) -> (String, String, String, String, Decimal, Decimal, OrderSide, i64) {
    (
        trade.id.clone(),
        trade.symbol.clone(),
        trade.maker_order_id.clone(),
        trade.taker_order_id.clone(),
        trade.price,
        trade.amount,
        trade.taker_side,
        trade.timestamp,
    )
}

fn volume(engine: &MatchingEngine, symbol: &str) -> i128 {
    let book = engine.get_order_book(symbol, usize::MAX).unwrap();
    book.bids.iter().chain(book.asks.iter()).map(|l| l.amount).sum()
}

#[test]
fn a_new_engine_is_empty() {
    let engine = MatchingEngine::new();
    assert_eq!(engine.get_stats(), EngineStats { total_orders: 0, active_symbols: 0 });
    assert!(engine.get_order_book("BTC-USD", 5).is_none());
}

#[test]
fn non_positive_amount_is_rejected() {
    let mut engine = MatchingEngine::new();
    let outcome = engine.place_order(buy("a", 100, 0));
    assert_eq!(outcome.err(), Some(InvalidInput::NonPositiveAmount));
    let mut negative = buy("a", 100, 1);
    negative.amount = Decimal::from_units(-1);
    assert_eq!(engine.place_order(negative).err(), Some(InvalidInput::NonPositiveAmount));
    assert_eq!(engine.get_stats(), EngineStats { total_orders: 0, active_symbols: 0 });
}

#[test]
fn filled_out_of_range_is_rejected() {
    let mut engine = MatchingEngine::new();
    let mut over = buy("a", 100, 5);
    over.filled = whole(6);
    assert_eq!(engine.place_order(over).err(), Some(InvalidInput::FilledOutOfRange));
    let mut under = buy("a", 100, 5);
    under.filled = Decimal::from_units(-1);
    assert_eq!(engine.place_order(under).err(), Some(InvalidInput::FilledOutOfRange));
    assert!(engine.get_order_book("BTC-USD", 5).is_none());
}

#[test]
fn limit_without_positive_price_is_rejected() {
    let mut engine = MatchingEngine::new();
    assert_eq!(engine.place_order(buy("a", 0, 5)).err(), Some(InvalidInput::NonPositivePrice));
    let mut negative = sell("a", 1, 5);
    negative.price = Decimal::from_units(-100);
    assert_eq!(engine.place_order(negative).err(), Some(InvalidInput::NonPositivePrice));
    let market = make("m", "BTC-USD", OrderSide::Buy, OrderType::Market, 0, 5);
    assert!(engine.place_order(market).is_ok());
}

#[test]
fn empty_symbol_and_identifier_are_rejected() {
    let mut engine = MatchingEngine::new();
    let no_symbol = make("a", "", OrderSide::Buy, OrderType::Limit, 100, 5);
    assert_eq!(engine.place_order(no_symbol).err(), Some(InvalidInput::EmptySymbol));
    let no_id = make("", "BTC-USD", OrderSide::Buy, OrderType::Limit, 100, 5);
    assert_eq!(engine.place_order(no_id).err(), Some(InvalidInput::EmptyId));
    let neither = make("", "", OrderSide::Buy, OrderType::Limit, 100, 5);
    assert_eq!(engine.place_order(neither).err(), Some(InvalidInput::EmptySymbol));
    assert_eq!(engine.get_stats().active_symbols, 0);
}

#[test]
fn a_resting_identifier_cannot_be_used_again() {
    let mut engine = MatchingEngine::new();
    engine.place_order(buy("a", 100, 5)).unwrap();
    assert_eq!(engine.place_order(buy("a", 90, 1)).err(), Some(InvalidInput::DuplicateId));
    let elsewhere = make("a", "ETH-USD", OrderSide::Sell, OrderType::Limit, 10, 1);
    assert_eq!(engine.place_order(elsewhere).err(), Some(InvalidInput::DuplicateId));
    assert_eq!(engine.get_stats(), EngineStats { total_orders: 1, active_symbols: 1 });
    engine.cancel_order("a").unwrap();
    assert!(engine.place_order(buy("a", 90, 1)).is_ok());
    let book = engine.get_order_book("BTC-USD", 5).unwrap();
    assert_eq!(book.bids, vec![summary(90, 1, 1)]);
}

#[test]
fn a_filled_maker_frees_its_identifier() {
    let mut engine = MatchingEngine::new();
    engine.place_order(sell("m", 100, 5)).unwrap();
    engine.place_order(buy("t", 100, 5)).unwrap();
    assert_eq!(engine.get_stats().total_orders, 0);
    assert!(engine.cancel_order("m").is_none());
    assert!(engine.place_order(sell("m", 100, 5)).is_ok());
    assert!(engine.place_order(buy("t", 1, 5)).is_ok());
    assert_eq!(engine.get_stats().total_orders, 2);
}

#[test]
fn rejection_changes_nothing() {
    let mut engine = MatchingEngine::with_stamper(Stamper::reproducible(0, 0));
    engine.place_order(sell("m", 100, 5)).unwrap();
    let before = engine.get_order_book("BTC-USD", 10).unwrap();
    assert!(engine.place_order(buy("m", 100, 5)).is_err());
    assert!(engine.place_order(buy("t", 100, -1)).is_err());
    let after = engine.get_order_book("BTC-USD", 10).unwrap();
    assert_eq!(before.asks, after.asks);
    assert_eq!(before.bids, after.bids);
    assert_eq!(engine.get_stats(), EngineStats { total_orders: 1, active_symbols: 1 });
    let next = engine.place_order(buy("t", 100, 1)).unwrap();
    assert_eq!(next.trades[0].id, uuid::Uuid::from_u128(0).to_string());
}

#[test]
fn an_order_filled_on_arrival_neither_trades_nor_rests() {
    let mut engine = MatchingEngine::new();
    engine.place_order(sell("m", 100, 5)).unwrap();
    let mut done = buy("t", 100, 5);
    done.filled = whole(5);
    let result = engine.place_order(done).unwrap();
    assert!(result.trades.is_empty());
    assert_eq!(engine.get_stats().total_orders, 1);
    assert!(engine.cancel_order("t").is_none());
}

#[test]
fn a_partly_filled_order_trades_what_is_open() {
    let mut engine = MatchingEngine::new();
    engine.place_order(sell("m", 100, 5)).unwrap();
    let mut partly = buy("t", 100, 5);
    partly.filled = whole(3);
    let result = engine.place_order(partly).unwrap();
    assert_eq!(result.trades.len(), 1);
    assert_eq!(result.trades[0].amount, whole(2));
    assert_eq!(result.updated_orders[0].filled, whole(2));
    assert!(engine.cancel_order("t").is_none());
    assert_eq!(engine.cancel_order("m").unwrap().filled, whole(2));
}

#[test]
fn books_are_kept_apart_by_symbol() {
    let mut engine = MatchingEngine::new();
    engine.place_order(sell("a", 100, 5)).unwrap();
    let other = make("b", "ETH-USD", OrderSide::Buy, OrderType::Limit, 100, 5);
    let result = engine.place_order(other).unwrap();
    assert!(result.trades.is_empty());
    assert_eq!(engine.get_stats(), EngineStats { total_orders: 2, active_symbols: 2 });
    let btc = engine.get_order_book("BTC-USD", 5).unwrap();
    assert_eq!(btc.symbol, "BTC-USD");
    assert_eq!(btc.asks, vec![summary(100, 5, 1)]);
    assert!(btc.bids.is_empty());
    let eth = engine.get_order_book("ETH-USD", 5).unwrap();
    assert_eq!(eth.bids, vec![summary(100, 5, 1)]);
    assert!(eth.asks.is_empty());
    assert!(engine.get_order_book("XRP-USD", 5).is_none());
    assert_eq!(engine.cancel_order("b").unwrap().symbol, "ETH-USD");
    assert_eq!(engine.get_order_book("BTC-USD", 5).unwrap().asks, vec![summary(100, 5, 1)]);
    assert!(engine.get_order_book("ETH-USD", 5).unwrap().bids.is_empty());
    assert_eq!(engine.get_stats(), EngineStats { total_orders: 1, active_symbols: 2 });
}

#[test]
fn the_book_is_never_crossed() {
    let mut engine = MatchingEngine::new();
    let stream = vec![
        sell("s1", 105, 3),
        buy("b1", 100, 4),
        buy("b2", 106, 1),
        sell("s2", 99, 2),
        buy("b3", 104, 5),
        sell("s3", 104, 9),
        sell("s4", 101, 1),
        buy("b4", 110, 20),
    ];
    for order in stream {
        engine.place_order(order).unwrap();
        let book = engine.get_order_book("BTC-USD", usize::MAX).unwrap();
        if let (Some(bid), Some(ask)) = (book.bids.first(), book.asks.first()) {
            assert!(bid.price < ask.price);
        }
        for level in book.bids.iter().chain(book.asks.iter()) {
            assert!(level.order_count > 0);
            assert!(level.amount > 0);
        }
    }
}

#[test]
fn volume_changes_by_amount_less_twice_the_trades() {
    let mut engine = MatchingEngine::new();
    engine.place_order(sell("s1", 100, 2)).unwrap();
    engine.place_order(sell("s2", 101, 3)).unwrap();
    engine.place_order(sell("s3", 102, 10)).unwrap();
    let before = volume(&engine, "BTC-USD");
    assert_eq!(before, whole(15).units as i128);
    let result = engine.place_order(buy("t", 101, 9)).unwrap();
    let traded: i128 = result.trades.iter().map(|t| t.amount.units as i128).sum();
    assert_eq!(traded, whole(5).units as i128);
    let after = volume(&engine, "BTC-USD");
    assert_eq!(after, before + whole(9).units as i128 - 2 * traded);
    let market = make("m", "BTC-USD", OrderSide::Sell, OrderType::Market, 0, 50);
    let swept = engine.place_order(market).unwrap();
    let sold: i128 = swept.trades.iter().map(|t| t.amount.units as i128).sum();
    assert_eq!(sold, whole(4).units as i128);
    assert_eq!(volume(&engine, "BTC-USD"), after - sold);
}

#[test]
fn place_then_cancel_leaves_the_book_as_it_was() {
    let mut engine = MatchingEngine::new();
    engine.place_order(sell("s1", 105, 3)).unwrap();
    engine.place_order(buy("b1", 100, 4)).unwrap();
    engine.place_order(buy("b2", 100, 1)).unwrap();
    let before = engine.get_order_book("BTC-USD", usize::MAX).unwrap();
    let stats = engine.get_stats();
    for fresh in [buy("x", 100, 7), buy("x", 104, 7), sell("x", 105, 2), sell("x", 101, 2)] {
        let echo = (fresh.id.clone(), fresh.amount, fresh.price);
        assert!(engine.place_order(fresh).unwrap().trades.is_empty());
        assert_eq!(engine.get_stats().total_orders, stats.total_orders + 1);
        let back = engine.cancel_order("x").unwrap();
        assert_eq!((back.id.clone(), back.amount, back.price), echo);
        assert_eq!(back.filled, Decimal::zero());
        let after = engine.get_order_book("BTC-USD", usize::MAX).unwrap();
        assert_eq!(before.bids, after.bids);
        assert_eq!(before.asks, after.asks);
        assert_eq!(engine.get_stats(), stats);
    }
    let first = engine.cancel_order("b1").unwrap();
    assert_eq!(first.amount, whole(4));
}

#[test]
fn cancelling_a_partly_filled_order_hands_back_its_fill() {
    let mut engine = MatchingEngine::new();
    engine.place_order(sell("m", 100, 10)).unwrap();
    engine.place_order(buy("t", 100, 4)).unwrap();
    let back = engine.cancel_order("m").unwrap();
    assert_eq!(back.filled, whole(4));
    assert_eq!(back.remaining(), whole(6));
    assert!(engine.cancel_order("m").is_none());
    assert!(engine.get_order_book("BTC-USD", 5).unwrap().asks.is_empty());
}

#[test]
fn cancelling_an_unknown_identifier_is_no_error() {
    let mut engine = MatchingEngine::new();
    assert!(engine.cancel_order("ghost").is_none());
    engine.place_order(sell("m", 100, 10)).unwrap();
    assert!(engine.cancel_order("ghost").is_none());
    assert!(engine.cancel_order("").is_none());
    assert_eq!(engine.get_stats().total_orders, 1);
}

#[test]
fn what_is_left_of_a_market_order_is_dropped() {
    let mut engine = MatchingEngine::new();
    engine.place_order(sell("m", 100, 2)).unwrap();
    let market = make("t", "BTC-USD", OrderSide::Buy, OrderType::Market, 0, 5);
    let result = engine.place_order(market).unwrap();
    assert_eq!(result.trades.len(), 1);
    assert_eq!(result.trades[0].amount, whole(2));
    let book = engine.get_order_book("BTC-USD", 5).unwrap();
    assert!(book.bids.is_empty());
    assert!(book.asks.is_empty());
    assert_eq!(engine.get_stats().total_orders, 0);
}

#[test]
fn updated_orders_carry_each_maker_after_its_fill() {
    let mut engine = MatchingEngine::new();
    engine.place_order(sell("a", 100, 2)).unwrap();
    engine.place_order(sell("b", 100, 5)).unwrap();
    let result = engine.place_order(buy("t", 100, 4)).unwrap();
    let states: Vec<(&str, Decimal, bool)> =
        result.updated_orders.iter().map(|o| (o.id.as_str(), o.filled, o.is_filled())).collect();
    assert_eq!(states, vec![("a", whole(2), true), ("b", whole(2), false)]);
    assert_eq!(engine.get_stats().total_orders, 1);
    assert_eq!(engine.get_order_book("BTC-USD", 5).unwrap().asks, vec![summary(100, 3, 1)]);
}

#[test]
fn same_user_on_both_sides_still_trades() {
    let mut engine = MatchingEngine::new();
    engine.place_order(sell("m", 100, 2)).unwrap();
    let result = engine.place_order(buy("t", 100, 2)).unwrap();
    assert_eq!(result.trades.len(), 1);
}

#[test]
fn two_engines_fed_the_same_stream_agree() {
    let stream = || {
        vec![
            sell("s1", 105, 3),
            buy("b1", 100, 4),
            buy("b2", 106, 1),
            sell("s2", 99, 2),
            make("m1", "BTC-USD", OrderSide::Sell, OrderType::Market, 0, 3),
            buy("b3", 104, 5),
            sell("s3", 104, 9),
            make("e1", "ETH-USD", OrderSide::Buy, OrderType::Limit, 7, 7),
            make("e2", "ETH-USD", OrderSide::Sell, OrderType::Market, 0, 2),
            buy("b4", 110, 20),
        ]
    };
    let mut first = MatchingEngine::with_stamper(Stamper::reproducible(1000, 55));
    let mut second = MatchingEngine::with_stamper(Stamper::reproducible(1000, 55));
    let mut trades_first = Vec::new();
    let mut trades_second = Vec::new();
    for (a, b) in stream().into_iter().zip(stream()) {
        trades_first.extend(first.place_order(a).unwrap().trades.iter().map(key));
        trades_second.extend(second.place_order(b).unwrap().trades.iter().map(key));
        assert_eq!(first.cancel_order("b1").is_some(), second.cancel_order("b1").is_some());
    }
    assert!(trades_first.len() >= 5);
    assert_eq!(trades_first, trades_second);
    assert_eq!(trades_first[0].0, uuid::Uuid::from_u128(1000).to_string());
    assert!(trades_first.iter().all(|t| t.7 == 55));
    assert_eq!(first.get_stats(), second.get_stats());
    for symbol in ["BTC-USD", "ETH-USD"] {
        let a = first.get_order_book(symbol, usize::MAX).unwrap();
        let b = second.get_order_book(symbol, usize::MAX).unwrap();
        assert_eq!(a.bids, b.bids);
        assert_eq!(a.asks, b.asks);
    }
}

#[test]
fn the_clock_can_be_set_between_orders() {
    let mut engine = MatchingEngine::with_stamper(Stamper::reproducible(0, 10));
    engine.place_order(sell("m", 100, 5)).unwrap();
    let early = engine.place_order(buy("t1", 100, 1)).unwrap();
    assert_eq!(early.trades[0].timestamp, 10);
    engine.set_clock(Clock::Fixed { now: 20 });
    let late = engine.place_order(buy("t2", 100, 1)).unwrap();
    assert_eq!(late.trades[0].timestamp, 20);
    assert_eq!(late.trades[0].id, uuid::Uuid::from_u128(1).to_string());
    engine.set_clock(Clock::System);
    let live = engine.place_order(buy("t3", 100, 1)).unwrap();
    assert!(live.trades[0].timestamp > 1_600_000_000_000);
    assert_eq!(live.trades[0].id, uuid::Uuid::from_u128(2).to_string());
}

#[test]
fn snapshots_taken_twice_are_equal() {
    let mut engine = MatchingEngine::new();
    engine.place_order(sell("s1", 105, 3)).unwrap();
    engine.place_order(buy("b1", 100, 4)).unwrap();
    let a = engine.get_order_book("BTC-USD", 3).unwrap();
    let b = engine.get_order_book("BTC-USD", 3).unwrap();
    assert_eq!(a.symbol, b.symbol);
    assert_eq!(a.bids, b.bids);
    assert_eq!(a.asks, b.asks);
    engine.place_order(buy("b2", 105, 3)).unwrap();
    assert_eq!(a.asks, vec![summary(105, 3, 1)]);
    assert!(engine.get_order_book("BTC-USD", 3).unwrap().asks.is_empty());
}

#[test]
fn depth_limits_each_side() {
    let mut engine = MatchingEngine::new();
    for (i, price) in [101, 102, 103, 104].iter().enumerate() {
        engine.place_order(sell(&format!("s{}", i), *price, 1)).unwrap();
        engine.place_order(buy(&format!("b{}", i), *price - 10, 1)).unwrap();
    }
    let top = engine.get_order_book("BTC-USD", 2).unwrap();
    assert_eq!(top.asks, vec![summary(101, 1, 1), summary(102, 1, 1)]);
    assert_eq!(top.bids, vec![summary(94, 1, 1), summary(93, 1, 1)]);
    assert!(engine.get_order_book("BTC-USD", 0).unwrap().asks.is_empty());
    assert_eq!(engine.get_order_book("BTC-USD", 99).unwrap().bids.len(), 4);
}
