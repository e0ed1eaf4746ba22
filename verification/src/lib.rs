//! The matching core of an exchange: per-symbol order books with price-time
//! priority, limit and market orders, cancellation and depth snapshots.
//!
//! Prices and quantities are exact fixed-precision decimals. Every executable
//! function carries a contract over a mathematical model of its data, and the
//! contracts are machine-checked.
//!
//! - [`decimal`]: the numbers.
//! - [`types`]: orders, trades, and the result of a matching pass.
//! - [`matching`]: what a match is, and the single fill it is made of.
//! - [`price_level`], [`levels`], [`order_book`]: the book of one symbol, from
//!   the queue at one price up to both sides and their snapshots.
//! - [`stamp`]: where trade identifiers and trade times come from.
//! - [`store`]: the concurrent maps that hold the books and the order index.
//! - [`engine_model`], [`engine`]: the engine, as a value and as a machine.
//! - [`level_laws`], [`engine_laws`], [`laws`]: what holds of all of it.
//! - [`wire`]: codes and decimal text, between requests and orders.

pub mod decimal;
pub mod types;
pub mod matching;
pub mod price_level;
pub mod levels;
pub mod level_laws;
pub mod stamp;
mod side;
pub mod order_book;
pub mod store;
pub mod engine_model;
pub mod engine_laws;
pub mod engine;
pub mod laws;
pub mod wire;

pub use decimal::Decimal;
pub use engine::{EngineStats, MatchingEngine};
pub use engine_model::InvalidInput;
pub use order_book::{BookSnapshot, LevelSnapshot, OrderBook};
pub use price_level::PriceLevel;
pub use stamp::{Clock, IdSource, Stamper};
pub use types::{MatchingResult, Order, OrderSide, OrderType, Trade};
