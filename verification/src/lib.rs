//! An integer-exact market microstructure engine.
//!
//! Prices are counted in ticks and quantities in lots, so every statistic the
//! engine maintains (candles, volume at price, swing points, order state) is
//! computed without rounding and stated as a contract over mathematical
//! integers, sequences and maps.

pub mod arith;
pub mod clock;
pub mod ema;
pub mod imbalance;
pub mod kline;
pub mod listing;
pub mod local;
pub mod order;
pub mod price_action;
pub mod series;
pub mod swings;
pub mod tick_flows;
pub mod types;

pub use clock::nanos_to_ymdhms;
pub use ema::FixedSizeEma;
pub use imbalance::Imbalance;
pub use kline::KLine;
pub use local::Local;
pub use price_action::{HkPriceAction, PriceAction};
pub use swings::Swings;
pub use tick_flows::TickFlows;
pub use types::Side;
