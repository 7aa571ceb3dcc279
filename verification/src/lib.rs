//! Bars of token trades: the verified core of a market data service.

pub mod active;
pub mod double;
pub mod feed;
pub mod interval;
pub mod kline;
pub mod laws;
pub mod query;
pub mod series;
pub mod simulator;
pub mod state;
pub mod transaction;
