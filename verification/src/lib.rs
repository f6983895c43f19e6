//! Bond trading library: fixed-point money arithmetic backed by `rust_decimal`,
//! a market simulator for backtests, trading strategies and the pure parts of
//! the portfolio service.

pub mod decimal;
pub mod keyed_map;
pub mod model;
pub mod simulator;
pub mod strategy;
pub mod strategies;
pub mod diversified_short_duration;
pub mod high_yield_short;
pub mod yield_maximizer;
pub mod backtest;
pub mod quotation;
pub mod text;
pub mod crypto;
pub mod config;
pub mod api;
pub mod valuation;
pub mod scheduler;
pub mod basics;
pub mod bond_card;
