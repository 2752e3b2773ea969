//! The decision core of a market-making bot for the Lighter exchange.

pub mod backtest;
pub mod binary64;
pub mod clock;
pub mod dashboard;
pub mod hft;
pub mod json;
pub mod lighter;
pub mod risk;
pub mod settings;
pub mod strategy;
pub mod table;
pub mod text;
