//! Market discovery, quoting universe and external alpha.

pub mod binance_alpha;
pub mod book_continuity;
pub mod ranking;
pub mod rate_budget;
pub mod readings;
pub mod scan;
pub mod subscriptions;
pub mod universe;
