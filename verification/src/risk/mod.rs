//! Guards between signals and orders.

pub mod order_sync;
pub mod profitability;
