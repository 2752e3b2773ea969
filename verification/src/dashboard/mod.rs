//! What the dashboard shows.

pub mod identities;
pub mod pnl_accounting;
