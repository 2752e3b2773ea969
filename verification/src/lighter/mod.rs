//! The exchange: its types and its account payloads.

pub mod account;
pub mod error;
pub mod holdings;
pub mod types;
