//! A verified order ledger for a restaurant floor: tables, a menu catalog, and
//! at most one open order per table, made of line items whose quantity and
//! aggregate cooking time follow a fixed policy.

pub mod cooking;
pub mod handlers;
pub mod models;
pub mod store;
pub mod laws;
