//! A simulated securities market: order generation, settlement and a
//! per-client ledger of capital and average-cost holdings.
//!
//! All money is held in integer minor units (hundredths of the currency
//! unit), so every amount in a contract is an exact integer.

pub mod broker;
pub mod client;
pub mod delivery;
pub mod generator;
pub mod ledger;
pub mod ledger_laws;
pub mod models;
pub mod money;
pub mod order_id;
pub mod performance;
pub mod portfolio;
pub mod price_book;
pub mod price_feed;
pub mod priority;
pub mod random;
pub mod settlement;
pub mod store;
pub mod symbol_map;
