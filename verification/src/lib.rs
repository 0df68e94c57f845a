//! A tick-synchronised market simulator: a price-indexed limit order book with
//! a matching engine, the barrier that paces the trader threads, and the
//! decision rules of the simulated traders and of the corporation whose true
//! value they chase.

pub mod accounting;
pub mod corporation;
pub mod exchange;
pub mod laws;
pub mod ledger;
pub mod market;
pub mod matching;
pub mod utils;
