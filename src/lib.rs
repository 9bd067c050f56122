//! A single-account trade execution and valuation engine.
//!
//! An account holds cash and a count of shares per symbol. Orders buy
//! (positive quantity) or sell (negative quantity) at the market price or
//! within a limit, against the prices of a market snapshot; each order moves
//! cash and shares together or not at all. The account's profit or loss is
//! the value of its holdings at the snapshot's prices plus its cash, less the
//! cash it started with. Prices and cash are whole cents.
pub mod holdings;
pub mod laws;
pub mod market;
pub mod order;
pub mod portfolio;
pub mod quote_line;
