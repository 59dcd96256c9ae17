//! An in-memory inventory with a ledger of sales and purchases.
//!
//! Prices are whole numbers of the smallest currency unit (cents), so that
//! every total is exact.
pub mod auth;
pub mod catalog;
pub mod ledger;
