//! An escrow-backed asset-swap ledger.
//!
//! The crate keeps per-user balances, a registry of swap requests, and a
//! matching engine that creates, executes, cancels and expires bilateral
//! swaps as all-or-nothing transitions. Every operation carries a contract;
//! the central one is conservation: for every asset symbol, the spendable
//! balances plus the escrow held by pending swaps change only through an
//! explicit deposit or withdrawal.

pub mod auth;
pub mod ledger;
pub mod registry;
pub mod swap;
pub mod types;
