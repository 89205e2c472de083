//! Tracking of confirmed ledger slots: a bounded slot cache, the shared
//! backfill cursor, and the decisions of the tip tracker, the backfill worker
//! and the confirmation oracle.

pub mod cache;
pub mod cursor;
pub mod error;
pub mod solana;
pub mod cli;
pub mod web;
