//! Order-book synchronization and cross-venue liquidity matching.
//!
//! The crate keeps one normalized price ladder per book side, merges
//! snapshot and incremental feed events into it, simulates aggressive
//! market orders by walking the ladder in price priority, and compares
//! the two round-trip outcomes between venues to decide whether a
//! profitable arbitrage exists for a given capital amount.

pub mod aevo;
pub mod book;
pub mod calculations;
pub mod dxdy;
pub mod ladder;
pub mod numeric;
pub mod text;
