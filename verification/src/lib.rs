//! A transaction-ledger engine: client accounts evolve under deposits,
//! withdrawals and a dispute lifecycle (dispute, resolve, chargeback),
//! with a memory-bounded variant and a client-sharded variant.

pub mod account;
pub mod amount;
pub mod benchmark;
pub mod engine;
pub mod errors;
pub mod lru_cache;
pub mod transaction;
pub mod tx_index;
pub mod wire;
