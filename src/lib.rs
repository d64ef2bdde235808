//! A deliberately naive proof-of-stake ledger: hash-linked blocks, an asset
//! ledger with coin-age validator election, a peer registry and the
//! per-node behaviour switch used to stage a double-spend.

pub mod asset;
pub mod block;
pub mod chain;
pub mod config;
pub mod discovery;
pub mod error;
pub mod logs;
pub mod payload;
pub mod utils;

pub use config::Config;
