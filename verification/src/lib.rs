//! Seer: a proof-of-work ledger, its consensus rules, economy, networking
//! and transport layers, with every operation stated by a contract.
pub mod pow;
pub mod transaction;
pub mod block;
pub mod bytemap;
pub mod ledger;
pub mod cell;
pub mod fishermen;
pub mod vertical_patch;
pub mod dht;
pub mod transport;
pub mod constants;
pub mod gini;
pub mod metrics;
pub mod convergence;
pub mod db;
pub mod adnl;
pub mod zero_channel;
pub mod hypercube;
pub mod overlay;
pub mod bot_node;
pub mod factory;
pub mod master_channel;
