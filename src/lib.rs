//! Peer bootstrap and supervision logic for a gossip node: address parsing,
//! seed peer discovery from several sources, latency-based peer selection,
//! gossip configuration building, data directory pruning decisions and node
//! health tracking.

pub mod addr;
pub mod text;
pub mod gossip_config;
pub mod seeds;
pub mod config_store;
pub mod speedtest;
pub mod monitor;
pub mod prune;
pub mod seed_table;
pub mod bootstrap;
