//! Verified core of a swarm-telemetry node: the records that travel through
//! consensus, the replicated per-node state, the analyst's rolling window,
//! the feed filter and the swarm configuration rules.

pub mod analyst;
pub mod config;
pub mod feed;
pub mod keyed_store;
pub mod node_state;
pub mod records;
pub mod text;
