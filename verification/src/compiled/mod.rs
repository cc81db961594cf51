//! The compiled redstone backend: the dense network, its incremental
//! runtime, the topology invalidation policy and the execution fallback
//! window.

pub mod csr;
pub mod network;
pub mod dense;
pub mod draft_order;
pub mod affected;
pub mod graph;
pub mod dependencies;
pub mod static_network;
pub mod buckets;
pub mod runtime;
pub mod frontend;
pub mod invalidation;
pub mod closure;
pub mod links;
pub mod world;
pub mod wire_build;
pub mod node_build;
pub mod search;
pub mod input_search;
pub mod network_build;
pub mod passes;
pub mod state;
pub mod sources;
pub mod window;
pub mod executor;
pub mod compiled_runtime;
