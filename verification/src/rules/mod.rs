//! The pure helpers of the Java redstone rules: comparator inputs,
//! consumers and rails, containers, pistons, block shapes and signals.

pub mod block_entity;
pub mod comparator;
pub mod consumer;
pub mod inventory;
pub mod piston;
pub mod shape;
pub mod signals;
