//! Java Edition 26.1.2 redstone rules: block positions and directions,
//! block orientations, the block behaviour registry, the pure rule helpers
//! and the compiled redstone network with its incremental runtime.

pub mod position;
pub mod update_order;
pub mod text;
pub mod orientation;
pub mod registry;
pub mod rules;
pub mod posmap;
pub mod compiled;

use vstd::prelude::*;

verus! {

/// The Java Edition release whose behaviour this library follows.
pub const JAVA_VERSION: &'static str = "26.1.2";

/// The data version of that release.
pub const JAVA_DATA_VERSION: i32 = 4790;

} // verus!
