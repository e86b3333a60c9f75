//! Enumeration of juggling states in siteswap notation, the legal throws
//! between them, and the graph, table and per-state views assembled from them.

pub mod cache;
pub mod combinatorics;
pub mod compute;
pub mod graph;
pub mod json;
pub mod params;
pub mod state;
pub mod table;
pub mod text;
pub mod transition;

pub use cache::{fits_in_memory, fits_in_redis};
pub use combinatorics::combinations;
pub use compute::{TransitionSet, compute_transitions};
pub use graph::{Edge, Graph, StateGraph, compute_graph};
pub use json::serialize_throws;
pub use params::{GraphParams, Params, ParamsError, StateNotationQuery, ThrowsQuery};
pub use state::{State, siteswap_char};
pub use table::{StateTable, compute_table};
pub use transition::{Throw, Transition, compute_throws};

use vstd::prelude::*;

verus! {

/// The unsigned integer type that carries a state's bitmask.
pub type Bits = u32;

/// The largest admissible `max_height`: the bit width of [`Bits`].
pub const MAX_MAX_HEIGHT: u8 = 32;

} // verus!
