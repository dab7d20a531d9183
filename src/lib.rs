//! A staged block-execution core: a journaled key/value state store, an
//! append-only record store, a reversible execution stage, a pipeline of
//! checkpoints and a post-state verifier, each with verified contracts.
use vstd::prelude::*;

pub mod state_store;
pub mod transition;
pub mod execution;
pub mod record_store;
pub mod pipeline;
pub mod post_state;
pub mod fixtures;
pub mod paths;
pub mod cli;
pub mod sync;

verus! {

} // verus!
