//! The stash subsystem of a source-control client: it shelves uncommitted
//! work (staged and unstaged) into immutable content-addressed objects,
//! restores the repository to the state of the current branch tip, and later
//! reapplies the shelved work on demand. At most one stash entry exists at a
//! time, held in a single slot that a new stash silently overwrites.

pub mod hash;
pub mod model;
pub mod ops;
pub mod engine;
pub mod laws;
pub mod record;

use vstd::prelude::*;

verus! {

/// The command-line surface of the stash command: no subcommand creates a
/// stash, `pop` reapplies and drops the stored one.
#[derive(Debug, Clone)]
pub struct StashArgs {
    pub command: Option<StashCommands>,
}

#[derive(Debug, Clone)]
pub enum StashCommands {
    Pop,
}

} // verus!
