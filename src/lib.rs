//! Repository state synchronisation and conflict-resolution logic for a
//! desktop client that drives the git command-line tool.

pub mod text;
pub mod status;
pub mod conflicts;
pub mod rebase;
pub mod patches;
pub mod gitlog;
pub mod order;
pub mod remote;
pub mod continuation;
pub mod guard;
