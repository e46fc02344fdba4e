//! The automation plugins. Each module holds the decisions of one plugin:
//! what it reports, when it notifies, what it records. The binary runs the
//! plugins' loops and performs their I/O.

use vstd::prelude::*;

pub mod dotfiles;
pub mod fleet_health;
pub mod profiles;
pub mod repo_housekeeping;
pub mod security;
pub mod theme_sync;
pub mod validation;
pub mod vault_backup;

verus! {

/// What a periodic check does after computing its report.
pub struct TickAction {
    /// The summary of a notification to send (its body is the report).
    pub notify: Option<String>,
    /// Whether to record the report in the state store.
    pub store: bool,
}

} // verus!
