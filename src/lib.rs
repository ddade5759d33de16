//! Reconciliation of remote folder-synchronisation sessions, SSH tunnels and
//! droplet commands, with the decisions verified and the process work left to
//! the caller.
pub mod text;
pub mod names;
pub mod shell;
pub mod ledger;
pub mod reconcile;
pub mod guarantees;
pub mod sessions;
pub mod inventory;
pub mod input;
pub mod forms;
pub mod doctl;
pub mod tunnel;
pub mod listing;
pub mod tasks;
