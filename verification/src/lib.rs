//! Release tooling for a Rust workspace: changeset validation, workspace
//! version bookkeeping, release naming and the release procedures' decisions.

pub mod text;
pub mod changeset;
pub mod manifest;
pub mod version_table;
pub mod release;
pub mod bench;
pub mod ci;
pub mod flow;
pub mod validate_rc;
pub mod sync_workspace_deps;
pub mod changeset_check;
pub mod advance_rc;
pub mod stable;
pub mod dashboard;
pub mod cli;
