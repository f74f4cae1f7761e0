//! The command-line intent, as plain data: what the user asked for, already
//! parsed, so the library's decisions can be checked against it.

use vstd::prelude::*;

verus! {

/// A parsed invocation.
#[derive(Debug)]
pub struct RuvexArgs {
    pub command: Option<RuvexCommand>,
    pub config_path: Option<String>,
    pub cc_types: Option<Vec<String>>,
    pub minor_trigger: Option<Vec<String>>,
    pub patch_trigger: Option<Vec<String>>,
    pub create_default: bool,
    pub ignore_prereleases: bool,
    pub dry_run: bool,
}

/// The subcommand asked for.
#[derive(Debug)]
pub enum RuvexCommand {
    /// Check a commit range for conventional-commit compliance.
    Check { name: Option<Vec<String>>, format: Option<usize> },
    /// Compute the next tag from the history.
    Tag {
        merged: Option<String>,
        no_merged: Option<String>,
        ignore_prereleases: bool,
        name: Option<Vec<String>>,
    },
}

} // verus!
