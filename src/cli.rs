//! The arguments of the command-line subcommands, as plain data.
use vstd::prelude::*;

verus! {

/// Install a package.
#[derive(Debug, Clone)]
pub struct Install {
    pub package: String,
}

/// Remove a package.
#[derive(Debug, Clone)]
pub struct Remove {
    pub package: String,
}

/// Manage package sources.
#[derive(Debug, Clone)]
pub struct Sources {
    pub command: Option<SourcesCommand>,
}

/// A source-management subcommand.
#[derive(Debug, Clone)]
pub enum SourcesCommand {
    Add(SourcesAdd),
    Remove(SourcesRemove),
    List,
    Update,
}

/// Add a package source.
#[derive(Debug, Clone)]
pub struct SourcesAdd {
    pub source: String,
}

/// Remove a package source.
#[derive(Debug, Clone)]
pub struct SourcesRemove {
    pub source: String,
}

/// Search for a package.
#[derive(Debug, Clone)]
pub struct Search {
    pub query: String,
}

} // verus!
