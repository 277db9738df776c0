//! Options of the revision-parse command layer built on top of this core.
//! The command itself resolves revision specifications against a repository
//! and formats them, which is the embedder's job; only its option values are
//! part of this crate.

use vstd::prelude::*;

verus! {

/// How the command renders what a revision specification resolved to.
#[derive(Debug, PartialEq, Eq, Clone, Copy, Structural)]
pub enum OutputFormat {
    /// Line-oriented text for people.
    Human,
    /// A machine-readable rendering.
    Json,
}

/// The options of the revision-parse command.
pub struct Options {
    /// The output format to use.
    pub format: OutputFormat,
}

} // verus!
