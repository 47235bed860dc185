//! Assembles an in-memory tree out of the flat stream of entries that a
//! directory traversal yields. Every entry becomes a node that owns one
//! value of user data; nodes are wired parent to child along the path
//! hierarchy; the finished tree answers path-to-node, node-to-path and
//! node-to-data queries and never changes after construction.

use vstd::prelude::*;

pub mod builder;
pub mod entry;
pub mod filters;
pub mod options;
pub mod paths;
pub mod pipeline;
pub mod store;
pub mod tree;

pub use builder::WalkTreeBuilder;
pub use entry::RawEntry;
pub use filters::{AcceptAll, EntryFilter, EntryMapper, NoMapper, PathMapper, RejectPath};
pub use options::{WalkDirModes, WalkDirOption};
pub use tree::WalkTree;

verus! {

/// An invalid or incomplete configuration, found before any entry is
/// looked at.
#[derive(Clone, Copy, Debug, PartialEq, Eq, Structural)]
pub enum ConfigurationError {
    /// More than one sort discipline was supplied.
    MultipleSortDisciplines,
    /// A minimum depth exceeds a maximum depth.
    MinDepthExceedsMaxDepth,
    /// No mapper was supplied before the terminal operation.
    MissingMapper,
}

/// The traversal provider could not produce an entry it attempted to
/// visit; `context` carries the provider's account of the failure.
#[derive(Clone, Debug, PartialEq, Eq)]
pub struct TraversalError {
    pub context: String,
}

/// Everything the terminal operation can fail with.
#[derive(Clone, Debug, PartialEq, Eq)]
pub enum WalkTreeError {
    /// The builder state was invalid; no entry was looked at.
    Configuration(ConfigurationError),
    /// The provider reported an entry it could not visit.
    Traversal(TraversalError),
    /// Two entries carried the same path.
    DuplicatePath(String),
}

} // verus!
