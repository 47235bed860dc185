use vstd::prelude::*;

use crate::entry::{EntryView, RawEntry};

verus! {

/// A predicate over raw entries. Rejecting a directory entry prunes its
/// whole subtree; rejecting a file entry removes that entry alone. The
/// decision depends on the entry's content alone: `accept` returns what
/// the specification-level `accepts` says of the entry's view.
pub trait EntryFilter {
    /// Which entries the filter lets through.
    spec fn accepts(&self, e: EntryView) -> bool;

    /// The executable decision.
    fn accept(&self, e: &RawEntry) -> (r: bool)
        ensures
            r == self.accepts(e@),
    ;
}

/// Turns a surviving raw entry into the user data stored at its node.
/// The produced data depends on the entry's content alone: `apply`
/// returns a value whose view is what `image` says of the entry's view.
pub trait EntryMapper {
    /// The user data type a node holds.
    type Data: View;

    /// The view of the data produced for an entry.
    spec fn image(&self, e: EntryView) -> <Self::Data as View>::V;

    /// The executable transformation.
    fn apply(&self, e: &RawEntry) -> (r: Self::Data)
        ensures
            r@ == self.image(e@),
    ;
}

/// The filter in force when none was supplied: every entry passes.
#[derive(Clone, Copy, Debug)]
pub struct AcceptAll;

impl EntryFilter for AcceptAll {
    open spec fn accepts(&self, e: EntryView) -> bool {
        true
    }

    fn accept(&self, e: &RawEntry) -> (r: bool) {
        true
    }
}

/// Rejects exactly the entries whose path equals the held one; on a
/// directory that prunes the whole subtree below it.
#[derive(Debug)]
pub struct RejectPath {
    pub path: String,
}

impl EntryFilter for RejectPath {
    open spec fn accepts(&self, e: EntryView) -> bool {
        e.path != self.path@
    }

    fn accept(&self, e: &RawEntry) -> (r: bool) {
        !e.path.eq(&self.path)
    }
}

/// Stores each entry's own path as the node's data.
#[derive(Clone, Copy, Debug)]
pub struct PathMapper;

impl EntryMapper for PathMapper {
    type Data = String;

    open spec fn image(&self, e: EntryView) -> Seq<char> {
        e.path
    }

    fn apply(&self, e: &RawEntry) -> (r: String) {
        e.path.clone()
    }
}

/// Stands where no mapper was supplied yet; the terminal operation
/// refuses to run with it, so it never produces data.
#[derive(Clone, Copy, Debug)]
pub struct NoMapper;

impl EntryMapper for NoMapper {
    type Data = bool;

    open spec fn image(&self, e: EntryView) -> bool {
        false
    }

    fn apply(&self, e: &RawEntry) -> (r: bool) {
        false
    }
}

} // verus!
