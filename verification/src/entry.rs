use vstd::prelude::*;

verus! {

/// One entry as the traversal provider reports it: the absolute path and
/// whether the entry names a directory (directories are the entries whose
/// rejection by a filter prunes a whole subtree).
#[derive(Debug)]
pub struct RawEntry {
    pub path: String,
    pub is_dir: bool,
}

/// The mathematical view of an entry: the path as a sequence of
/// characters, and the directory flag.
pub struct EntryView {
    pub path: Seq<char>,
    pub is_dir: bool,
}

impl View for RawEntry {
    type V = EntryView;

    open spec fn view(&self) -> EntryView {
        EntryView { path: self.path@, is_dir: self.is_dir }
    }
}

impl RawEntry {
    pub fn new(path: String, is_dir: bool) -> (r: RawEntry)
        ensures
            r@.path == path@,
            r@.is_dir == is_dir,
    {
        RawEntry { path, is_dir }
    }

    /// A copy of this entry; the path characters and the directory flag
    /// carry over unchanged.
    pub fn duplicate(&self) -> (r: RawEntry)
        ensures
            r@ == self@,
    {
        RawEntry { path: self.path.clone(), is_dir: self.is_dir }
    }
}

} // verus!
