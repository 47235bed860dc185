use vstd::prelude::*;

use crate::ConfigurationError;

verus! {

/// One policy option for the traversal provider. Options accumulate in
/// order; later options do not remove earlier ones. The three sort
/// variants each pick one sort discipline; the comparator or key function
/// itself stays with the caller that drives the provider.
#[derive(Clone, Copy, Debug, PartialEq, Eq, Structural)]
pub enum WalkDirOption {
    /// Yield the contents of a directory before the directory itself.
    ContentsFirst,
    /// Follow symbolic links.
    FollowLinks,
    /// Do not descend below this depth.
    MaxDepth(usize),
    /// Bound on simultaneously open directory handles.
    MaxOpen(usize),
    /// Do not yield entries above this depth.
    MinDepth(usize),
    /// Refuse to cross a filesystem boundary.
    SameFileSystem,
    /// Sort siblings by a comparator over entry pairs.
    SortBy,
    /// Sort siblings by file name.
    SortByFileName,
    /// Sort siblings by a key drawn from each entry.
    SortByKey,
}

/// The ordered list of accumulated traversal options.
#[derive(Debug)]
pub struct WalkDirModes(pub Vec<WalkDirOption>);

/// Whether an option picks a sort discipline.
pub open spec fn is_sort(o: WalkDirOption) -> bool {
    o == WalkDirOption::SortBy || o == WalkDirOption::SortByFileName || o
        == WalkDirOption::SortByKey
}

/// How many sort disciplines stand in the option list.
pub open spec fn sort_count(s: Seq<WalkDirOption>) -> int
    decreases s.len(),
{
    if s.len() == 0 {
        0
    } else {
        sort_count(s.drop_last()) + if is_sort(s.last()) {
            1int
        } else {
            0int
        }
    }
}

/// Whether some supplied minimum depth exceeds some supplied maximum
/// depth.
pub open spec fn has_depth_conflict(s: Seq<WalkDirOption>) -> bool {
    exists|i: int, j: int|
        0 <= i < s.len() && 0 <= j < s.len() && (#[trigger] s[i] matches WalkDirOption::MinDepth(a)
            && #[trigger] s[j] matches WalkDirOption::MaxDepth(b) && a > b)
}

/// What validating an option list yields, checked before any entry is
/// looked at: at most one sort discipline, no minimum depth above a
/// maximum depth, and a mapper must have been supplied.
pub open spec fn spec_validate(s: Seq<WalkDirOption>, has_map: bool) -> Result<
    (),
    ConfigurationError,
> {
    if sort_count(s) > 1 {
        Err(ConfigurationError::MultipleSortDisciplines)
    } else if has_depth_conflict(s) {
        Err(ConfigurationError::MinDepthExceedsMaxDepth)
    } else if !has_map {
        Err(ConfigurationError::MissingMapper)
    } else {
        Ok(())
    }
}

impl WalkDirModes {
    /// An empty option list.
    pub fn new() -> (r: WalkDirModes)
        ensures
            r.0@ =~= Seq::<WalkDirOption>::empty(),
    {
        WalkDirModes(Vec::<WalkDirOption>::new())
    }

    /// Checks that the accumulated options, together with whether a
    /// mapper was supplied, form a valid configuration.
    pub fn check_compability(&self, has_map: bool) -> (r: Result<(), ConfigurationError>)
        ensures
            r == spec_validate(self.0@, has_map),
    {
        let n = self.0.len();
        let mut sorts: usize = 0;
        let mut i: usize = 0;
        while i < n
            invariant
                0 <= i <= n,
                n == self.0@.len(),
                sorts <= i,
                sorts == sort_count(self.0@.take(i as int)),
            decreases n - i,
        {
            let o = self.0[i];
            proof {
                assert(self.0@.take(i + 1).drop_last() =~= self.0@.take(i as int));
                assert(self.0@.take(i + 1).last() == self.0@[i as int]);
            }
            match o {
                WalkDirOption::SortBy => sorts = sorts + 1,
                WalkDirOption::SortByFileName => sorts = sorts + 1,
                WalkDirOption::SortByKey => sorts = sorts + 1,
                _ => (),
            }
            i = i + 1;
        }
        proof {
            assert(self.0@.take(n as int) =~= self.0@);
        }
        if sorts > 1 {
            return Err(ConfigurationError::MultipleSortDisciplines);
        }
        let mut i: usize = 0;
        while i < n
            invariant
                0 <= i <= n,
                n == self.0@.len(),
                sort_count(self.0@) <= 1,
                forall|x: int, j: int|
                    0 <= x < i && 0 <= j < n ==> !(#[trigger] self.0@[x] matches
                        WalkDirOption::MinDepth(a) && #[trigger] self.0@[j] matches
                        WalkDirOption::MaxDepth(b) && a > b),
            decreases n - i,
        {
            if let WalkDirOption::MinDepth(a) = self.0[i] {
                let mut j: usize = 0;
                while j < n
                    invariant
                        0 <= j <= n,
                        0 <= i < n,
                        n == self.0@.len(),
                        sort_count(self.0@) <= 1,
                        self.0@[i as int] == WalkDirOption::MinDepth(a),
                        forall|y: int|
                            0 <= y < j ==> !(#[trigger] self.0@[y] matches WalkDirOption::MaxDepth(
                                b,
                            ) && a > b),
                    decreases n - j,
                {
                    if let WalkDirOption::MaxDepth(b) = self.0[j] {
                        if a > b {
                            proof {
                                assert(self.0@[i as int] matches WalkDirOption::MinDepth(x) && self.0@[j as int]
                                    matches WalkDirOption::MaxDepth(y) && x > y);
                                assert(has_depth_conflict(self.0@));
                            }
                            return Err(ConfigurationError::MinDepthExceedsMaxDepth);
                        }
                    }
                    j = j + 1;
                }
            }
            i = i + 1;
        }
        if !has_map {
            return Err(ConfigurationError::MissingMapper);
        }
        Ok(())
    }
}

impl Default for WalkDirModes {
    /// An empty option list.
    fn default() -> (r: Self)
        ensures
            r.0@ =~= Seq::<WalkDirOption>::empty(),
    {
        WalkDirModes::new()
    }
}

} // verus!
