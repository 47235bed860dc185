use vstd::prelude::*;

use crate::entry::{EntryView, RawEntry};
use crate::filters::{AcceptAll, EntryFilter, EntryMapper, NoMapper};
use crate::options::{spec_validate, WalkDirModes, WalkDirOption};
use crate::pipeline::{apply_filter, apply_map, kept_positions, lemma_kept_positions_sound};
use crate::tree::WalkTree;
use crate::{TraversalError, WalkTreeError};
use vstd::pervasive::arbitrary;
use vstd::pervasive::unreached;

verus! {

/// The view of one provider item that arrived intact; a failed item has
/// no view.
pub open spec fn entry_ok_view(x: Result<RawEntry, TraversalError>) -> EntryView {
    match x {
        Ok(e) => e@,
        Err(_) => arbitrary(),
    }
}

/// The views of a whole provider stream, position by position.
pub open spec fn views_of(es: Seq<Result<RawEntry, TraversalError>>) -> Seq<EntryView> {
    es.map_values(|x: Result<RawEntry, TraversalError>| entry_ok_view(x))
}

/// What survives the configured filter: everything when none was
/// supplied, else the entries the filter keeps under prune semantics.
pub open spec fn surviving_views<FF: EntryFilter>(filt: Option<FF>, vs: Seq<EntryView>) -> Seq<
    EntryView,
> {
    match filt {
        None => vs,
        Some(f) => kept_positions(vs, &f, vs.len() as int).map_values(|p: int| vs[p]),
    }
}

/// The paths of a sequence of entry views, in order.
pub open spec fn path_seq(vs: Seq<EntryView>) -> Seq<Seq<char>> {
    vs.map_values(|e: EntryView| e.path)
}

/// Accumulates the configuration for one construction: the root path the
/// traversal is anchored at, at most one filter, at most one mapper, and
/// the ordered traversal options. The terminal operation consumes it.
pub struct WalkTreeBuilder<FF, FM> {
    pub root_dir: String,
    pub fn_filter: Option<FF>,
    pub fn_map: Option<FM>,
    pub walkdir_modes: WalkDirModes,
}

impl WalkTreeBuilder<AcceptAll, NoMapper> {
    /// Begins a configuration session anchored at `p`. Nothing is read
    /// yet: the traversal itself is the provider's work.
    pub fn load(p: &str) -> (r: WalkTreeBuilder<AcceptAll, NoMapper>)
        ensures
            r.root_dir@ == p@,
            r.fn_filter is None,
            r.fn_map is None,
            r.walkdir_modes.0@ =~= Seq::<WalkDirOption>::empty(),
    {
        WalkTreeBuilder {
            root_dir: p.to_owned(),
            fn_filter: None,
            fn_map: None,
            walkdir_modes: WalkDirModes::new(),
        }
    }
}

impl<T> WalkTree<T> {
    /// Begins a configuration session anchored at `p`.
    pub fn load(p: &str) -> (r: WalkTreeBuilder<AcceptAll, NoMapper>)
        ensures
            r.root_dir@ == p@,
            r.fn_filter is None,
            r.fn_map is None,
            r.walkdir_modes.0@ =~= Seq::<WalkDirOption>::empty(),
    {
        WalkTreeBuilder::load(p)
    }
}

impl<FF, FM> WalkTreeBuilder<FF, FM> {
    /// Supplies the mapper from raw entry to user data; a later call
    /// replaces an earlier one.
    pub fn with_map<M2>(self, f: M2) -> (r: WalkTreeBuilder<FF, M2>)
        ensures
            r.root_dir == self.root_dir,
            r.fn_filter == self.fn_filter,
            r.fn_map == Some(f),
            r.walkdir_modes == self.walkdir_modes,
    {
        WalkTreeBuilder {
            root_dir: self.root_dir,
            fn_filter: self.fn_filter,
            fn_map: Some(f),
            walkdir_modes: self.walkdir_modes,
        }
    }

    /// Supplies the filter predicate; a later call replaces an earlier
    /// one.
    pub fn with_fliter<F2>(self, f: F2) -> (r: WalkTreeBuilder<F2, FM>)
        ensures
            r.root_dir == self.root_dir,
            r.fn_filter == Some(f),
            r.fn_map == self.fn_map,
            r.walkdir_modes == self.walkdir_modes,
    {
        WalkTreeBuilder {
            root_dir: self.root_dir,
            fn_filter: Some(f),
            fn_map: self.fn_map,
            walkdir_modes: self.walkdir_modes,
        }
    }

    /// Appends one traversal option; options accumulate in order and
    /// later ones do not remove earlier ones.
    pub fn with_walkdir_mode(self, mode: WalkDirOption) -> (r: Self)
        ensures
            r.root_dir == self.root_dir,
            r.fn_filter == self.fn_filter,
            r.fn_map == self.fn_map,
            r.walkdir_modes.0@ == self.walkdir_modes.0@.push(mode),
    {
        let mut modes = self.walkdir_modes;
        modes.0.push(mode);
        WalkTreeBuilder {
            root_dir: self.root_dir,
            fn_filter: self.fn_filter,
            fn_map: self.fn_map,
            walkdir_modes: modes,
        }
    }
}

impl<FF: EntryFilter, FM: EntryMapper> WalkTreeBuilder<FF, FM> {
    /// The terminal operation. Validates the accumulated options, checks
    /// the provider stream for failures (the first one aborts the whole
    /// construction), applies the filter with prune semantics and the
    /// mapper, and assembles the tree; a duplicate path among the
    /// surviving entries is refused. Either a complete, well-formed tree
    /// comes back, or an error and no tree.
    #[verifier::loop_isolation(false)]
    pub fn walk(self, entries: Vec<Result<RawEntry, TraversalError>>) -> (r: Result<
        WalkTree<FM::Data>,
        WalkTreeError,
    >)
        ensures
            ({
                let ms = self.walkdir_modes.0@;
                let has_map = self.fn_map is Some;
                let es = entries@;
                match spec_validate(ms, has_map) {
                    Err(c) => r == Err::<WalkTree<FM::Data>, WalkTreeError>(
                        WalkTreeError::Configuration(c),
                    ),
                    Ok(_) => {
                        if exists|i: int| 0 <= i < es.len() && (#[trigger] es[i]) is Err {
                            &&& r matches Err(WalkTreeError::Traversal(t)) && exists|i: int|
                                {
                                    &&& 0 <= i < es.len()
                                    &&& #[trigger] es[i] matches Err(t0) && t.context@
                                        == t0.context@
                                    &&& forall|j: int| 0 <= j < i ==> (#[trigger] es[j]) is Ok
                                }
                        } else {
                            let vs = views_of(es);
                            let kept = surviving_views(self.fn_filter, vs);
                            let kp = path_seq(kept);
                            if exists|i: int, j: int| 0 <= i < j < kp.len() && kp[i] == kp[j] {
                                &&& r matches Err(WalkTreeError::DuplicatePath(p)) && exists|
                                    j: int,
                                |
                                    {
                                        &&& 0 <= j < kp.len()
                                        &&& p@ == kp[j]
                                        &&& exists|i: int| 0 <= i < j && kp[i] == kp[j]
                                        &&& forall|k: int, i: int|
                                            0 <= i < k < j ==> kp[i] != kp[k]
                                    }
                            } else {
                                &&& r matches Ok(t)
                                &&& t.well_formed()
                                &&& t.spec_len() == kept.len()
                                &&& t.paths_view() == kp
                                &&& forall|i: int|
                                    0 <= i < kept.len() ==> (#[trigger] t.item_at(i))@ == (
                                    self.fn_map->Some_0).image(kept[i])
                            }
                        }
                    },
                }
            }),
    {
        let has_map = self.fn_map.is_some();
        let checked = self.walkdir_modes.check_compability(has_map);
        proof {
            assert(checked == spec_validate(self.walkdir_modes.0@, self.fn_map is Some));
        }
        match checked {
            Err(c) => {
                return Err(WalkTreeError::Configuration(c));
            },
            Ok(_) => {
                proof {
                    assert(spec_validate(self.walkdir_modes.0@, self.fn_map is Some) is Ok);
                }
            },
        }
        let ghost es = entries@;
        let n = entries.len();
        let mut oks: Vec<RawEntry> = Vec::new();
        let mut i: usize = 0;
        while i < n
            invariant
                0 <= i <= n,
                n == es.len(),
                es == entries@,
                oks@.len() == i,
                forall|k: int| 0 <= k < i ==> (#[trigger] es[k]) is Ok,
                forall|k: int| 0 <= k < i ==> (#[trigger] oks@[k])@ == entry_ok_view(es[k]),
            decreases n - i,
        {
            match &entries[i] {
                Ok(e) => {
                    oks.push(e.duplicate());
                },
                Err(t) => {
                    proof {
                        assert((#[trigger] es[i as int]) is Err);
                        assert(es[i as int] matches Err(t0) && t0.context@ == t.context@);
                        assert(forall|j: int| 0 <= j < i as int ==> (#[trigger] es[j]) is Ok);
                    }
                    return Err(
                        WalkTreeError::Traversal(TraversalError { context: t.context.clone() }),
                    );
                },
            }
            i = i + 1;
        }
        let ghost vs = views_of(es);
        proof {
            assert(oks@.map_values(|e: RawEntry| e@) =~= vs);
        }
        let kept: Vec<RawEntry> = match &self.fn_filter {
            Some(ff) => {
                let out = apply_filter(&oks, ff);
                proof {
                    lemma_kept_positions_sound(vs, ff, vs.len() as int);
                    assert(kept_positions(oks@.map_values(|e: RawEntry| e@), ff, oks@.map_values(
                        |e: RawEntry| e@,
                    ).len() as int) == kept_positions(vs, ff, vs.len() as int));
                    assert forall|k: int|
                        0 <= k < out@.len() implies (#[trigger] out@[k])@ == surviving_views(
                        self.fn_filter,
                        vs,
                    )[k] by {
                        assert(out@[k]@ == vs[kept_positions(vs, ff, vs.len() as int)[k]]);
                    }
                    assert(out@.len() == surviving_views(self.fn_filter, vs).len());
                }
                out
            },
            None => {
                proof {
                    assert(surviving_views(self.fn_filter, vs) == vs);
                }
                oks
            },
        };
        let ghost keptv = surviving_views(self.fn_filter, vs);
        let ghost kp = path_seq(keptv);
        proof {
            assert(kept@.len() == keptv.len());
            assert forall|k: int| 0 <= k < kept@.len() implies (#[trigger] kept@[k])@
                == keptv[k] by {}
            assert forall|k: int| 0 <= k < kept@.len() implies (#[trigger] kept@[k])@.path
                == kp[k] by {}
        }
        let m = match &self.fn_map {
            Some(m) => m,
            None => unreached(),
        };
        let items = apply_map(&kept, m);
        let r = WalkTree::<FM::Data>::build(&kept, items);
        proof {
            match &r {
                Ok(t) => {
                    assert(t.paths_view() =~= kp);
                    assert forall|x: int, y: int|
                        0 <= x < y < kp.len() implies kp[x] != kp[y] by {
                        assert(kept@[x]@.path == kp[x]);
                        assert(kept@[y]@.path == kp[y]);
                    }
                },
                Err(e) => {
                    match e {
                        WalkTreeError::DuplicatePath(p) => {
                            let j = choose|j: int|
                                {
                                    &&& 0 <= j < kept@.len()
                                    &&& p@ == (#[trigger] kept@[j])@.path
                                    &&& (exists|i: int|
                                        0 <= i < j && (#[trigger] kept@[i])@.path
                                            == kept@[j]@.path)
                                    &&& forall|k: int, i: int|
                                        0 <= i < k < j ==> (#[trigger] kept@[i])@.path != (
                                        #[trigger] kept@[k])@.path
                                };
                            assert(kp[j] == kept@[j]@.path);
                            let i0 = choose|i: int|
                                0 <= i < j && (#[trigger] kept@[i])@.path == kept@[j]@.path;
                            assert(kp[i0] == kp[j]);
                            assert forall|k2: int, i2: int|
                                0 <= i2 < k2 < j implies kp[i2] != kp[k2] by {
                                assert(kp[i2] == kept@[i2]@.path);
                                assert(kp[k2] == kept@[k2]@.path);
                            }
                            assert(0 <= j < kp.len() && p@ == kp[j]);
                        },
                        _ => {
                            assert(false);
                        },
                    }
                },
            }
        }
        r
    }
}

} // verus!
