use vstd::prelude::*;

use crate::entry::RawEntry;
use crate::paths::{parent_dir, parent_dir_of};
use crate::store::{
    arena_append, arena_get, arena_new, arena_new_node, arena_slots, bimap_get_by_left,
    bimap_get_by_right, bimap_insert, bimap_new, bimap_pairs, node_value,
};
use crate::WalkTreeError;
use vstd::pervasive::unreached;

verus! {

/// The position in `ps` holding exactly the path `p` (meaningful only
/// when such a position exists and the paths are pairwise distinct).
pub open spec fn position_of(ps: Seq<Seq<char>>, p: Seq<char>) -> int {
    choose|j: int| 0 <= j < ps.len() && ps[j] == p
}

/// The parent edge an entry gets: the position of the node whose path is
/// the entry's parent directory, or none when that directory was not
/// collected (such an entry stays a root of the resulting structure).
pub open spec fn parent_link(ps: Seq<Seq<char>>, i: int) -> Option<int> {
    match parent_dir(ps[i]) {
        None => None,
        Some(pd) => if exists|j: int| 0 <= j < ps.len() && ps[j] == pd {
            Some(position_of(ps, pd))
        } else {
            None
        },
    }
}

/// The children of position `p` among the first `n` positions, in
/// sequence order: sibling order replays the order entries arrived in.
pub open spec fn child_positions(ps: Seq<Seq<char>>, p: int, n: int) -> Seq<int>
    decreases n,
{
    if n <= 0 {
        Seq::empty()
    } else if parent_link(ps, n - 1) == Some(p) {
        child_positions(ps, p, n - 1).push(n - 1)
    } else {
        child_positions(ps, p, n - 1)
    }
}

/// The positions among the first `n` that get no parent edge, in
/// sequence order.
pub open spec fn root_positions(ps: Seq<Seq<char>>, n: int) -> Seq<int>
    decreases n,
{
    if n <= 0 {
        Seq::empty()
    } else if parent_link(ps, n - 1) is None {
        root_positions(ps, n - 1).push(n - 1)
    } else {
        root_positions(ps, n - 1)
    }
}

/// Every recorded child position lies among the first `n` positions.
pub proof fn lemma_child_positions_range(ps: Seq<Seq<char>>, p: int, n: int)
    ensures
        forall|k: int|
            0 <= k < child_positions(ps, p, n).len() ==> 0 <= #[trigger] child_positions(
                ps,
                p,
                n,
            )[k] < n,
    decreases n,
{
    if n > 0 {
        lemma_child_positions_range(ps, p, n - 1);
        assert forall|k: int|
            0 <= k < child_positions(ps, p, n).len() implies 0 <= #[trigger] child_positions(
            ps,
            p,
            n,
        )[k] < n by {
            if parent_link(ps, n - 1) == Some(p) {
                if k < child_positions(ps, p, n - 1).len() {
                    assert(child_positions(ps, p, n)[k] == child_positions(ps, p, n - 1)[k]);
                } else {
                    assert(child_positions(ps, p, n)[k] == n - 1);
                }
            } else {
                assert(child_positions(ps, p, n)[k] == child_positions(ps, p, n - 1)[k]);
            }
        }
    }
}

/// Every recorded root position lies among the first `n` positions.
pub proof fn lemma_root_positions_range(ps: Seq<Seq<char>>, n: int)
    ensures
        forall|k: int|
            0 <= k < root_positions(ps, n).len() ==> 0 <= #[trigger] root_positions(ps, n)[k] < n,
    decreases n,
{
    if n > 0 {
        lemma_root_positions_range(ps, n - 1);
        assert forall|k: int|
            0 <= k < root_positions(ps, n).len() implies 0 <= #[trigger] root_positions(ps, n)[k]
            < n by {
            if parent_link(ps, n - 1) is None {
                if k < root_positions(ps, n - 1).len() {
                    assert(root_positions(ps, n)[k] == root_positions(ps, n - 1)[k]);
                } else {
                    assert(root_positions(ps, n)[k] == n - 1);
                }
            } else {
                assert(root_positions(ps, n)[k] == root_positions(ps, n - 1)[k]);
            }
        }
    }
}

/// The assembled, immutable tree: an arena of nodes, a bidirectional
/// path-to-identity index, and the replayed structure (parent edges and
/// ordered children) of the collected entries. Constructed once by the
/// assembler; afterwards it only answers queries.
pub struct WalkTree<T> {
    pub arena: indextree::Arena<usize>,
    pub map: bimap::BiMap<String, indextree::NodeId>,
    ids: Vec<indextree::NodeId>,
    paths: Vec<String>,
    items: Vec<T>,
    parents: Vec<Option<usize>>,
    children: Vec<Vec<usize>>,
}

impl<T> WalkTree<T> {
    /// How many nodes the tree holds.
    pub closed spec fn spec_len(&self) -> int {
        self.ids@.len() as int
    }

    /// The path collected at position `i`.
    pub closed spec fn path_at(&self, i: int) -> Seq<char> {
        self.paths@[i]@
    }

    /// The data stored at position `i`.
    pub closed spec fn item_at(&self, i: int) -> T {
        self.items@[i]
    }

    /// The node identity allocated for position `i`.
    pub closed spec fn id_at(&self, i: int) -> indextree::NodeId {
        self.ids@[i]
    }

    /// The parent position of position `i`, if any.
    pub closed spec fn parent_at(&self, i: int) -> Option<int> {
        match self.parents@[i] {
            Some(j) => Some(j as int),
            None => None,
        }
    }

    /// The ordered child positions of position `i`.
    pub closed spec fn children_at(&self, i: int) -> Seq<int> {
        self.children@[i]@.map_values(|c: usize| c as int)
    }

    /// All collected paths, in sequence order.
    pub closed spec fn paths_view(&self) -> Seq<Seq<char>> {
        Seq::new(self.spec_len() as nat, |i: int| self.path_at(i))
    }

    /// The structural invariant the assembler establishes: the tables
    /// agree in length, paths are pairwise distinct, the bidirectional
    /// index and the arena hold exactly the collected pairs, and parent
    /// edges and ordered children replay the path hierarchy.
    pub closed spec fn well_formed(&self) -> bool {
        let n = self.spec_len();
        &&& self.paths@.len() == n
        &&& self.items@.len() == n
        &&& self.parents@.len() == n
        &&& self.children@.len() == n
        &&& forall|i: int, j: int|
            0 <= i < n && 0 <= j < n && i != j ==> self.path_at(i) != self.path_at(j)
        &&& forall|i: int|
            0 <= i < n ==> #[trigger] bimap_pairs(self.map).contains_key(self.path_at(i))
                && bimap_pairs(self.map)[self.path_at(i)] == self.id_at(i)
        &&& forall|q: Seq<char>|
            #[trigger] bimap_pairs(self.map).contains_key(q) ==> exists|i: int|
                0 <= i < n && self.path_at(i) == q
        &&& forall|i: int|
            0 <= i < n ==> #[trigger] arena_slots(self.arena).contains_key(self.id_at(i))
                && arena_slots(self.arena)[self.id_at(i)] == i
        &&& forall|id: indextree::NodeId|
            #[trigger] arena_slots(self.arena).contains_key(id) ==> exists|i: int|
                0 <= i < n && self.id_at(i) == id
        &&& forall|i: int|
            0 <= i < n ==> self.parent_at(i) == parent_link(self.paths_view(), i)
        &&& forall|p: int|
            0 <= p < n ==> (#[trigger] self.children_at(p)) == child_positions(
                self.paths_view(),
                p,
                n,
            )
    }

    /// Assembles the tree out of the surviving entries and the data the
    /// mapper produced for them, in pipeline order: first every entry
    /// gets a node and the path-to-identity pair goes into the index
    /// (two entries with one path are refused); then every node whose
    /// parent directory was collected is wired under it, in sequence
    /// order among its siblings.
    pub fn build(entries: &Vec<RawEntry>, items: Vec<T>) -> (r: Result<WalkTree<T>, WalkTreeError>)
        requires
            entries@.len() == items@.len(),
        ensures
            match r {
                Ok(t) => {
                    &&& t.well_formed()
                    &&& t.spec_len() == entries@.len()
                    &&& t.paths_view() == entries@.map_values(|e: RawEntry| e@.path)
                    &&& forall|i: int| 0 <= i < entries@.len() ==> t.item_at(i) == items@[i]
                    &&& forall|i: int, j: int|
                        0 <= i < entries@.len() && 0 <= j < entries@.len() && i != j
                            ==> entries@[i]@.path != entries@[j]@.path
                },
                Err(e) => {
                    &&& e matches WalkTreeError::DuplicatePath(p) && exists|j: int|
                        {
                            &&& 0 <= j < entries@.len()
                            &&& p@ == entries@[j]@.path
                            &&& exists|i: int| 0 <= i < j && entries@[i]@.path == entries@[j]@.path
                            &&& forall|k: int, i: int|
                                0 <= i < k < j ==> entries@[i]@.path != entries@[k]@.path
                        }
                },
            },
    {
        let ghost ps = entries@.map_values(|e: RawEntry| e@.path);
        let n = entries.len();
        let mut arena = arena_new();
        let mut map = bimap_new();
        let mut ids: Vec<indextree::NodeId> = Vec::new();
        let mut paths: Vec<String> = Vec::new();
        let mut i: usize = 0;
        while i < n
            invariant
                0 <= i <= n,
                n == entries@.len(),
                ps == entries@.map_values(|e: RawEntry| e@.path),
                ids@.len() == i,
                paths@.len() == i,
                forall|k: int| 0 <= k < i ==> (#[trigger] paths@[k])@ == entries@[k]@.path,
                forall|k: int|
                    0 <= k < i ==> #[trigger] arena_slots(arena).contains_key(ids@[k])
                        && arena_slots(arena)[ids@[k]] == k,
                forall|id: indextree::NodeId|
                    #[trigger] arena_slots(arena).contains_key(id) ==> exists|k: int|
                        0 <= k < i && ids@[k] == id,
                forall|k: int|
                    0 <= k < i ==> #[trigger] bimap_pairs(map).contains_key(entries@[k]@.path)
                        && bimap_pairs(map)[entries@[k]@.path] == ids@[k],
                forall|q: Seq<char>|
                    #[trigger] bimap_pairs(map).contains_key(q) ==> exists|k: int|
                        0 <= k < i && entries@[k]@.path == q,
                forall|k: int, l: int|
                    0 <= k < l < i ==> entries@[k]@.path != entries@[l]@.path,
            decreases n - i,
        {
            let ghost slots0 = arena_slots(arena);
            let ghost pairs0 = bimap_pairs(map);
            let ghost ids0 = ids@;
            let id = arena_new_node(&mut arena, i);
            let ok = bimap_insert(&mut map, entries[i].path.clone(), id);
            if !ok {
                proof {
                    assert forall|q: Seq<char>|
                        bimap_pairs(map).contains_key(q) implies bimap_pairs(map)[q] != id by {
                        let k = choose|k: int|
                            0 <= k < i && entries@[k]@.path == q && bimap_pairs(map).contains_key(
                                q,
                            );
                        assert(bimap_pairs(map)[entries@[k]@.path] == ids@[k]);
                    }
                    assert(bimap_pairs(map).contains_key(entries@[i as int]@.path));
                }
                return Err(WalkTreeError::DuplicatePath(entries[i].path.clone()));
            }
            ids.push(id);
            paths.push(entries[i].path.clone());
            proof {
                assert(ids@[i as int] == id);
                assert(ids@ == ids0.push(id));
                assert forall|idq: indextree::NodeId|
                    #[trigger] arena_slots(arena).contains_key(idq) implies exists|k: int|
                    0 <= k < i + 1 && ids@[k] == idq by {
                    if idq != id {
                        assert(slots0.contains_key(idq));
                        let k = choose|k: int| 0 <= k < i && ids0[k] == idq;
                        assert(ids@[k] == idq);
                    }
                }
                assert forall|q: Seq<char>|
                    #[trigger] bimap_pairs(map).contains_key(q) implies exists|k: int|
                    0 <= k < i + 1 && entries@[k]@.path == q by {
                    if q != entries@[i as int]@.path {
                        assert(pairs0.contains_key(q));
                    }
                }
                assert forall|k: int|
                    0 <= k < i + 1 implies #[trigger] arena_slots(arena).contains_key(ids@[k])
                    && arena_slots(arena)[ids@[k]] == k by {
                    if k < i {
                        assert(slots0.contains_key(ids0[k]) && slots0[ids0[k]] == k);
                        assert(ids@[k] == ids0[k]);
                    }
                }
                assert forall|k: int|
                    0 <= k < i + 1 implies #[trigger] bimap_pairs(map).contains_key(
                    entries@[k]@.path,
                ) && bimap_pairs(map)[entries@[k]@.path] == ids@[k] by {
                    if k < i {
                        assert(pairs0.contains_key(entries@[k]@.path) && pairs0[entries@[k]@.path]
                            == ids0[k]);
                        assert(entries@[k]@.path != entries@[i as int]@.path);
                        assert(ids@[k] == ids0[k]);
                    }
                }
            }
            i = i + 1;
        }
        let mut parents: Vec<Option<usize>> = Vec::new();
        let mut i: usize = 0;
        while i < n
            invariant
                0 <= i <= n,
                n == entries@.len(),
                ps == entries@.map_values(|e: RawEntry| e@.path),
                ids@.len() == n,
                paths@.len() == n,
                parents@.len() == i,
                forall|k: int| 0 <= k < n ==> (#[trigger] paths@[k])@ == entries@[k]@.path,
                forall|k: int|
                    0 <= k < n ==> #[trigger] arena_slots(arena).contains_key(ids@[k])
                        && arena_slots(arena)[ids@[k]] == k,
                forall|id: indextree::NodeId|
                    #[trigger] arena_slots(arena).contains_key(id) ==> exists|k: int|
                        0 <= k < n && ids@[k] == id,
                forall|k: int|
                    0 <= k < n ==> #[trigger] bimap_pairs(map).contains_key(entries@[k]@.path)
                        && bimap_pairs(map)[entries@[k]@.path] == ids@[k],
                forall|q: Seq<char>|
                    #[trigger] bimap_pairs(map).contains_key(q) ==> exists|k: int|
                        0 <= k < n && entries@[k]@.path == q,
                forall|k: int, l: int|
                    0 <= k < l < n ==> entries@[k]@.path != entries@[l]@.path,
                forall|k: int|
                    0 <= k < i ==> (match #[trigger] parents@[k] {
                        Some(j) => parent_link(ps, k) == Some(j as int),
                        None => parent_link(ps, k) is None,
                    }),
            decreases n - i,
        {
            proof {
                assert(ps[i as int] == entries@[i as int]@.path);
            }
            match parent_dir_of(paths[i].as_str()) {
                None => {
                    parents.push(None);
                },
                Some(pd) => {
                    match bimap_get_by_left(&map, pd.as_str()) {
                        None => {
                            proof {
                                assert forall|j: int| 0 <= j < n implies ps[j] != pd@ by {
                                    if ps[j] == pd@ {
                                        assert(bimap_pairs(map).contains_key(
                                            entries@[j]@.path,
                                        ));
                                    }
                                }
                            }
                            parents.push(None);
                        },
                        Some(pid) => {
                            let ghost k = choose|k: int|
                                0 <= k < n && entries@[k]@.path == pd@;
                            proof {
                                assert(bimap_pairs(map)[entries@[k]@.path] == ids@[k]);
                                assert(ids@[k] == *pid);
                                assert(arena_slots(arena).contains_key(*pid));
                                assert(arena_slots(arena)[*pid] == k);
                            }
                            let j = match arena_get(&arena, *pid) {
                                Some(nd) => match node_value(nd) {
                                    Some(v) => v,
                                    None => unreached(),
                                },
                                None => unreached(),
                            };
                            proof {
                                assert(j == k);
                                assert(ps[k] == pd@);
                                assert(parent_link(ps, i as int) == Some(
                                    position_of(ps, pd@),
                                ));
                                let j2 = position_of(ps, pd@);
                                assert(0 <= j2 < n && ps[j2] == pd@);
                                if j2 != k {
                                    assert(entries@[j2]@.path == entries@[k]@.path);
                                }
                            }
                            parents.push(Some(j));
                            let _linked = arena_append(*pid, ids[i], &mut arena);
                        },
                    }
                },
            }
            i = i + 1;
        }
        let mut children: Vec<Vec<usize>> = Vec::new();
        let mut p: usize = 0;
        while p < n
            invariant
                0 <= p <= n,
                n == entries@.len(),
                parents@.len() == n,
                children@.len() == p,
                forall|k: int|
                    0 <= k < n ==> (match #[trigger] parents@[k] {
                        Some(j) => parent_link(ps, k) == Some(j as int),
                        None => parent_link(ps, k) is None,
                    }),
                forall|q: int|
                    0 <= q < p ==> (#[trigger] children@[q])@.map_values(|c: usize| c as int)
                        == child_positions(ps, q, n as int),
            decreases n - p,
        {
            let mut c: Vec<usize> = Vec::new();
            let mut i: usize = 0;
            while i < n
                invariant
                    0 <= i <= n,
                    0 <= p < n,
                    n == entries@.len(),
                    parents@.len() == n,
                    forall|k: int|
                        0 <= k < n ==> (match #[trigger] parents@[k] {
                            Some(j) => parent_link(ps, k) == Some(j as int),
                            None => parent_link(ps, k) is None,
                        }),
                    c@.map_values(|u: usize| u as int) == child_positions(ps, p as int, i as int),
                decreases n - i,
            {
                let is_child = match parents[i] {
                    Some(q) => q == p,
                    None => false,
                };
                proof {
                    assert(child_positions(ps, p as int, i + 1) == if parent_link(ps, i as int)
                        == Some(p as int) {
                        child_positions(ps, p as int, i as int).push(i as int)
                    } else {
                        child_positions(ps, p as int, i as int)
                    });
                }
                if is_child {
                    c.push(i);
                    proof {
                        assert(c@.map_values(|u: usize| u as int) =~= child_positions(
                            ps,
                            p as int,
                            i + 1,
                        ));
                    }
                }
                i = i + 1;
            }
            children.push(c);
            p = p + 1;
        }
        let t = WalkTree { arena, map, ids, paths, items, parents, children };
        proof {
            assert(t.paths_view() =~= ps);
            assert forall|q: Seq<char>|
                #[trigger] bimap_pairs(t.map).contains_key(q) implies exists|i: int|
                0 <= i < t.spec_len() && t.path_at(i) == q by {
                let k = choose|k: int| 0 <= k < n && entries@[k]@.path == q;
                assert(t.path_at(k) == q);
            }
            assert forall|id: indextree::NodeId|
                #[trigger] arena_slots(t.arena).contains_key(id) implies exists|i: int|
                0 <= i < t.spec_len() && t.id_at(i) == id by {
                let k = choose|k: int| 0 <= k < n && t.ids@[k] == id;
                assert(t.id_at(k) == id);
            }
            assert forall|x: int, y: int|
                0 <= x < n && 0 <= y < n && x != y implies t.path_at(x) != t.path_at(y) by {
                if x < y {
                    assert(entries@[x]@.path != entries@[y]@.path);
                } else {
                    assert(entries@[y]@.path != entries@[x]@.path);
                }
            }
            assert forall|x: int| 0 <= x < n implies t.parent_at(x) == parent_link(
                t.paths_view(),
                x,
            ) by {
                assert(match t.parents@[x] {
                    Some(j) => parent_link(ps, x) == Some(j as int),
                    None => parent_link(ps, x) is None,
                });
            }
        }
        Ok(t)
    }

    /// The number of nodes in the tree.
    pub fn len(&self) -> (r: usize)
        requires
            self.well_formed(),
        ensures
            r == self.spec_len(),
    {
        self.ids.len()
    }

    /// The node identity recorded for a path, if the path was collected.
    pub fn get_node_id_by_path<'a>(&'a self, path: &str) -> (r: Option<&'a indextree::NodeId>)
        requires
            self.well_formed(),
        ensures
            match r {
                Some(id) => exists|i: int|
                    0 <= i < self.spec_len() && self.path_at(i) == path@ && *id == self.id_at(i),
                None => forall|i: int| 0 <= i < self.spec_len() ==> self.path_at(i) != path@,
            },
    {
        let r = bimap_get_by_left(&self.map, path);
        proof {
            match r {
                Some(id) => {
                    let i = choose|i: int|
                        0 <= i < self.spec_len() && self.path_at(i) == path@;
                    assert(bimap_pairs(self.map).contains_key(self.path_at(i)));
                },
                None => {
                    assert forall|i: int|
                        0 <= i < self.spec_len() implies self.path_at(i) != path@ by {
                        assert(bimap_pairs(self.map).contains_key(self.path_at(i)));
                    }
                },
            }
        }
        r
    }

    /// The path recorded for a node identity, if the identity belongs to
    /// this tree.
    pub fn get_path_by_node_id<'a>(&'a self, node_id: indextree::NodeId) -> (r: Option<
        &'a String,
    >)
        requires
            self.well_formed(),
        ensures
            match r {
                Some(p) => exists|i: int|
                    0 <= i < self.spec_len() && self.id_at(i) == node_id && p@ == self.path_at(i),
                None => forall|i: int| 0 <= i < self.spec_len() ==> self.id_at(i) != node_id,
            },
    {
        let r = bimap_get_by_right(&self.map, &node_id);
        proof {
            match r {
                Some(p) => {
                    let i = choose|i: int|
                        0 <= i < self.spec_len() && self.path_at(i) == p@;
                    assert(bimap_pairs(self.map).contains_key(self.path_at(i)));
                },
                None => {
                    assert forall|i: int|
                        0 <= i < self.spec_len() implies self.id_at(i) != node_id by {
                        assert(bimap_pairs(self.map).contains_key(self.path_at(i)));
                    }
                },
            }
        }
        r
    }

    /// The position a node identity stands at, if it belongs to this
    /// tree.
    fn position_of_id(&self, node_id: indextree::NodeId) -> (r: Option<usize>)
        requires
            self.well_formed(),
        ensures
            match r {
                Some(j) => 0 <= j < self.spec_len() && self.id_at(j as int) == node_id,
                None => forall|i: int| 0 <= i < self.spec_len() ==> self.id_at(i) != node_id,
            },
    {
        match arena_get(&self.arena, node_id) {
            Some(nd) => {
                proof {
                    let i = choose|i: int|
                        0 <= i < self.spec_len() && self.id_at(i) == node_id;
                    assert(arena_slots(self.arena).contains_key(self.id_at(i)));
                }
                match node_value(nd) {
                    Some(v) => Some(v),
                    None => unreached(),
                }
            },
            None => {
                proof {
                    assert forall|i: int|
                        0 <= i < self.spec_len() implies self.id_at(i) != node_id by {
                        assert(arena_slots(self.arena).contains_key(self.id_at(i)));
                    }
                }
                None
            },
        }
    }

    /// The data stored at a node identity, if it belongs to this tree.
    pub fn get_item_by_node_id<'a>(&'a self, node_id: indextree::NodeId) -> (r: Option<&'a T>)
        requires
            self.well_formed(),
        ensures
            match r {
                Some(t) => exists|i: int|
                    0 <= i < self.spec_len() && self.id_at(i) == node_id && *t == self.item_at(i),
                None => forall|i: int| 0 <= i < self.spec_len() ==> self.id_at(i) != node_id,
            },
    {
        match self.position_of_id(node_id) {
            Some(j) => Some(&self.items[j]),
            None => None,
        }
    }

    /// The data stored at a path, if the path was collected.
    pub fn get_item_by_path<'a>(&'a self, path: &str) -> (r: Option<&'a T>)
        requires
            self.well_formed(),
        ensures
            match r {
                Some(t) => exists|i: int|
                    0 <= i < self.spec_len() && self.path_at(i) == path@ && *t == self.item_at(i),
                None => forall|i: int| 0 <= i < self.spec_len() ==> self.path_at(i) != path@,
            },
    {
        match self.get_node_id_by_path(path) {
            Some(node_id) => {
                let id = *node_id;
                match self.get_item_by_node_id(id) {
                    Some(t) => {
                        proof {
                            let i = choose|i: int|
                                0 <= i < self.spec_len() && self.path_at(i) == path@ && id
                                    == self.id_at(i);
                            let j = choose|j: int|
                                0 <= j < self.spec_len() && self.id_at(j) == id && *t
                                    == self.item_at(j);
                            if i != j {
                                assert(arena_slots(self.arena).contains_key(self.id_at(i)));
                                assert(arena_slots(self.arena).contains_key(self.id_at(j)));
                            }
                        }
                        Some(t)
                    },
                    None => unreached(),
                }
            },
            None => None,
        }
    }

    /// The identity of the parent node, if the node belongs to this tree
    /// and its parent directory was collected.
    pub fn parent_of(&self, node_id: indextree::NodeId) -> (r: Option<indextree::NodeId>)
        requires
            self.well_formed(),
        ensures
            match r {
                Some(pid) => exists|i: int, p: int|
                    {
                        &&& 0 <= i < self.spec_len()
                        &&& self.id_at(i) == node_id
                        &&& self.parent_at(i) == Some(p)
                        &&& 0 <= p < self.spec_len()
                        &&& pid == self.id_at(p)
                    },
                None => forall|i: int|
                    0 <= i < self.spec_len() && self.id_at(i) == node_id ==> self.parent_at(
                        i,
                    ) is None,
            },
    {
        match self.position_of_id(node_id) {
            Some(j) => {
                match self.parents[j] {
                    Some(p) => {
                        proof {
                            assert(self.parent_at(j as int) == parent_link(
                                self.paths_view(),
                                j as int,
                            ));
                            assert(self.parent_at(j as int) == Some(p as int));
                            match parent_dir(self.paths_view()[j as int]) {
                                Some(pd) => {
                                    let pp = position_of(self.paths_view(), pd);
                                    assert(exists|x: int|
                                        0 <= x < self.paths_view().len() && self.paths_view()[x]
                                            == pd);
                                    assert(0 <= pp < self.spec_len() && self.paths_view()[pp]
                                        == pd);
                                    assert(pp == p as int);
                                },
                                None => {
                                    assert(false);
                                },
                            }
                            let wi: int = j as int;
                            let wp: int = p as int;
                            assert(0 <= wi < self.spec_len() && self.id_at(wi) == node_id
                                && self.parent_at(wi) == Some(wp) && 0 <= wp < self.spec_len()
                                && self.ids@[wp] == self.id_at(wp));
                        }
                        Some(self.ids[p])
                    },
                    None => {
                        proof {
                            assert forall|i: int|
                                0 <= i < self.spec_len() && self.id_at(i) == node_id
                                    implies self.parent_at(i) is None by {
                                assert(arena_slots(self.arena).contains_key(self.id_at(i)));
                            }
                        }
                        None
                    },
                }
            },
            None => None,
        }
    }

    /// The identities of the node's children, in preserved sibling
    /// order; empty when the identity is not in this tree.
    pub fn children_of(&self, node_id: indextree::NodeId) -> (r: Vec<indextree::NodeId>)
        requires
            self.well_formed(),
        ensures
            match self.spec_position_of(node_id) {
                Some(j) => r@.len() == self.children_at(j).len() && forall|k: int|
                    0 <= k < r@.len() ==> r@[k] == self.id_at(self.children_at(j)[k]),
                None => r@.len() == 0,
            },
    {
        match self.position_of_id(node_id) {
            Some(j) => {
                proof {
                    assert(self.spec_position_of(node_id) == Some(j as int)) by {
                        let i = choose|i: int|
                            0 <= i < self.spec_len() && self.id_at(i) == node_id;
                        assert(arena_slots(self.arena).contains_key(self.id_at(i)));
                        assert(arena_slots(self.arena).contains_key(self.id_at(j as int)));
                    }
                    lemma_child_positions_range(self.paths_view(), j as int, self.spec_len());
                }
                let cs = &self.children[j];
                let mut r: Vec<indextree::NodeId> = Vec::new();
                let mut k: usize = 0;
                let clen = cs.len();
                while k < clen
                    invariant
                        0 <= k <= clen,
                        self.well_formed(),
                        0 <= j < self.spec_len(),
                        clen == self.children_at(j as int).len(),
                        cs == &self.children[j as int],
                        r@.len() == k,
                        forall|x: int|
                            0 <= x < k ==> r@[x] == self.id_at(self.children_at(j as int)[x]),
                        forall|x: int|
                            0 <= x < clen ==> 0 <= #[trigger] self.children_at(j as int)[x]
                                < self.spec_len(),
                    decreases clen - k,
                {
                    proof {
                        assert(self.children_at(j as int)[k as int] == cs@[k as int] as int);
                    }
                    r.push(self.ids[cs[k]]);
                    k = k + 1;
                }
                r
            },
            None => {
                proof {
                    if exists|i: int| 0 <= i < self.spec_len() && self.id_at(i) == node_id {
                        let i = choose|i: int|
                            0 <= i < self.spec_len() && self.id_at(i) == node_id;
                        assert(self.id_at(i) != node_id);
                    }
                }
                Vec::new()
            },
        }
    }

    /// The position a node identity stands at, at the specification
    /// level.
    pub closed spec fn spec_position_of(&self, node_id: indextree::NodeId) -> Option<int> {
        if exists|i: int| 0 <= i < self.spec_len() && self.id_at(i) == node_id {
            Some(choose|i: int| 0 <= i < self.spec_len() && self.id_at(i) == node_id)
        } else {
            None
        }
    }

    /// The identities of the nodes without a parent edge, in sequence
    /// order.
    pub fn roots(&self) -> (r: Vec<indextree::NodeId>)
        requires
            self.well_formed(),
        ensures
            r@.len() == root_positions(self.paths_view(), self.spec_len()).len(),
            forall|k: int|
                0 <= k < r@.len() ==> r@[k] == self.id_at(
                    root_positions(self.paths_view(), self.spec_len())[k],
                ),
    {
        proof {
            lemma_root_positions_range(self.paths_view(), self.spec_len());
        }
        let n = self.ids.len();
        let mut r: Vec<indextree::NodeId> = Vec::new();
        let mut i: usize = 0;
        while i < n
            invariant
                0 <= i <= n,
                self.well_formed(),
                n == self.spec_len(),
                r@.len() == root_positions(self.paths_view(), i as int).len(),
                forall|k: int|
                    0 <= k < r@.len() ==> r@[k] == self.id_at(
                        root_positions(self.paths_view(), i as int)[k],
                    ),
                forall|k: int|
                    0 <= k < root_positions(self.paths_view(), n as int).len() ==> 0
                        <= #[trigger] root_positions(self.paths_view(), n as int)[k] < n,
            decreases n - i,
        {
            proof {
                lemma_root_positions_range(self.paths_view(), i + 1);
                assert(self.parent_at(i as int) == parent_link(self.paths_view(), i as int));
            }
            let is_root = match self.parents[i] {
                Some(_) => false,
                None => true,
            };
            if is_root {
                r.push(self.ids[i]);
            }
            i = i + 1;
        }
        r
    }
}

/// Bijection: within a well-formed tree, paths and node identities pair
/// off one to one — two positions with one path, or with one identity,
/// are the same position, and each position's path and identity lead to
/// each other through the index and the arena.
pub proof fn lemma_index_bijection<T>(t: &WalkTree<T>, i: int, j: int)
    requires
        t.well_formed(),
        0 <= i < t.spec_len(),
        0 <= j < t.spec_len(),
    ensures
        t.path_at(i) == t.path_at(j) ==> i == j,
        t.id_at(i) == t.id_at(j) ==> i == j,
{
    assert(arena_slots(t.arena).contains_key(t.id_at(i)));
    assert(arena_slots(t.arena).contains_key(t.id_at(j)));
    assert(bimap_pairs(t.map).contains_key(t.path_at(i)));
}

/// Parent consistency: a node whose path's parent directory was
/// collected hangs under exactly the node holding that directory; one
/// whose parent directory is absent (or whose path has none) stays a
/// root.
pub proof fn lemma_parent_consistency<T>(t: &WalkTree<T>, i: int)
    requires
        t.well_formed(),
        0 <= i < t.spec_len(),
    ensures
        match parent_dir(t.path_at(i)) {
            Some(pd) => {
                &&& (exists|j: int| 0 <= j < t.spec_len() && t.path_at(j) == pd) ==> (
                t.parent_at(i) matches Some(p) && 0 <= p < t.spec_len() && t.path_at(p) == pd)
                &&& (forall|j: int| 0 <= j < t.spec_len() ==> t.path_at(j) != pd)
                    ==> t.parent_at(i) is None
            },
            None => t.parent_at(i) is None,
        },
{
    let pv = t.paths_view();
    assert(pv[i] == t.path_at(i));
    assert(t.parent_at(i) == parent_link(pv, i));
    match parent_dir(t.path_at(i)) {
        Some(pd) => {
            if exists|j: int| 0 <= j < t.spec_len() && t.path_at(j) == pd {
                let j = choose|j: int| 0 <= j < t.spec_len() && t.path_at(j) == pd;
                assert(pv[j] == pd);
                let p = position_of(pv, pd);
                assert(0 <= p < pv.len() && pv[p] == pd);
                assert(t.path_at(p) == pd);
            } else {
                if exists|x: int| 0 <= x < pv.len() && pv[x] == pd {
                    let x = choose|x: int| 0 <= x < pv.len() && pv[x] == pd;
                    assert(t.path_at(x) == pd);
                }
            }
        },
        None => {},
    }
}

/// Sibling order preservation and the idempotent round trip: two
/// well-formed trees whose collected paths agree position by position
/// carry the same parent edges and the same ordered children, whatever
/// identities their arenas handed out and whatever data they store.
pub proof fn lemma_content_determined<T, U>(t1: &WalkTree<T>, t2: &WalkTree<U>)
    requires
        t1.well_formed(),
        t2.well_formed(),
        t1.paths_view() == t2.paths_view(),
    ensures
        t1.spec_len() == t2.spec_len(),
        forall|i: int| 0 <= i < t1.spec_len() ==> t1.parent_at(i) == t2.parent_at(i),
        forall|p: int| 0 <= p < t1.spec_len() ==> t1.children_at(p) == t2.children_at(p),
{
    assert(t1.spec_len() == t1.paths_view().len());
    assert(t2.spec_len() == t2.paths_view().len());
}

} // verus!
