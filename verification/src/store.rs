use vstd::prelude::*;

verus! {

#[verifier::external_type_specification]
#[verifier::external_body]
#[verifier::reject_recursive_types(T)]
pub struct ExArena<T>(indextree::Arena<T>);

#[verifier::external_type_specification]
#[verifier::external_body]
pub struct ExNodeId(indextree::NodeId);

#[verifier::external_type_specification]
#[verifier::external_body]
#[verifier::reject_recursive_types(T)]
pub struct ExNode<T>(indextree::Node<T>);

#[verifier::external_type_specification]
#[verifier::external_body]
#[verifier::reject_recursive_types(L)]
#[verifier::reject_recursive_types(R)]
#[verifier::reject_recursive_types(LS)]
#[verifier::reject_recursive_types(RS)]
pub struct ExBiHashMap<L, R, LS, RS>(bimap::BiHashMap<L, R, LS, RS>);

/// What the arena holds: each live node identity mapped to the value
/// stored at its node.
pub uninterp spec fn arena_slots(a: indextree::Arena<usize>) -> Map<indextree::NodeId, int>;

/// The value a node holds, or nothing for a node that was removed.
pub uninterp spec fn node_slot(n: indextree::Node<usize>) -> Option<int>;

/// What the bidirectional index holds: each path mapped to the node
/// identity recorded for it.
pub uninterp spec fn bimap_pairs(m: bimap::BiMap<String, indextree::NodeId>) -> Map<
    Seq<char>,
    indextree::NodeId,
>;

/// The empty contents of a fresh arena.
pub open spec fn no_slots() -> Map<indextree::NodeId, int> {
    Map::empty()
}

/// The empty contents of a fresh bidirectional index.
pub open spec fn no_pairs() -> Map<Seq<char>, indextree::NodeId> {
    Map::empty()
}

/// Relies on indextree::Arena::new: the new arena holds no nodes.
#[verifier::external_body]
pub fn arena_new() -> (r: indextree::Arena<usize>)
    ensures
        arena_slots(r) == no_slots(),
{
    indextree::Arena::new()
}

/// Relies on indextree::Arena::new_node: allocates a node holding `v` and
/// returns its identity, which no live node had before the call.
#[verifier::external_body]
pub fn arena_new_node(a: &mut indextree::Arena<usize>, v: usize) -> (id: indextree::NodeId)
    ensures
        !arena_slots(*old(a)).contains_key(id),
        arena_slots(*final(a)) == arena_slots(*old(a)).insert(id, v as int),
{
    a.new_node(v)
}

/// Relies on indextree::Arena::get: a node comes back exactly for a live
/// identity, and it holds the value recorded for that identity.
#[verifier::external_body]
pub fn arena_get<'a>(a: &'a indextree::Arena<usize>, id: indextree::NodeId) -> (r: Option<
    &'a indextree::Node<usize>,
>)
    ensures
        match r {
            Some(n) => arena_slots(*a).contains_key(id) && node_slot(*n) == Some(
                arena_slots(*a)[id],
            ),
            None => !arena_slots(*a).contains_key(id),
        },
{
    a.get(id)
}

/// Relies on indextree::Node::try_get: hands out the value of a live node
/// and nothing of a removed one.
#[verifier::external_body]
pub fn node_value(n: &indextree::Node<usize>) -> (r: Option<usize>)
    ensures
        match r {
            Some(v) => node_slot(*n) == Some(v as int),
            None => node_slot(*n) is None,
        },
{
    match n.try_get() {
        Some(v) => Some(*v),
        None => None,
    }
}

/// Relies on indextree::NodeId::checked_append: wires `child` as the last
/// child of `parent` in the arena's own sibling links, refuses the cases
/// the crate documents (appending a node to itself or to a descendant,
/// or touching a removed node), and never changes which nodes are live
/// nor what they hold.
#[verifier::external_body]
pub fn arena_append(
    parent: indextree::NodeId,
    child: indextree::NodeId,
    a: &mut indextree::Arena<usize>,
) -> (r: bool)
    ensures
        arena_slots(*final(a)) == arena_slots(*old(a)),
{
    match parent.checked_append(child, a) {
        Ok(()) => true,
        Err(_) => false,
    }
}

/// Relies on bimap::BiHashMap::new: the new map holds no pairs.
#[verifier::external_body]
pub fn bimap_new() -> (r: bimap::BiMap<String, indextree::NodeId>)
    ensures
        bimap_pairs(r) == no_pairs(),
{
    bimap::BiMap::new()
}

/// Relies on bimap::BiHashMap::insert_no_overwrite: the pair goes in
/// exactly when neither the path nor the identity is present yet; on a
/// conflict the map stays as it was.
#[verifier::external_body]
pub fn bimap_insert(
    m: &mut bimap::BiMap<String, indextree::NodeId>,
    path: String,
    id: indextree::NodeId,
) -> (r: bool)
    ensures
        r == (!bimap_pairs(*old(m)).contains_key(path@) && (forall|q: Seq<char>|
            bimap_pairs(*old(m)).contains_key(q) ==> bimap_pairs(*old(m))[q] != id)),
        r ==> bimap_pairs(*final(m)) == bimap_pairs(*old(m)).insert(path@, id),
        !r ==> bimap_pairs(*final(m)) == bimap_pairs(*old(m)),
{
    match m.insert_no_overwrite(path, id) {
        Ok(()) => true,
        Err(_) => false,
    }
}

/// Relies on bimap::BiHashMap::get_by_left: hands out the identity paired
/// with the path exactly when the path is present.
#[verifier::external_body]
pub fn bimap_get_by_left<'a>(m: &'a bimap::BiMap<String, indextree::NodeId>, path: &str) -> (r:
    Option<&'a indextree::NodeId>)
    ensures
        match r {
            Some(id) => bimap_pairs(*m).contains_key(path@) && bimap_pairs(*m)[path@] == *id,
            None => !bimap_pairs(*m).contains_key(path@),
        },
{
    m.get_by_left(path)
}

/// Relies on bimap::BiHashMap::get_by_right: hands out the path paired
/// with the identity exactly when the identity is present.
#[verifier::external_body]
pub fn bimap_get_by_right<'a>(
    m: &'a bimap::BiMap<String, indextree::NodeId>,
    id: &indextree::NodeId,
) -> (r: Option<&'a String>)
    ensures
        match r {
            Some(p) => bimap_pairs(*m).contains_key(p@) && bimap_pairs(*m)[p@] == *id,
            None => forall|q: Seq<char>|
                bimap_pairs(*m).contains_key(q) ==> bimap_pairs(*m)[q] != *id,
        },
{
    m.get_by_right(id)
}

} // verus!
