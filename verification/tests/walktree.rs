use walktree::{
    ConfigurationError, PathMapper, RawEntry, RejectPath, TraversalError, WalkDirOption, WalkTree,
    WalkTreeBuilder, WalkTreeError,
};

fn entry(path: &str, is_dir: bool) -> Result<RawEntry, TraversalError> {
    Ok(RawEntry::new(path.to_string(), is_dir))
}

fn must_fail<T>(r: Result<WalkTree<T>, WalkTreeError>) -> WalkTreeError {
    match r {
        Ok(_) => panic!("expected the construction to fail"),
        Err(e) => e,
    }
}

#[test]
fn example_layout() {
    let entries = vec![
        entry("/r", true),
        entry("/r/a", true),
        entry("/r/a/x", false),
        entry("/r/b", false),
    ];
    let t = WalkTree::<String>::load("/r")
        .with_map(PathMapper)
        .with_walkdir_mode(WalkDirOption::SortByFileName)
        .walk(entries)
        .unwrap();
    assert_eq!(t.len(), 4);
    let rid = *t.get_node_id_by_path("/r").unwrap();
    let aid = *t.get_node_id_by_path("/r/a").unwrap();
    let xid = *t.get_node_id_by_path("/r/a/x").unwrap();
    let bid = *t.get_node_id_by_path("/r/b").unwrap();
    assert_eq!(t.children_of(rid), vec![aid, bid]);
    assert_eq!(t.children_of(aid), vec![xid]);
    assert_eq!(t.children_of(bid), Vec::new());
    assert_eq!(t.parent_of(xid), Some(aid));
    assert_eq!(t.parent_of(aid), Some(rid));
    assert_eq!(t.parent_of(rid), None);
    assert_eq!(t.roots(), vec![rid]);
}

#[test]
fn bijection_round_trip() {
    let entries = vec![entry("/r", true), entry("/r/a", true), entry("/r/b", false)];
    let t = WalkTree::<String>::load("/r")
        .with_map(PathMapper)
        .walk(entries)
        .unwrap();
    for path in ["/r", "/r/a", "/r/b"] {
        let id = *t.get_node_id_by_path(path).unwrap();
        assert_eq!(t.get_path_by_node_id(id).unwrap().as_str(), path);
        let back = *t
            .get_node_id_by_path(t.get_path_by_node_id(id).unwrap().as_str())
            .unwrap();
        assert_eq!(back, id);
    }
}

#[test]
fn items_by_path_and_node() {
    let entries = vec![entry("/r", true), entry("/r/a", true), entry("/r/a/x", false)];
    let t = WalkTree::<String>::load("/r")
        .with_map(PathMapper)
        .walk(entries)
        .unwrap();
    assert_eq!(t.get_item_by_path("/r/a").unwrap().as_str(), "/r/a");
    let id = *t.get_node_id_by_path("/r/a/x").unwrap();
    assert_eq!(t.get_item_by_node_id(id).unwrap().as_str(), "/r/a/x");
    assert!(t.get_item_by_path("/r/c").is_none());
}

#[test]
fn example_prune() {
    let entries = vec![
        entry("/r", true),
        entry("/r/a", true),
        entry("/r/a/x", false),
        entry("/r/b", false),
    ];
    let t = WalkTree::<String>::load("/r")
        .with_fliter(RejectPath { path: "/r/a".to_string() })
        .with_map(PathMapper)
        .walk(entries)
        .unwrap();
    assert_eq!(t.len(), 2);
    assert!(t.get_node_id_by_path("/r").is_some());
    assert!(t.get_node_id_by_path("/r/b").is_some());
    assert!(t.get_node_id_by_path("/r/a").is_none());
    assert!(t.get_node_id_by_path("/r/a/x").is_none());
}

#[test]
fn prune_rejected_file_keeps_rest() {
    let entries = vec![entry("/r", true), entry("/r/a", false), entry("/r/b", false)];
    let t = WalkTree::<String>::load("/r")
        .with_fliter(RejectPath { path: "/r/a".to_string() })
        .with_map(PathMapper)
        .walk(entries)
        .unwrap();
    assert_eq!(t.len(), 2);
    assert!(t.get_node_id_by_path("/r/a").is_none());
    assert!(t.get_node_id_by_path("/r/b").is_some());
}

#[test]
fn example_duplicate() {
    let entries = vec![entry("/r", true), entry("/r/a", true), entry("/r/a", true)];
    let err = must_fail(WalkTree::<String>::load("/r").with_map(PathMapper).walk(entries));
    match err {
        WalkTreeError::DuplicatePath(p) => assert_eq!(p.as_str(), "/r/a"),
        other => panic!("expected a duplicate path failure, got {:?}", other),
    }
}

#[test]
fn orphan_becomes_root() {
    let entries = vec![entry("/r/a/x", false), entry("/r/b", false)];
    let t = WalkTree::<String>::load("/r")
        .with_map(PathMapper)
        .walk(entries)
        .unwrap();
    let xid = *t.get_node_id_by_path("/r/a/x").unwrap();
    let bid = *t.get_node_id_by_path("/r/b").unwrap();
    assert_eq!(t.parent_of(xid), None);
    assert_eq!(t.roots(), vec![xid, bid]);
}

#[test]
fn sibling_order_preserved() {
    let entries = vec![
        entry("/r", true),
        entry("/r/c", false),
        entry("/r/a", false),
        entry("/r/b", false),
    ];
    let t = WalkTree::<String>::load("/r")
        .with_map(PathMapper)
        .walk(entries)
        .unwrap();
    let rid = *t.get_node_id_by_path("/r").unwrap();
    let cid = *t.get_node_id_by_path("/r/c").unwrap();
    let aid = *t.get_node_id_by_path("/r/a").unwrap();
    let bid = *t.get_node_id_by_path("/r/b").unwrap();
    assert_eq!(t.children_of(rid), vec![cid, aid, bid]);
}

#[test]
fn idempotent_round_trip() {
    let make = || {
        vec![
            entry("/r", true),
            entry("/r/a", true),
            entry("/r/a/x", false),
            entry("/r/b", false),
        ]
    };
    let t1 = WalkTree::<String>::load("/r")
        .with_map(PathMapper)
        .walk(make())
        .unwrap();
    let t2 = WalkTree::<String>::load("/r")
        .with_map(PathMapper)
        .walk(make())
        .unwrap();
    assert_eq!(t1.len(), t2.len());
    for path in ["/r", "/r/a", "/r/a/x", "/r/b"] {
        let id1 = *t1.get_node_id_by_path(path).unwrap();
        let id2 = *t2.get_node_id_by_path(path).unwrap();
        assert_eq!(t1.get_item_by_node_id(id1), t2.get_item_by_node_id(id2));
        let c1: Vec<String> = t1
            .children_of(id1)
            .into_iter()
            .map(|c| t1.get_path_by_node_id(c).unwrap().clone())
            .collect();
        let c2: Vec<String> = t2
            .children_of(id2)
            .into_iter()
            .map(|c| t2.get_path_by_node_id(c).unwrap().clone())
            .collect();
        assert_eq!(c1, c2);
    }
}

#[test]
fn missing_mapper_is_refused() {
    let err = must_fail(WalkTreeBuilder::load("/r").walk(vec![entry("/r", true)]));
    assert_eq!(
        err,
        WalkTreeError::Configuration(ConfigurationError::MissingMapper)
    );
}

#[test]
fn conflicting_sorts_are_refused() {
    let err = must_fail(
        WalkTree::<String>::load("/r")
            .with_map(PathMapper)
            .with_walkdir_mode(WalkDirOption::SortByFileName)
            .with_walkdir_mode(WalkDirOption::SortBy)
            .walk(vec![entry("/r", true)]),
    );
    assert_eq!(
        err,
        WalkTreeError::Configuration(ConfigurationError::MultipleSortDisciplines)
    );
}

#[test]
fn depth_conflict_is_refused() {
    let err = must_fail(
        WalkTree::<String>::load("/r")
            .with_map(PathMapper)
            .with_walkdir_mode(WalkDirOption::MinDepth(3))
            .with_walkdir_mode(WalkDirOption::MaxDepth(1))
            .walk(vec![entry("/r", true)]),
    );
    assert_eq!(
        err,
        WalkTreeError::Configuration(ConfigurationError::MinDepthExceedsMaxDepth)
    );
}

#[test]
fn compatible_depths_pass() {
    let t = WalkTree::<String>::load("/r")
        .with_map(PathMapper)
        .with_walkdir_mode(WalkDirOption::MinDepth(1))
        .with_walkdir_mode(WalkDirOption::MaxDepth(3))
        .with_walkdir_mode(WalkDirOption::FollowLinks)
        .walk(vec![entry("/r", true)])
        .unwrap();
    assert_eq!(t.len(), 1);
}

#[test]
fn traversal_failure_aborts() {
    let entries = vec![
        entry("/r", true),
        Err(TraversalError { context: "permission denied: /r/a".to_string() }),
        entry("/r/b", false),
    ];
    let err = must_fail(WalkTree::<String>::load("/r").with_map(PathMapper).walk(entries));
    match err {
        WalkTreeError::Traversal(t) => {
            assert_eq!(t.context.as_str(), "permission denied: /r/a")
        },
        other => panic!("expected a traversal failure, got {:?}", other),
    }
}

#[test]
fn parent_directories() {
    assert_eq!(walktree::paths::parent_dir_of("/r/a/x").unwrap().as_str(), "/r/a");
    assert_eq!(walktree::paths::parent_dir_of("/r").unwrap().as_str(), "/");
    assert!(walktree::paths::parent_dir_of("/").is_none());
    assert!(walktree::paths::parent_dir_of("x").is_none());
}

#[test]
fn strict_ancestors() {
    assert!(walktree::paths::is_strict_ancestor_of("/r/a", "/r/a/x"));
    assert!(walktree::paths::is_strict_ancestor_of("/", "/r"));
    assert!(!walktree::paths::is_strict_ancestor_of("/r/a", "/r/ab"));
    assert!(!walktree::paths::is_strict_ancestor_of("/r/a", "/r/a"));
    assert!(!walktree::paths::is_strict_ancestor_of("/r/b", "/r/a/x"));
}
