use rave_engine::hierarchy::{validate_hierarchy, HierarchyError, HierarchyNode, MapHierarchy};
use rave_engine::map_loading::{resolve_map_links, resolve_open_links, LoadedNode, ParentLink};
use rave_engine::scene_ops::{save_node_ids, SaveEntry, SavedIds, ScriptKind};

fn brick(node_id: u64, parent_node_id: Option<u64>) -> HierarchyNode {
    HierarchyNode { node_id, parent_node_id }
}

fn state(bricks: Vec<HierarchyNode>, scripts: Vec<HierarchyNode>) -> MapHierarchy {
    MapHierarchy { version: 7, bricks, scripts }
}

fn check(state: &MapHierarchy) -> Result<(), &'static str> {
    validate_hierarchy(state).map_err(|e| e.message())
}

#[test]
fn rejects_duplicate_and_invalid_hierarchy_ids() {
    let duplicate = state(vec![brick(1, None), brick(1, None)], vec![]);
    assert_eq!(check(&duplicate), Err("map contains duplicate node IDs"));

    let dangling = state(vec![brick(1, Some(2))], vec![]);
    assert_eq!(check(&dangling), Err("map contains a dangling parent ID"));

    let cycle = state(vec![brick(1, Some(2)), brick(2, Some(1))], vec![]);
    assert_eq!(check(&cycle), Err("map hierarchy contains a cycle"));

    let script = HierarchyNode { node_id: 2, parent_node_id: Some(1) };
    assert!(validate_hierarchy(&state(vec![brick(1, None)], vec![script])).is_ok());
}

#[test]
fn rejects_a_node_that_is_its_own_parent() {
    let own = state(vec![brick(3, Some(3))], vec![]);
    assert_eq!(validate_hierarchy(&own), Err(HierarchyError::SelfParenting));
    assert_eq!(HierarchyError::SelfParenting.message(), "map contains a self-parenting node");
}

#[test]
fn old_maps_skip_the_hierarchy_check() {
    let old = MapHierarchy { version: 5, bricks: vec![brick(1, Some(9)), brick(1, None)], scripts: vec![] };
    assert!(validate_hierarchy(&old).is_ok());
    let first_checked = MapHierarchy { version: 6, bricks: vec![brick(1, Some(9))], scripts: vec![] };
    assert_eq!(validate_hierarchy(&first_checked), Err(HierarchyError::DanglingParent));
}

#[test]
fn accepts_deep_trees_and_empty_maps() {
    assert!(validate_hierarchy(&state(vec![], vec![])).is_ok());
    let chain = state(
        vec![brick(1, None), brick(2, Some(1)), brick(3, Some(2)), brick(4, Some(3))],
        vec![brick(5, Some(4))],
    );
    assert!(validate_hierarchy(&chain).is_ok());
    let long_cycle = state(vec![brick(1, Some(3)), brick(2, Some(1)), brick(3, Some(2)), brick(4, None)], vec![]);
    assert_eq!(validate_hierarchy(&long_cycle), Err(HierarchyError::Cycle));
}

fn node(node_id: u64, parent: Option<u64>, name: &str, parent_name: Option<&str>, entity: u64) -> LoadedNode {
    LoadedNode {
        node_id,
        parent_node_id: parent,
        name: name.to_string(),
        parent_name: parent_name.map(|n| n.to_string()),
        entity,
    }
}

#[test]
fn loading_links_nodes_by_parent_id() {
    let bricks = vec![node(0, None, "Base", None, 100), node(1, Some(0), "Arm", None, 101)];
    let scripts = vec![node(2, Some(1), "Wave", None, 102), node(3, Some(9), "Lost", None, 103)];
    assert_eq!(
        resolve_map_links(7, &bricks, &scripts),
        vec![ParentLink { parent: 100, child: 101 }, ParentLink { parent: 101, child: 102 }]
    );
}

#[test]
fn old_maps_link_scripts_by_a_unique_parent_name() {
    let bricks = vec![node(0, None, "Door", None, 100), node(1, None, "Wall", None, 101), node(2, None, "Wall", None, 102)];
    let scripts = vec![
        node(3, None, "Open", Some("Door"), 200),
        node(4, None, "Paint", Some("Wall"), 201),
        node(5, None, "Ghost", Some("Nowhere"), 202),
    ];
    assert_eq!(resolve_map_links(5, &bricks, &scripts), vec![ParentLink { parent: 100, child: 200 }]);
    assert!(resolve_map_links(6, &bricks, &scripts).is_empty());
}

#[test]
fn opening_a_project_links_scripts_to_the_first_brick_named() {
    let bricks = vec![node(0, None, "Wall", None, 100), node(1, None, "Wall", None, 101)];
    let scripts = vec![node(2, None, "Paint", Some("Wall"), 200), node(3, Some(1), "Trim", None, 201)];
    assert_eq!(
        resolve_open_links(5, &bricks, &scripts),
        vec![ParentLink { parent: 100, child: 200 }, ParentLink { parent: 101, child: 201 }]
    );
}

#[test]
fn saving_numbers_nodes_by_their_place() {
    let items = vec![10, 11, 12];
    let bricks = vec![SaveEntry { entity: 10, parent: None }, SaveEntry { entity: 11, parent: Some(10) }];
    let scripts = vec![SaveEntry { entity: 12, parent: Some(11) }, SaveEntry { entity: 13, parent: Some(99) }];
    let (brick_ids, script_ids) = save_node_ids(&items, &bricks, &scripts);
    assert_eq!(
        brick_ids,
        vec![SavedIds { node_id: 0, parent_node_id: None }, SavedIds { node_id: 1, parent_node_id: Some(0) }]
    );
    assert_eq!(
        script_ids,
        vec![SavedIds { node_id: 2, parent_node_id: Some(1) }, SavedIds { node_id: 3, parent_node_id: None }]
    );
}

#[test]
fn script_kinds_round_trip_through_their_codes() {
    for kind in [ScriptKind::Server, ScriptKind::Local, ScriptKind::Module] {
        assert_eq!(ScriptKind::from_code(kind.code()), kind);
    }
    assert_eq!(ScriptKind::from_code(7), ScriptKind::Module);
}

#[test]
fn saving_and_loading_rebuilds_the_hierarchy() {
    // Scene: brick 10 at the root, brick 11 under it, script 12 under 11.
    let items = vec![10, 11, 12];
    let bricks = vec![SaveEntry { entity: 10, parent: None }, SaveEntry { entity: 11, parent: Some(10) }];
    let scripts = vec![SaveEntry { entity: 12, parent: Some(11) }];
    let (brick_ids, script_ids) = save_node_ids(&items, &bricks, &scripts);

    // Loading spawns new entities 100.. for the saved nodes.
    let loaded = |ids: &SavedIds, entity: u64| LoadedNode {
        node_id: ids.node_id,
        parent_node_id: ids.parent_node_id,
        name: String::new(),
        parent_name: None,
        entity,
    };
    let loaded_bricks = vec![loaded(&brick_ids[0], 100), loaded(&brick_ids[1], 101)];
    let loaded_scripts = vec![loaded(&script_ids[0], 102)];
    let expected = vec![ParentLink { parent: 100, child: 101 }, ParentLink { parent: 101, child: 102 }];
    assert_eq!(resolve_map_links(7, &loaded_bricks, &loaded_scripts), expected);
    assert_eq!(resolve_open_links(7, &loaded_bricks, &loaded_scripts), expected);
}
