use rave_engine::editor::DocumentState;
use rave_engine::explorer::{drop_parent, DropTarget};
use rave_engine::gizmos::{toggle_tool, ToolState};
use rave_engine::graphics::{effective_anti_aliasing, AntiAliasing};
use rave_engine::scene::SceneNode;
use rave_engine::services::{check_instance_access, find_first_child_argument, InstanceError};
use rave_engine::snapshot::{capture_editor_snapshot, spawn_plan, ItemSnapshot, SnapshotEntry, SpawnParent};

fn node(entity: u64, name: &str, parent: Option<u64>, children: Vec<u64>, is_brick: bool, is_script: bool) -> SceneNode {
    SceneNode { entity, name: name.to_string(), parent, children, is_brick, is_script }
}

fn script(name: &str) -> ItemSnapshot<u32> {
    ItemSnapshot::Server { name: name.to_string(), code: "print(1)".to_string(), enabled: true }
}

fn parents(s: &[SnapshotEntry<u32>]) -> Vec<Option<usize>> {
    s.iter().map(|e| e.parent).collect()
}

/// Brick 1 holds brick 2 (which holds script 4) and an unknown entity 3
/// (which holds brick 5); 9 is under another parent.
fn scene() -> (Vec<SceneNode>, Vec<(u64, ItemSnapshot<u32>)>) {
    let nodes = vec![
        node(1, "Base", Some(9), vec![2, 3], true, false),
        node(2, "Arm", Some(1), vec![4], true, false),
        node(3, "Light", Some(1), vec![5], false, false),
        node(4, "Wave", Some(2), vec![], false, true),
        node(5, "Hidden", Some(3), vec![], true, false),
        node(9, "Folder", None, vec![1], false, false),
    ];
    let items = vec![(1, ItemSnapshot::Part(10)), (2, ItemSnapshot::Part(20)), (4, script("Wave")), (5, ItemSnapshot::Part(50))];
    (nodes, items)
}

#[test]
fn snapshots_walk_children_in_pre_order() {
    let (nodes, items) = scene();
    let snap = capture_editor_snapshot(1, &nodes, &items).unwrap();
    assert_eq!(snap.len(), 3);
    assert_eq!(parents(&snap), vec![None, Some(0), Some(1)]);
    assert!(matches!(snap[0].item, ItemSnapshot::Part(10)));
    assert!(matches!(snap[1].item, ItemSnapshot::Part(20)));
    assert!(matches!(&snap[2].item, ItemSnapshot::Server { name, .. } if name == "Wave"));
    assert!(capture_editor_snapshot(3, &nodes, &items).is_none());
    assert!(capture_editor_snapshot(77, &nodes, &items).is_none());
}

#[test]
fn spawn_plans_attach_the_root_and_follow_parents() {
    let (nodes, items) = scene();
    let snap = capture_editor_snapshot(1, &nodes, &items).unwrap();
    let plan = spawn_plan(&snap, Some(9));
    let under: Vec<Option<SpawnParent>> = plan.iter().map(|(_, p)| *p).collect();
    assert_eq!(under, vec![Some(SpawnParent::Existing(9)), Some(SpawnParent::Spawned(0)), Some(SpawnParent::Spawned(1))]);
    assert_eq!(spawn_plan(&snap, None)[0].1, None);

    // Respawned as 101, 102, 104 and captured again: the same snapshot.
    let respawned = vec![
        node(101, "Base", None, vec![102], true, false),
        node(102, "Arm", Some(101), vec![104], true, false),
        node(104, "Wave", Some(102), vec![], false, true),
    ];
    let new_items = vec![(101, ItemSnapshot::Part(10)), (102, ItemSnapshot::Part(20)), (104, script("Wave"))];
    let again = capture_editor_snapshot(101, &respawned, &new_items).unwrap();
    assert_eq!(parents(&again), parents(&snap));
}

#[test]
fn saving_errors_are_kept_until_dismissed() {
    let mut doc = DocumentState::new();
    doc.dirty = true;
    doc.save_finished(Err("disk full".to_string()));
    assert!(doc.dirty);
    assert_eq!(doc.error.as_deref(), Some("Could not save project: disk full"));
    doc.dismiss_error();
    assert_eq!(doc.error, None);
    doc.save_finished(Ok(()));
    assert!(!doc.dirty);
}

#[test]
fn tools_toggle_and_msaa_yields_to_ambient_occlusion() {
    assert_eq!(toggle_tool(ToolState::Move, ToolState::Move), ToolState::NoTool);
    assert_eq!(toggle_tool(ToolState::Move, ToolState::Rotate), ToolState::Rotate);
    assert_eq!(toggle_tool(ToolState::NoTool, ToolState::Size), ToolState::Size);
    assert_eq!(effective_anti_aliasing(true, AntiAliasing::Msaa4), AntiAliasing::Fxaa);
    assert_eq!(effective_anti_aliasing(true, AntiAliasing::Off), AntiAliasing::Off);
    assert_eq!(effective_anti_aliasing(false, AntiAliasing::Msaa8), AntiAliasing::Msaa8);
}

#[test]
fn explorer_drops_and_instance_access() {
    let (nodes, _) = scene();
    assert_eq!(drop_parent(2, DropTarget::Workspace, &nodes), Some(None));
    assert_eq!(drop_parent(4, DropTarget::Entity(9), &nodes), Some(Some(9)));
    assert_eq!(drop_parent(1, DropTarget::Entity(4), &nodes), None);
    assert_eq!(drop_parent(1, DropTarget::Entity(1), &nodes), None);

    assert_eq!(check_instance_access(true), Ok(()));
    assert_eq!(check_instance_access(false), Err(InstanceError::Destroyed));
    assert_eq!(InstanceError::Destroyed.message(), "Instance has been destroyed");
    assert_eq!(find_first_child_argument(&vec![Some("Arm".to_string())]), "Arm");
    assert_eq!(find_first_child_argument(&vec![None, Some("Arm".to_string())]), "Arm");
    assert_eq!(find_first_child_argument(&vec![None]), "");
    assert_eq!(find_first_child_argument(&vec![]), "");
}
