use rave_engine::deletion::{capture_trees, delete_selection, record_spawned_trees};
use rave_engine::editor::DocumentState;
use rave_engine::onboarding::{
    onboarding_active, onboarding_step, template_bricks, OnboardingEvent, OnboardingState, SelectedTemplate,
};
use rave_engine::physics::{anchored, can_collide, set_anchored, set_can_collide, BodyKind, PhysicsSwitches};
use rave_engine::properties::{click_flag, flag_control, FlagControl};
use rave_engine::scene::SceneNode;
use rave_engine::selection::Selection;
use rave_engine::services::{cache_service_entities, NamedEntity, ServiceEntities};
use rave_engine::snapshot::{capture_editor_snapshot, spawn_plan, ItemSnapshot, SpawnParent};
use rave_engine::undo::{Trees, UndoCommand, UndoEffect, UndoRedoHistory};

fn node(entity: u64, name: &str, parent: Option<u64>, children: Vec<u64>, is_brick: bool) -> SceneNode {
    SceneNode { entity, name: name.to_string(), parent, children, is_brick, is_script: false }
}

/// Folder 9 holds brick 1, which holds brick 2; brick 3 stands alone.
fn scene() -> (Vec<SceneNode>, Vec<(u64, ItemSnapshot<u32>)>) {
    let nodes = vec![
        node(9, "Folder", None, vec![1], false),
        node(1, "Base", Some(9), vec![2], true),
        node(2, "Arm", Some(1), vec![], true),
        node(3, "Loose", None, vec![], true),
    ];
    let items = vec![(1, ItemSnapshot::Part(10)), (2, ItemSnapshot::Part(20)), (3, ItemSnapshot::Part(30))];
    (nodes, items)
}

fn roots_of(t: &Trees<u32>) -> Vec<u64> {
    let mut out = Vec::new();
    let mut cur = t;
    while let Trees::Tree { root, rest, .. } = cur {
        out.push(*root);
        cur = &**rest;
    }
    out
}

#[test]
fn deleting_the_selection_records_one_undoable_tree_delete() {
    let (nodes, items) = scene();
    let mut history: UndoRedoHistory<i32, u32> = UndoRedoHistory::new();
    history.redo_stack.push(UndoCommand::TransformChange { entity: 7, old_transform: 0, new_transform: 1 });
    let mut selection = Selection::new();
    selection.select_only(1);
    selection.entities.push(2);
    selection.entities.push(3);
    let mut document = DocumentState::new();

    let despawn = delete_selection(&mut history, &mut selection, &mut document, &nodes, &items);

    assert_eq!(despawn, vec![1, 3]);
    assert_eq!((selection.entity, selection.entities.clone()), (None, vec![]));
    assert!(document.dirty);
    assert_eq!(history.undo_stack.len(), 1);
    assert!(history.redo_stack.is_empty());
    match &history.undo_stack[0] {
        UndoCommand::DeleteTrees { trees } => {
            assert_eq!(roots_of(trees), vec![1, 3]);
            match trees {
                Trees::Tree { parent, snapshot, .. } => {
                    assert_eq!(*parent, Some(9));
                    assert_eq!(snapshot.len(), 2);
                }
                Trees::Empty => panic!("expected a subtree"),
            }
        }
        _ => panic!("expected a tree delete"),
    }
}

#[test]
fn deleting_nothing_capturable_leaves_the_history() {
    let (nodes, items) = scene();
    let mut history: UndoRedoHistory<i32, u32> = UndoRedoHistory::new();
    let mut selection = Selection::new();
    selection.select_only(9);
    let mut document = DocumentState::new();
    let despawn = delete_selection(&mut history, &mut selection, &mut document, &nodes, &items);
    assert_eq!(despawn, vec![9]);
    assert!(history.undo_stack.is_empty());
    assert!(matches!(capture_trees(&vec![9], &nodes, &items), Trees::Empty));
    assert!(document.dirty);
}

#[test]
fn a_tree_delete_round_trips_through_undo_and_redo() {
    let (nodes, items) = scene();
    let mut history: UndoRedoHistory<i32, u32> = UndoRedoHistory::new();
    let mut selection = Selection::new();
    selection.select_only(1);
    let mut document = DocumentState::new();
    delete_selection(&mut history, &mut selection, &mut document, &nodes, &items);

    selection.select_only(1);
    let trees = match history.undo(&mut selection) {
        UndoEffect::RespawnTrees { trees, undoing } => {
            assert!(undoing);
            trees
        }
        _ => panic!("expected a respawn of the trees"),
    };
    assert_eq!(roots_of(&trees), vec![1]);
    history.respawned_trees(&vec![1], &vec![41], trees, true, &mut selection);
    assert_eq!((selection.entity, selection.entities.clone()), (Some(41), vec![41]));
    assert!(history.undo_stack.is_empty());
    assert_eq!(history.redo_stack.len(), 1);

    match history.redo(&mut selection) {
        UndoEffect::DespawnTrees { roots } => assert_eq!(roots, vec![41]),
        _ => panic!("expected the new root to be despawned"),
    }
    assert_eq!((selection.entity, selection.entities.clone()), (None, vec![]));
    assert_eq!(history.undo_stack.len(), 1);
    match &history.undo_stack[0] {
        UndoCommand::DeleteTrees { trees } => assert_eq!(roots_of(trees), vec![41]),
        _ => panic!("expected a tree delete"),
    }
}

#[test]
fn undoing_a_tree_spawn_despawns_and_deselects_its_roots() {
    let (nodes, items) = scene();
    let trees = capture_trees(&vec![3], &nodes, &items);
    let mut history: UndoRedoHistory<i32, u32> = UndoRedoHistory::new();
    history.push_command(UndoCommand::SpawnTrees { trees });
    let mut selection = Selection::new();
    selection.select_only(3);
    match history.undo(&mut selection) {
        UndoEffect::DespawnTrees { roots } => assert_eq!(roots, vec![3]),
        _ => panic!("expected a despawn"),
    }
    assert_eq!((selection.entity, selection.entities.clone()), (None, vec![]));
    assert_eq!(history.redo_stack.len(), 1);
    match history.redo(&mut selection) {
        UndoEffect::RespawnTrees { undoing, .. } => assert!(!undoing),
        _ => panic!("expected a respawn"),
    }
}

#[test]
fn a_respawned_subtree_captures_back_amid_other_entities() {
    let (nodes, items) = scene();
    let snap = capture_editor_snapshot(1, &nodes, &items).unwrap();
    let plan = spawn_plan(&snap, Some(9));
    assert_eq!(plan[0].1, Some(SpawnParent::Existing(9)));
    // The plan is spawned as 50 (under 9) and 51 (under 50) in a scene that
    // still holds everything else.
    let (mut nodes2, mut items2) = scene();
    nodes2.push(node(50, "Base", Some(9), vec![51], true));
    nodes2.push(node(51, "Arm", Some(50), vec![], true));
    items2.push((50, ItemSnapshot::Part(10)));
    items2.push((51, ItemSnapshot::Part(20)));
    let again = capture_editor_snapshot(50, &nodes2, &items2).unwrap();
    assert_eq!(again.len(), snap.len());
    for k in 0..snap.len() {
        assert_eq!(again[k].parent, snap[k].parent);
        assert!(matches!((&again[k].item, &snap[k].item), (ItemSnapshot::Part(a), ItemSnapshot::Part(b)) if a == b));
    }
}

#[test]
fn the_welcome_dialog_walks_through_its_steps() {
    let a = onboarding_step(OnboardingState::TemplateSelection, SelectedTemplate::Empty, OnboardingEvent::ChooseTemplate(SelectedTemplate::Baseplate));
    assert_eq!((a.state, a.template, a.create_project), (OnboardingState::BasicInfo, SelectedTemplate::Baseplate, false));
    let b = onboarding_step(a.state, a.template, OnboardingEvent::Create);
    assert_eq!((b.state, b.template, b.create_project), (OnboardingState::Login, SelectedTemplate::Baseplate, true));
    let c = onboarding_step(b.state, b.template, OnboardingEvent::SkipLogin);
    assert_eq!((c.state, c.create_project), (OnboardingState::Inactive, false));
    assert!(!onboarding_active(c.state));
    assert!(onboarding_active(b.state));
    let d = onboarding_step(c.state, c.template, OnboardingEvent::Create);
    assert_eq!((d.state, d.create_project), (OnboardingState::Inactive, false));
    let e = onboarding_step(c.state, c.template, OnboardingEvent::NewDocument);
    assert_eq!(e.state, OnboardingState::TemplateSelection);
}

#[test]
fn new_projects_hold_the_template_bricks() {
    assert!(template_bricks(SelectedTemplate::Empty).is_empty());
    let bricks = template_bricks(SelectedTemplate::Baseplate);
    let summary: Vec<(u64, String, bool)> = bricks.iter().map(|b| (b.node_id, b.name.clone(), b.physics_enabled)).collect();
    assert_eq!(summary, vec![(0, "Baseplate".to_string(), false), (1, "Part0".to_string(), true)]);
}

#[test]
fn scripts_read_back_anchored_and_can_collide() {
    let defaults = PhysicsSwitches { enabled: true, player_can_collide: true };
    let (p, kind) = set_anchored(None, defaults, true);
    assert_eq!(p, PhysicsSwitches { enabled: false, player_can_collide: true });
    assert_eq!(kind, BodyKind::Static);
    assert!(anchored(Some(p.enabled)));
    let (q, kind) = set_anchored(Some(p), defaults, false);
    assert_eq!((q.enabled, kind), (true, BodyKind::Dynamic));
    let (r, layers) = set_can_collide(Some(q), defaults, false);
    assert_eq!(r, PhysicsSwitches { enabled: true, player_can_collide: false });
    assert_eq!(layers, (0b0100, 0xFFFF_FFFD));
    assert!(!can_collide(Some(r.player_can_collide)));
    assert_eq!(set_can_collide(None, defaults, true).1, (0b0001, 0xFFFF_FFFF));
}

#[test]
fn mixed_physics_flags_show_a_button_that_turns_them_on() {
    let mixed = vec![Some(true), Some(false), None];
    assert_eq!(flag_control(&mixed), FlagControl::Mixed);
    let after = click_flag(&mixed);
    assert_eq!(after, vec![Some(true), Some(true), None]);
    assert_eq!(flag_control(&after), FlagControl::Checkbox(true));

    let uniform = vec![Some(false), Some(false)];
    assert_eq!(flag_control(&uniform), FlagControl::Checkbox(false));
    let once = click_flag(&uniform);
    assert_eq!(once, vec![Some(true), Some(true)]);
    assert_eq!(click_flag(&once), uniform);

    assert_eq!(flag_control(&vec![None, Some(false)]), FlagControl::Hidden);
    assert_eq!(flag_control(&vec![Some(true), None]), FlagControl::Checkbox(true));
}

#[test]
fn the_service_cache_goes_by_each_entity_first_name() {
    let named = vec![
        NamedEntity { entity: 5, name: "Model".to_string() },
        NamedEntity { entity: 5, name: "Workspace".to_string() },
        NamedEntity { entity: 6, name: "Workspace".to_string() },
        NamedEntity { entity: 7, name: "Players".to_string() },
    ];
    let mut cache = ServiceEntities { workspace: Some(5), players: None, lighting: Some(8) };
    cache_service_entities(&mut cache, &named);
    assert_eq!(cache, ServiceEntities { workspace: Some(6), players: Some(7), lighting: None });
}

#[test]
fn a_duplicate_is_recorded_selected_and_undone_as_one_spawn() {
    let (nodes, items) = scene();
    let mut history: UndoRedoHistory<i32, u32> = UndoRedoHistory::new();
    let mut selection = Selection::new();
    let mut document = DocumentState::new();

    let none = record_spawned_trees(&mut history, &mut selection, &mut document, Vec::new());
    assert!(none.is_empty());
    assert!(history.undo_stack.is_empty());
    assert!(!document.dirty);

    let base = capture_editor_snapshot(1, &nodes, &items).unwrap();
    let loose = capture_editor_snapshot(3, &nodes, &items).unwrap();
    let roots = record_spawned_trees(&mut history, &mut selection, &mut document, vec![(60, Some(9), base), (61, None, loose)]);
    assert_eq!(roots, vec![60, 61]);
    assert_eq!((selection.entity, selection.entities.clone()), (Some(60), vec![60, 61]));
    assert!(document.dirty);
    assert_eq!(history.undo_stack.len(), 1);
    match &history.undo_stack[0] {
        UndoCommand::SpawnTrees { trees } => assert_eq!(roots_of(trees), vec![60, 61]),
        _ => panic!("expected a tree spawn"),
    }
    match history.undo(&mut selection) {
        UndoEffect::DespawnTrees { roots } => assert_eq!(roots, vec![60, 61]),
        _ => panic!("expected the copies to be despawned"),
    }
    assert_eq!((selection.entity, selection.entities.clone()), (None, vec![]));
}
