use rave_engine::camera::{disable_camera_on_ui_interaction, disable_cameras_on_minimization, sync_playtest_camera, CameraActivity};
use rave_engine::editor::{
    copy_name, editor_shortcut, expand_cut, next_part_name, update_studio_window_title, BrickSpawnerCount,
    DocumentEffect, DocumentState, EditorAction, InsertKind, PanelVisibility, PendingDocumentAction, ShortcutKeys,
};
use rave_engine::explorer::{can_drop_on, get_flat_ordered_entities, sorted_players, is_descendant, is_managed_entity, node_matches_search};
use rave_engine::gizmos::{
    configuration_changed, gizmo_highlighted, plan_gizmos, GizmoAxis, GizmoConfiguration,
    PhysicsSimulationState, ToolState,
};
use rave_engine::interaction::{update_cursor, CursorChoice, DragState, HoverState, PartDragState, PointerTarget};
use rave_engine::line_numbers::line_numbers;
use rave_engine::map_loading::ParentLink;
use rave_engine::playtest::{restore_script_parents, stop_playtest_despawns, RestoredScript};
use rave_engine::scene::SceneNode;
use rave_engine::services::NamedEntity;
use rave_engine::scene_ops::{insert_parent, marquee_selection, select_all_items, selected_root_entities};
use rave_engine::selection::{ClickTarget, Selection};
use rave_engine::undo::{handle_keyboard_shortcuts, BrickRecord, UndoCommand, UndoEffect, UndoRedoAction, UndoRedoHistory};

fn scene_node(entity: u64, name: &str, parent: Option<u64>, children: Vec<u64>, is_brick: bool, is_script: bool) -> SceneNode {
    SceneNode { entity, name: name.to_string(), parent, children, is_brick, is_script }
}

/// Baseplate, two root bricks, and a brick and a script under "Apple".
fn sample_scene() -> Vec<SceneNode> {
    vec![
        scene_node(2, "Wall", None, vec![], true, false),
        scene_node(1, "Baseplate", None, vec![], false, false),
        scene_node(3, "Apple", None, vec![5, 4], true, false),
        scene_node(4, "Child", Some(3), vec![], true, false),
        scene_node(5, "Script", Some(3), vec![], false, true),
        scene_node(6, "Camera", None, vec![], false, false),
    ]
}

#[test]
fn follows_playtest_camera_and_restores_editor_view() {
    let editor_view = ([-10.0f32, 10.0, -10.0], 80.0f32.to_radians());
    let player_view = ([2.0f32, 3.0, 4.0], 70.0f32.to_radians());

    let (followed, saved) = sync_playtest_camera(true, editor_view, Some(player_view), None);
    assert_eq!(followed.0, player_view.0);
    assert_eq!(followed.1, 70.0f32.to_radians());

    let (restored, saved) = sync_playtest_camera(false, followed, None, saved);
    assert_eq!(restored.0, editor_view.0);
    assert_eq!(restored.1, 80.0f32.to_radians());
    assert_eq!(saved, None);
}

#[test]
fn playtest_keeps_the_first_saved_view() {
    let (_, saved) = sync_playtest_camera(true, 1, Some(2), None);
    let (view, saved) = sync_playtest_camera(true, 2, Some(3), saved);
    assert_eq!((view, saved), (3, Some(1)));
    assert_eq!(sync_playtest_camera(true, 5, None, None), (5, None));
    assert_eq!(sync_playtest_camera(false, 5, None, None), (5, None));
}

#[test]
fn minimizing_pauses_and_restoring_resumes_cameras() {
    let mut cameras = vec![CameraActivity { entity: 1, active: true }, CameraActivity { entity: 2, active: false }];
    let mut paused = Vec::new();
    disable_cameras_on_minimization(&mut cameras, &mut paused, true);
    assert!(cameras.iter().all(|c| !c.active));
    assert_eq!(paused, vec![1]);
    disable_cameras_on_minimization(&mut cameras, &mut paused, false);
    assert_eq!(cameras, vec![CameraActivity { entity: 1, active: true }, CameraActivity { entity: 2, active: false }]);
    assert!(paused.is_empty());
}

#[test]
fn camera_and_picking_follow_the_ui() {
    let free = disable_camera_on_ui_interaction(false, false, false, false, false, false);
    assert!(free.camera_enabled && free.picking_enabled);
    let over_ui = disable_camera_on_ui_interaction(false, false, true, false, false, false);
    assert!(over_ui.camera_enabled && !over_ui.picking_enabled);
    let typing = disable_camera_on_ui_interaction(true, false, false, false, false, false);
    assert!(!typing.camera_enabled && !typing.picking_enabled);
    let moving = disable_camera_on_ui_interaction(false, false, false, false, false, true);
    assert!(moving.camera_enabled && !moving.picking_enabled);
}

#[test]
fn rebuilds_only_when_configuration_changes() {
    let configuration = GizmoConfiguration {
        selected_entity: Some(1),
        tool: ToolState::Move,
        physics_state: PhysicsSimulationState::Stopped,
        playtesting: false,
    };
    let mut previous = None;

    assert!(configuration_changed(&mut previous, configuration));
    assert!(!configuration_changed(&mut previous, configuration));
    assert!(configuration_changed(&mut previous, GizmoConfiguration { tool: ToolState::Rotate, ..configuration }));
}

#[test]
fn gizmo_plans_follow_the_tool() {
    let base = GizmoConfiguration {
        selected_entity: Some(9),
        tool: ToolState::Move,
        physics_state: PhysicsSimulationState::Stopped,
        playtesting: false,
    };
    let moves = plan_gizmos(base);
    assert_eq!(moves.len(), 6);
    assert!(moves.iter().all(|g| g.target == 9 && g.tool == ToolState::Move));
    assert_eq!(moves[1].axis, GizmoAxis::NegX);
    let rings = plan_gizmos(GizmoConfiguration { tool: ToolState::Rotate, ..base });
    assert_eq!(rings.iter().map(|g| g.axis).collect::<Vec<_>>(), vec![GizmoAxis::PosX, GizmoAxis::PosY, GizmoAxis::PosZ]);
    assert!(plan_gizmos(GizmoConfiguration { tool: ToolState::NoTool, ..base }).is_empty());
    assert!(plan_gizmos(GizmoConfiguration { selected_entity: None, ..base }).is_empty());
    assert!(plan_gizmos(GizmoConfiguration { playtesting: true, ..base }).is_empty());
    assert!(plan_gizmos(GizmoConfiguration { physics_state: PhysicsSimulationState::Running, ..base }).is_empty());
    assert!(gizmo_highlighted(3, Some(3), false, None));
    assert!(gizmo_highlighted(3, None, true, Some(3)));
    assert!(!gizmo_highlighted(3, None, false, Some(3)));
}

#[test]
fn reuses_line_numbers_for_the_same_count() {
    let mut cache = None;
    let first_ptr = line_numbers(&mut cache, 12).as_ptr();
    let second_ptr = line_numbers(&mut cache, 12).as_ptr();

    assert_eq!(first_ptr, second_ptr);
    assert_eq!(cache.as_ref().unwrap().1, " 1\n 2\n 3\n 4\n 5\n 6\n 7\n 8\n 9\n10\n11\n12\n");
}

#[test]
fn rebuilds_line_numbers_when_the_count_changes() {
    let mut cache = None;
    line_numbers(&mut cache, 2);
    let text = line_numbers(&mut cache, 3);

    assert_eq!(text, "1\n2\n3\n");
    assert_eq!(cache.as_ref().unwrap().0, 3);
}

#[test]
fn line_numbers_pad_to_the_widest_number() {
    let mut cache = None;
    assert_eq!(line_numbers(&mut cache, 0), "");
    assert_eq!(line_numbers(&mut cache, 1), "1\n");
    let text = line_numbers(&mut cache, 100).to_string();
    assert!(text.starts_with("  1\n  2\n"));
    assert!(text.ends_with(" 99\n100\n"));
}

#[test]
fn explorer_lists_baseplate_first_then_by_name_depth_first() {
    let nodes = sample_scene();
    assert_eq!(get_flat_ordered_entities(&nodes), vec![1, 3, 4, 5, 2]);
    assert!(is_managed_entity(1, &nodes));
    assert!(!is_managed_entity(6, &nodes));
    assert!(!is_managed_entity(60, &nodes));
}

#[test]
fn explorer_search_matches_lowercased_names_and_descendants() {
    let nodes = sample_scene();
    assert!(node_matches_search(3, "app", &nodes));
    assert!(node_matches_search(3, "chi", &nodes));
    assert!(!node_matches_search(2, "chi", &nodes));
    assert!(!node_matches_search(3, "App", &nodes));
    assert!(node_matches_search(60, "", &nodes));
    assert!(!node_matches_search(60, "a", &nodes));
}

#[test]
fn descendants_are_found_by_walking_up() {
    let nodes = sample_scene();
    assert!(is_descendant(4, 3, &nodes));
    assert!(!is_descendant(3, 4, &nodes));
    assert!(!is_descendant(2, 3, &nodes));
    assert!(can_drop_on(4, 2, &nodes));
    assert!(!can_drop_on(3, 4, &nodes));
    assert!(!can_drop_on(3, 3, &nodes));
}

#[test]
fn scene_operations_pick_the_right_entities() {
    let nodes = sample_scene();
    assert_eq!(selected_root_entities(&vec![4, 3, 3, 2], &nodes), vec![3, 2]);
    assert_eq!(select_all_items(&nodes), vec![2, 3, 4, 5]);
    assert_eq!(insert_parent(Some(3), &nodes), Some(3));
    assert_eq!(insert_parent(Some(6), &nodes), None);
    assert_eq!(insert_parent(None, &nodes), None);
    assert_eq!(marquee_selection(&vec![3], &nodes), vec![3, 4]);
    assert_eq!(marquee_selection(&vec![2, 4], &nodes), vec![2, 4]);
}

#[test]
fn viewport_clicks_select_toggle_and_clear() {
    let mut selection = Selection::new();
    assert!(selection.select_brick(5, ClickTarget::Brick { locked: false }, false, false));
    assert_eq!((selection.entity, selection.entities.clone()), (Some(5), vec![5]));
    assert!(selection.select_brick(6, ClickTarget::Brick { locked: false }, true, false));
    assert_eq!((selection.entity, selection.entities.clone()), (Some(6), vec![5, 6]));
    assert!(selection.select_brick(6, ClickTarget::Brick { locked: false }, false, true));
    assert_eq!((selection.entity, selection.entities.clone()), (Some(5), vec![5]));
    assert!(!selection.select_brick(7, ClickTarget::Brick { locked: true }, false, false));
    assert!(!selection.select_brick(7, ClickTarget::Gizmo, false, false));
    assert_eq!(selection.entities, vec![5]);
    assert!(selection.select_brick(0, ClickTarget::Other, false, false));
    assert_eq!((selection.entity, selection.entities.clone()), (None, vec![]));
}

#[test]
fn explorer_clicks_select_ranges_and_toggle() {
    let pool = vec![1, 2, 3, 4, 5];
    let mut selection = Selection::new();
    selection.workspace_selected = true;
    selection.explorer_click(2, false, false, &pool);
    assert!(!selection.workspace_selected);
    selection.explorer_click(4, false, true, &pool);
    assert_eq!((selection.entity, selection.entities.clone()), (Some(4), vec![2, 3, 4]));
    selection.explorer_click(3, true, false, &pool);
    assert_eq!((selection.entity, selection.entities.clone()), (Some(4), vec![2, 4]));
    selection.explorer_click(9, false, true, &pool);
    assert_eq!(selection.entities, vec![2, 4]);

    let mut fresh = Selection::new();
    fresh.perform_range_selection(3, &pool);
    assert_eq!((fresh.entity, fresh.entities.clone()), (Some(3), vec![3]));
}

#[test]
fn marquee_and_select_all_replace_the_selection() {
    let mut selection = Selection::new();
    selection.apply_marquee(vec![7, 8]);
    assert_eq!((selection.entity, selection.entities.clone()), (Some(7), vec![7, 8]));
    selection.apply_marquee(vec![]);
    assert_eq!((selection.entity, selection.entities.clone()), (None, vec![]));
    selection.select_all(vec![3, 4]);
    assert_eq!((selection.entity, selection.entities.clone()), (Some(3), vec![3, 4]));
}

#[test]
fn transform_edits_undo_and_redo() {
    let mut history: UndoRedoHistory<i32, &str> = UndoRedoHistory::new();
    let mut selection = Selection::new();
    history.push_transform_change(1, 10, 20, true);
    history.push_transform_change(1, 20, 20, false);
    assert_eq!(history.undo_stack.len(), 1);

    assert!(matches!(history.undo(&mut selection), UndoEffect::SetTransform { entity: 1, transform: 10 }));
    assert!(matches!(history.redo(&mut selection), UndoEffect::SetTransform { entity: 1, transform: 20 }));
    assert!(matches!(history.redo(&mut selection), UndoEffect::Nothing));
    assert!(matches!(
        history.handle_undo_redo_action(UndoRedoAction::Undo, &mut selection),
        UndoEffect::SetTransform { entity: 1, transform: 10 }
    ));
    assert!(matches!(
        history.handle_undo_redo_action(UndoRedoAction::Redo, &mut selection),
        UndoEffect::SetTransform { entity: 1, transform: 20 }
    ));
    assert_eq!(history.undo_stack.len(), 1);
    assert!(history.redo_stack.is_empty());
}

#[test]
fn an_undone_delete_comes_back_under_its_new_entity() {
    let mut history: UndoRedoHistory<i32, &str> = UndoRedoHistory::new();
    let mut selection = Selection::new();
    let record = BrickRecord { parent: Some(3), data: "brick" };
    history.push_command(UndoCommand::TransformChange { entity: 5, old_transform: 0, new_transform: 1 });
    history.push_command(UndoCommand::Delete { entity: 5, data: record });

    match history.undo(&mut selection) {
        UndoEffect::Respawn { entity, data, undoing } => {
            assert_eq!(entity, 5);
            assert!(undoing);
            history.respawned(5, 9, data, true, &mut selection);
        }
        _ => panic!("expected a respawn"),
    }
    assert!(matches!(history.undo_stack[0], UndoCommand::TransformChange { entity: 9, .. }));
    assert!(matches!(history.redo(&mut selection), UndoEffect::Despawn { entity: 9 }));
}

#[test]
fn undoing_a_spawn_deselects_it() {
    let mut history: UndoRedoHistory<i32, &str> = UndoRedoHistory::new();
    let mut selection = Selection::new();
    selection.select_only(4);
    history.push_command(UndoCommand::Spawn { entity: 4, data: BrickRecord { parent: None, data: "part" } });
    assert!(matches!(history.undo(&mut selection), UndoEffect::Despawn { entity: 4 }));
    assert_eq!((selection.entity, selection.entities.clone()), (None, vec![]));
    assert!(matches!(history.redo(&mut selection), UndoEffect::Respawn { entity: 4, undoing: false, .. }));
}

#[test]
fn undo_shortcuts() {
    assert_eq!(handle_keyboard_shortcuts(true, false, true, false), Some(UndoRedoAction::Undo));
    assert_eq!(handle_keyboard_shortcuts(true, true, true, false), Some(UndoRedoAction::Redo));
    assert_eq!(handle_keyboard_shortcuts(true, false, false, true), Some(UndoRedoAction::Redo));
    assert_eq!(handle_keyboard_shortcuts(false, false, true, false), None);
}

#[test]
fn hover_cursor_and_part_drags() {
    let mut hover = HoverState::new();
    hover.handle_hover(&vec![(1, PointerTarget::Gizmo), (2, PointerTarget::Brick), (3, PointerTarget::Other)], &vec![]);
    assert_eq!((hover.hovered_gizmo, hover.hovered_brick), (Some(1), Some(2)));
    assert_eq!(update_cursor(false, false, &hover), CursorChoice::Grab);
    hover.handle_hover(&vec![], &vec![1, 2]);
    assert_eq!((hover.hovered_gizmo, hover.hovered_brick), (None, None));
    assert_eq!(update_cursor(false, false, &hover), CursorChoice::Default);
    assert_eq!(update_cursor(false, true, &hover), CursorChoice::Grabbing);

    let mut history: UndoRedoHistory<i32, ()> = UndoRedoHistory::new();
    let mut drag: PartDragState<i32> = PartDragState::new();
    drag.handle_part_drag_start(true, 7, true, Some(1));
    assert!(!drag.active);
    drag.handle_part_drag_start(true, 7, false, Some(1));
    assert!(drag.active && drag.dragged_entity == Some(7));
    drag.handle_part_drag_end(true, Some(5), true, &mut history);
    assert!(!drag.active);
    assert!(matches!(history.undo_stack[0], UndoCommand::TransformChange { entity: 7, old_transform: 1, new_transform: 5 }));

    let mut handle: DragState<i32> = DragState::new();
    handle.handle_drag_start(true, 11, true, Some(2));
    handle.handle_drag_end(true, Some(7), Some(2), false, &mut history);
    assert_eq!(history.undo_stack.len(), 1);
    assert!(handle.gizmo_entity.is_none());
}

fn keys() -> ShortcutKeys {
    ShortcutKeys {
        command: false, shift: false, n: false, o: false, s: false, z: false, y: false, x: false,
        c: false, v: false, d: false, a: false, f2: false, delete: false, f: false, f5: false, f6: false,
    }
}

#[test]
fn shortcuts_map_to_actions() {
    assert_eq!(editor_shortcut(ShortcutKeys { command: true, s: true, ..keys() }), Some(EditorAction::Save));
    assert_eq!(editor_shortcut(ShortcutKeys { command: true, shift: true, s: true, ..keys() }), Some(EditorAction::SaveAs));
    assert_eq!(editor_shortcut(ShortcutKeys { command: true, shift: true, z: true, ..keys() }), Some(EditorAction::Redo));
    assert_eq!(editor_shortcut(ShortcutKeys { f5: true, shift: true, ..keys() }), Some(EditorAction::StopTesting));
    assert_eq!(editor_shortcut(ShortcutKeys { f5: true, ..keys() }), Some(EditorAction::TogglePlaytest));
    assert_eq!(editor_shortcut(ShortcutKeys { s: true, ..keys() }), None);
    assert_eq!(expand_cut(), vec![EditorAction::Copy, EditorAction::Delete]);
}

#[test]
fn unsaved_changes_hold_back_open_and_exit() {
    let mut doc = DocumentState::new();
    assert_eq!(doc.apply_action(EditorAction::Open, false, false), DocumentEffect::OpenDialog);
    assert_eq!(doc.apply_action(EditorAction::Undo, false, false), DocumentEffect::SendUndo);
    assert!(doc.dirty);
    assert_eq!(doc.apply_action(EditorAction::Exit, false, false), DocumentEffect::Idle);
    assert_eq!(doc.pending, Some(PendingDocumentAction::Exit));
    assert_eq!(doc.take_ready_pending(), None);
    doc.discard_changes();
    assert_eq!(doc.take_ready_pending(), Some(PendingDocumentAction::Exit));
    assert_eq!(doc.pending, None);
    assert_eq!(doc.apply_action(EditorAction::Save, false, false), DocumentEffect::QueueSaveAs);
    assert_eq!(doc.apply_action(EditorAction::Save, true, false), DocumentEffect::SaveToPath);

    let mut edited = DocumentState::new();
    assert_eq!(edited.apply_action(EditorAction::Delete, true, false), DocumentEffect::Idle);
    assert!(edited.dirty);
    let mut inserted = DocumentState::new();
    inserted.apply_action(EditorAction::Insert(InsertKind::Part, None), true, false);
    assert!(inserted.dirty);
    let mut nothing_pasted = DocumentState::new();
    nothing_pasted.apply_action(EditorAction::Paste, true, false);
    assert!(!nothing_pasted.dirty);
    nothing_pasted.apply_action(EditorAction::Duplicate, true, true);
    assert!(nothing_pasted.dirty);
    let mut renamed = DocumentState::new();
    renamed.apply_action(EditorAction::Rename, true, true);
    assert!(!renamed.dirty);

    let mut initialized = false;
    let mut fresh = DocumentState::new();
    fresh.track_document_changes(&mut initialized, true);
    assert!(!fresh.dirty);
    fresh.track_document_changes(&mut initialized, true);
    assert!(fresh.dirty);
    fresh.saved();
    assert!(!fresh.dirty);
}

#[test]
fn panels_toggle_and_reset() {
    let mut panels = PanelVisibility::new();
    panels.apply_action(EditorAction::ToggleExplorer);
    assert!(!panels.explorer_visible);
    panels.apply_action(EditorAction::Save);
    assert!(!panels.explorer_visible);
    panels.apply_action(EditorAction::ResetLayout);
    assert!(panels.explorer_visible && panels.properties_visible && panels.script_editor_visible);
}

#[test]
fn names_and_titles() {
    assert_eq!(update_studio_window_title(Some("castle"), true), "castle* — RaveEngine Studio");
    assert_eq!(update_studio_window_title(None, false), "Untitled — RaveEngine Studio");
    assert_eq!(copy_name("Wall"), "Wall - Copy");
    let mut counter = BrickSpawnerCount { count: 0 };
    assert_eq!(next_part_name(&mut counter), "Part0");
    assert_eq!(next_part_name(&mut counter), "Part1");
    counter.count = 41;
    assert_eq!(next_part_name(&mut counter), "Part41");
}

#[test]
fn stopping_a_playtest_clears_game_leftovers_and_scripts() {
    let nodes = vec![
        scene_node(1, "Baseplate", None, vec![], false, false),
        scene_node(2, "Wall", None, vec![], true, false),
        scene_node(3, "Player_7", None, vec![], false, false),
        scene_node(4, "HumanArmature", None, vec![], false, false),
        scene_node(5, "LocalPlayer", None, vec![], false, false),
        scene_node(6, "Armature", Some(2), vec![], false, false),
        scene_node(7, "Script", None, vec![], false, true),
        scene_node(8, "Player", None, vec![], false, false),
    ];
    assert_eq!(stop_playtest_despawns(&nodes), vec![2, 3, 8, 3, 4, 5, 7]);
}

#[test]
fn restored_scripts_find_the_last_brick_with_their_parent_name() {
    let bricks = vec![
        NamedEntity { entity: 10, name: "Door".to_string() },
        NamedEntity { entity: 11, name: "Door".to_string() },
        NamedEntity { entity: 12, name: "Wall".to_string() },
    ];
    let scripts = vec![
        RestoredScript { entity: 20, parent_name: Some("Door".to_string()) },
        RestoredScript { entity: 21, parent_name: None },
        RestoredScript { entity: 22, parent_name: Some("Roof".to_string()) },
        RestoredScript { entity: 23, parent_name: Some("Wall".to_string()) },
    ];
    assert_eq!(
        restore_script_parents(&bricks, &scripts),
        vec![ParentLink { parent: 11, child: 20 }, ParentLink { parent: 12, child: 23 }]
    );
}

#[test]
fn players_are_listed_by_name() {
    let nodes = vec![
        scene_node(1, "Player_2", None, vec![], false, false),
        scene_node(2, "Player", None, vec![], false, false),
        scene_node(3, "Player_10", None, vec![], false, false),
        scene_node(4, "Bob", None, vec![], false, false),
    ];
    assert_eq!(sorted_players(&nodes), vec![2, 3, 1]);
}
