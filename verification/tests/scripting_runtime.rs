use rave_engine::contacts::{entered_contacts, players_joined};
use rave_engine::scheduler::{
    after_resume, checked_wake_time, LuaScheduler, LuaTask, ResumeAction, ResumeOutcome,
};
use rave_engine::scripting::{
    player_added_calls, run_service_handlers, take_scripts_to_start, touched_calls, HandlerCall,
    ModuleCache, RequireStep, ScriptRegistry, ScriptState, SignalEvent,
};
use rave_engine::services::{
    cache_service_entities, class_of, find_first_child, find_service_entity, InstanceClass,
    InstanceKinds, NamedEntity, ServiceEntities,
};

fn named(entity: u64, name: &str) -> NamedEntity {
    NamedEntity { entity, name: name.to_string() }
}

#[test]
fn discovers_service_entities() {
    let workspace = 1;
    let players = 2;
    let lighting = 3;
    let scene = vec![named(workspace, "Workspace"), named(players, "Players"), named(lighting, "Lighting")];
    let mut cache = ServiceEntities::new();

    cache_service_entities(&mut cache, &scene);

    assert_eq!(cache.workspace, Some(workspace));
    assert_eq!(cache.players, Some(players));
    assert_eq!(cache.lighting, Some(lighting));
}

#[test]
fn refreshes_renamed_and_recreated_services() {
    let old_workspace = 1;
    let old_players = 2;
    let mut scene = vec![named(old_workspace, "Workspace"), named(old_players, "Players"), named(3, "Lighting")];
    let mut cache = ServiceEntities::new();
    cache_service_entities(&mut cache, &scene);

    scene[0].name = "Renamed".to_string();
    scene.remove(1);
    let workspace = 4;
    let players = 5;
    scene.push(named(workspace, "Workspace"));
    scene.push(named(players, "Players"));
    cache_service_entities(&mut cache, &scene);

    assert_eq!(cache.workspace, Some(workspace));
    assert_eq!(cache.players, Some(players));
}

#[test]
fn service_cache_keeps_a_live_entry() {
    let scene = vec![named(7, "Workspace"), named(8, "Workspace")];
    let mut cache = ServiceEntities { workspace: Some(8), players: None, lighting: None };
    cache_service_entities(&mut cache, &scene);
    assert_eq!(cache.workspace, Some(8));
    assert_eq!(cache.players, None);
}

#[test]
fn service_lookup_prefers_the_cache_and_ignores_other_names() {
    let scene = vec![named(7, "Workspace"), named(8, "Workspace"), named(9, "Players")];
    let cache = ServiceEntities { workspace: Some(8), players: None, lighting: None };
    assert_eq!(find_service_entity(Some(cache), "Workspace", &scene), Some(8));
    assert_eq!(find_service_entity(None, "Workspace", &scene), Some(7));
    assert_eq!(find_service_entity(Some(cache), "Players", &scene), Some(9));
    assert_eq!(find_service_entity(Some(cache), "Lighting", &scene), None);
    assert_eq!(find_service_entity(Some(cache), "Camera", &scene), None);
}

#[test]
fn instance_classes_follow_names_and_components() {
    let plain = InstanceKinds {
        is_players_service: false,
        is_lighting_service: false,
        is_player: false,
        is_brick: false,
        is_server_script: false,
        is_local_script: false,
        is_module_script: false,
    };
    assert_eq!(class_of("Workspace", plain), InstanceClass::Workspace);
    assert_eq!(class_of("Workspace", InstanceKinds { is_brick: true, ..plain }), InstanceClass::Workspace);
    assert_eq!(class_of("Players", InstanceKinds { is_players_service: true, ..plain }), InstanceClass::Players);
    assert_eq!(class_of("Lighting", InstanceKinds { is_lighting_service: true, ..plain }), InstanceClass::Lighting);
    assert_eq!(class_of("Bob", InstanceKinds { is_player: true, ..plain }), InstanceClass::Player);
    assert_eq!(class_of("Thing", InstanceKinds { is_brick: true, is_server_script: true, ..plain }), InstanceClass::Part);
    assert_eq!(class_of("Thing", InstanceKinds { is_server_script: true, ..plain }), InstanceClass::Script);
    assert_eq!(class_of("Thing", InstanceKinds { is_local_script: true, ..plain }), InstanceClass::LocalScript);
    assert_eq!(class_of("Thing", InstanceKinds { is_module_script: true, ..plain }), InstanceClass::ModuleScript);
    assert_eq!(class_of("Thing", plain), InstanceClass::Folder);
    assert_eq!(InstanceClass::Part.class_name(), "Part");
    assert_eq!(InstanceClass::ModuleScript.class_name(), "ModuleScript");
    assert_eq!(InstanceClass::Folder.class_name(), "Folder");
}

#[test]
fn find_first_child_takes_the_first_match_in_child_order() {
    let scene = vec![named(1, "A"), named(2, "B"), named(3, "A")];
    assert_eq!(find_first_child(&vec![3, 2, 1], "A", &scene), Some(3));
    assert_eq!(find_first_child(&vec![2], "A", &scene), None);
}

#[test]
fn touched_contacts_only_enter_on_new_edges_and_reset_when_empty() {
    let first = 1u64;
    let second = 2u64;
    let pair = if first < second { (first, second) } else { (second, first) };
    let mut previous = Vec::new();

    assert_eq!(entered_contacts(&mut previous, vec![(second, first), (first, second)]), vec![pair]);
    assert!(entered_contacts(&mut previous, vec![(first, second)]).is_empty());
    assert!(entered_contacts(&mut previous, vec![]).is_empty());
    assert_eq!(entered_contacts(&mut previous, vec![(first, second)]), vec![pair]);
}

#[test]
fn players_join_once() {
    let mut last = Vec::new();
    assert_eq!(players_joined(&mut last, vec![4, 5]), vec![4, 5]);
    assert_eq!(players_joined(&mut last, vec![5, 6]), vec![6]);
    assert_eq!(last, vec![5, 6]);
}

#[test]
fn checked_delays_reject_invalid_and_out_of_range_values() {
    let now = 1_000_000u64;
    assert_eq!(checked_wake_time(now, 0), Some(now));
    assert!(checked_wake_time(now, 250_000_000).is_some());
    assert_eq!(checked_wake_time(now, 250_000_000), Some(251_000_000));
    assert!(checked_wake_time(now, u64::MAX).is_none());
    assert!(checked_wake_time(u64::MAX, 1).is_none());
    assert_eq!(checked_wake_time(u64::MAX - 1, 1), Some(u64::MAX));
}

#[test]
fn scheduler_allows_resumed_tasks_to_schedule_more_work() {
    let mut scheduler: LuaScheduler<u32> = LuaScheduler::new();
    scheduler.tasks.push(LuaTask { thread_key: 1, wake_time: None });

    let now = 10;
    let to_run = scheduler.take_due(now);
    assert_eq!(to_run, vec![1]);
    // The thread runs `task.defer(function() end)` and finishes.
    scheduler.defer(2);
    let action = after_resume(ResumeOutcome::Yielded { resumable: false, delay: None }, now);
    assert_eq!(action, ResumeAction::Release);
    scheduler.requeue(Vec::new());

    assert_eq!(scheduler.deferred.len(), 1);
}

#[test]
fn a_tick_runs_due_tasks_then_deferred_ones() {
    let mut scheduler: LuaScheduler<u32> = LuaScheduler::new();
    scheduler.schedule(1, Some(50));
    scheduler.schedule(2, None);
    scheduler.schedule(3, Some(5));
    scheduler.defer(4);

    let to_run = scheduler.take_due(10);
    assert_eq!(to_run, vec![2, 3, 4]);
    assert_eq!(scheduler.tasks.len(), 1);
    assert_eq!(scheduler.tasks[0].thread_key, 1);
    assert!(scheduler.deferred.is_empty());

    scheduler.requeue(vec![LuaTask { thread_key: 3, wake_time: Some(20) }]);
    assert_eq!(scheduler.tasks.iter().map(|t| t.thread_key).collect::<Vec<_>>(), vec![1, 3]);
    assert_eq!(scheduler.take_due(20), vec![3]);
    assert_eq!(scheduler.take_due(50), vec![1]);
}

#[test]
fn resumed_threads_wait_for_their_delay() {
    assert_eq!(
        after_resume(ResumeOutcome::Yielded { resumable: true, delay: Some(5) }, 100),
        ResumeAction::Requeue { wake_time: Some(105) }
    );
    assert_eq!(
        after_resume(ResumeOutcome::Yielded { resumable: true, delay: None }, 100),
        ResumeAction::Requeue { wake_time: None }
    );
    assert_eq!(
        after_resume(ResumeOutcome::Yielded { resumable: true, delay: Some(u64::MAX) }, 100),
        ResumeAction::Requeue { wake_time: None }
    );
    assert_eq!(after_resume(ResumeOutcome::Failed, 100), ResumeAction::Release);
    assert_eq!(after_resume(ResumeOutcome::Missing, 100), ResumeAction::Release);
}

#[test]
fn only_enabled_scripts_start_and_only_once() {
    let mut scripts = vec![
        ScriptState { entity: 1, enabled: true, started: false },
        ScriptState { entity: 2, enabled: false, started: false },
        ScriptState { entity: 3, enabled: true, started: true },
        ScriptState { entity: 4, enabled: true, started: false },
    ];
    assert_eq!(take_scripts_to_start(&mut scripts), vec![1, 4]);
    assert!(scripts[0].started && !scripts[1].started && scripts[3].started);
    assert!(take_scripts_to_start(&mut scripts).is_empty());
}

#[test]
fn disconnected_handlers_stop_receiving_events() {
    let mut registry = ScriptRegistry::new();
    registry.connect(1, SignalEvent::Touched, 10);
    registry.connect(1, SignalEvent::Touched, 11);
    registry.connect(1, SignalEvent::Heartbeat, 12);
    registry.connect(2, SignalEvent::Touched, 13);
    assert_eq!(registry.registered_functions(1, SignalEvent::Touched), vec![10, 11]);

    registry.disconnect(1, SignalEvent::Touched, 10);
    assert_eq!(registry.registered_functions(1, SignalEvent::Touched), vec![11]);
    assert_eq!(registry.registered_functions(1, SignalEvent::Heartbeat), vec![12]);
    assert_eq!(registry.registered_functions(2, SignalEvent::Touched), vec![13]);
    assert!(registry.registered_functions(3, SignalEvent::Stepped).is_empty());
}

#[test]
fn require_caches_results_and_detects_cycles() {
    let mut cache: ModuleCache<u32> = ModuleCache::new();
    assert!(matches!(cache.begin_require(7), RequireStep::Load));
    assert!(matches!(cache.begin_require(7), RequireStep::Cycle));
    cache.finish_load(7, Some(42));
    assert!(matches!(cache.begin_require(7), RequireStep::Cached(42)));

    assert!(matches!(cache.begin_require(8), RequireStep::Load));
    cache.finish_load(8, None);
    assert!(matches!(cache.begin_require(8), RequireStep::Load));
}

#[test]
fn touches_call_the_handlers_of_both_entities() {
    let mut registry = ScriptRegistry::new();
    registry.connect(1, SignalEvent::Touched, 10);
    registry.connect(2, SignalEvent::Touched, 20);
    registry.connect(2, SignalEvent::Touched, 21);
    registry.connect(1, SignalEvent::Heartbeat, 30);
    let calls = touched_calls(&registry, &vec![(1, 2), (3, 1)]);
    assert_eq!(
        calls,
        vec![
            HandlerCall { handler: 10, argument: 2 },
            HandlerCall { handler: 20, argument: 1 },
            HandlerCall { handler: 21, argument: 1 },
            HandlerCall { handler: 10, argument: 3 },
        ]
    );
    assert!(touched_calls(&registry, &vec![]).is_empty());
}

#[test]
fn joined_players_reach_every_player_added_handler() {
    let mut registry = ScriptRegistry::new();
    registry.connect(7, SignalEvent::PlayerAdded, 1);
    registry.connect(7, SignalEvent::PlayerAdded, 2);
    registry.connect(8, SignalEvent::PlayerAdded, 3);
    assert_eq!(
        player_added_calls(&registry, 7, &vec![100, 101]),
        vec![
            HandlerCall { handler: 1, argument: 100 },
            HandlerCall { handler: 1, argument: 101 },
            HandlerCall { handler: 2, argument: 100 },
            HandlerCall { handler: 2, argument: 101 },
        ]
    );
    assert!(player_added_calls(&registry, 9, &vec![100]).is_empty());
}

#[test]
fn run_service_fires_heartbeat_then_stepped() {
    let mut registry = ScriptRegistry::new();
    registry.connect(5, SignalEvent::Stepped, 1);
    registry.connect(5, SignalEvent::Heartbeat, 2);
    registry.connect(6, SignalEvent::Heartbeat, 3);
    assert_eq!(run_service_handlers(&registry, 5), vec![2, 1]);
}
