use rave_engine::physics::{anchored, brick_body_kind, brick_collision_layers, can_collide, BodyKind, ALL_BUT_PLAYERS};
use rave_engine::players::{
    find_controlled_player, hello_action, is_player_name, is_playtest_leftover, handle_client_disconnect,
    AuthenticatedUser, HelloAction, PlayerRecord, PLAYER_COLLIDES_WITH, PLAYER_LAYER,
};

fn players() -> Vec<PlayerRecord> {
    vec![
        PlayerRecord { entity: 10, client_id: 1, owner: None },
        PlayerRecord { entity: 11, client_id: 2, owner: Some(500) },
        PlayerRecord { entity: 12, client_id: 1, owner: Some(501) },
    ]
}

#[test]
fn input_moves_the_first_player_of_the_client() {
    let all = players();
    assert_eq!(find_controlled_player(&all, 500, 9), Some(1));
    assert_eq!(find_controlled_player(&all, 501, 1), Some(0));
    assert_eq!(find_controlled_player(&all, 502, 3), None);
}

#[test]
fn a_disconnect_removes_every_player_of_the_client() {
    let all = players();
    assert_eq!(handle_client_disconnect(&all, 1), vec![10, 12]);
    assert_eq!(handle_client_disconnect(&all, 2), vec![11]);
    assert!(handle_client_disconnect(&all, 3).is_empty());
}

#[test]
fn greetings_admit_kick_or_are_ignored() {
    let user = || Ok(AuthenticatedUser { uid: 77, username: "ana".to_string() });
    assert!(matches!(hello_action(true, user()), HelloAction::Ignore));
    match hello_action(false, user()) {
        HelloAction::Admit { uid, username } => {
            assert_eq!(uid, 77);
            assert_eq!(username, "ana");
        }
        _ => panic!("expected the user to be admitted"),
    }
    match hello_action(false, Err("bad key".to_string())) {
        HelloAction::Kick { reason } => assert_eq!(reason, "Authentication failed: bad key"),
        _ => panic!("expected a kick"),
    }
}

#[test]
fn player_names_and_playtest_leftovers() {
    assert!(is_player_name("Player"));
    assert!(is_player_name("Player_3"));
    assert!(!is_player_name("Players"));
    assert!(!is_player_name("player_3"));
    assert!(is_playtest_leftover("LocalPlayer", false));
    assert!(is_playtest_leftover("Wall", true));
    assert!(!is_playtest_leftover("Wall", false));
}

#[test]
fn bricks_collide_with_players_only_when_allowed() {
    assert_eq!(brick_collision_layers(true), (0b0001, 0xFFFF_FFFF));
    assert_eq!(brick_collision_layers(false), (0b0100, 0xFFFF_FFFD));
    assert_eq!(ALL_BUT_PLAYERS & PLAYER_LAYER, 0);
    assert_eq!((PLAYER_LAYER, PLAYER_COLLIDES_WITH), (0b0010, 0b0011));
    assert_eq!(brick_body_kind(true), BodyKind::Dynamic);
    assert_eq!(brick_body_kind(false), BodyKind::Static);
}

#[test]
fn scripts_read_physics_flags_with_defaults() {
    assert!(anchored(None));
    assert!(anchored(Some(false)));
    assert!(!anchored(Some(true)));
    assert!(can_collide(None));
    assert!(!can_collide(Some(false)));
    assert!(can_collide(Some(true)));
}
