//! How a brick takes part in the physics simulation.
use vstd::prelude::*;

verus! {

/// Collision layer of the world's bricks.
pub const WORLD_LAYER: u32 = 0b0001;

/// Collision layer of bricks that players pass through.
pub const GHOST_LAYER: u32 = 0b0100;

/// Collides with every layer.
pub const ALL_LAYERS: u32 = 0xFFFF_FFFF;

/// Collides with every layer but the players'.
pub const ALL_BUT_PLAYERS: u32 = 0xFFFF_FFFD;

/// The collision layers (membership, filter) of a brick: one that players
/// can collide with is in the world layer and meets everything; one they
/// cannot is in its own layer and ignores players.
pub fn brick_collision_layers(player_can_collide: bool) -> (r: (u32, u32))
    ensures
        player_can_collide ==> r == (WORLD_LAYER, ALL_LAYERS),
        !player_can_collide ==> r == (GHOST_LAYER, ALL_BUT_PLAYERS),
{
    if player_can_collide {
        (WORLD_LAYER, ALL_LAYERS)
    } else {
        (GHOST_LAYER, ALL_BUT_PLAYERS)
    }
}

/// The kind of rigid body a brick is.
#[derive(Clone, Copy, Debug, PartialEq, Eq, Structural)]
pub enum BodyKind {
    Dynamic,
    Static,
}

/// A brick with physics enabled moves; any other stays put.
pub fn brick_body_kind(physics_enabled: bool) -> (r: BodyKind)
    ensures
        r == if physics_enabled {
            BodyKind::Dynamic
        } else {
            BodyKind::Static
        },
{
    if physics_enabled {
        BodyKind::Dynamic
    } else {
        BodyKind::Static
    }
}

/// A brick without physics settings reads as anchored; one with them is
/// anchored when its physics is disabled.
pub open spec fn reads_anchored(physics_enabled: Option<bool>) -> bool {
    match physics_enabled {
        Some(enabled) => !enabled,
        None => true,
    }
}

/// Players collide with a brick unless its physics settings say otherwise.
pub open spec fn reads_can_collide(player_can_collide: Option<bool>) -> bool {
    match player_can_collide {
        Some(c) => c,
        None => true,
    }
}

/// What scripts read as `Anchored`.
pub fn anchored(physics_enabled: Option<bool>) -> (r: bool)
    ensures
        r == reads_anchored(physics_enabled),
{
    match physics_enabled {
        Some(enabled) => !enabled,
        None => true,
    }
}

/// What scripts read as `CanCollide`.
pub fn can_collide(player_can_collide: Option<bool>) -> (r: bool)
    ensures
        r == reads_can_collide(player_can_collide),
{
    match player_can_collide {
        Some(c) => c,
        None => true,
    }
}

/// The switches of a brick's physics settings that scripts can set.
#[derive(Clone, Copy, Debug, PartialEq, Eq, Structural)]
pub struct PhysicsSwitches {
    pub enabled: bool,
    pub player_can_collide: bool,
}

/// The brick's settings, or the defaults when it has none yet.
pub open spec fn settings_or(current: Option<PhysicsSwitches>, defaults: PhysicsSwitches) -> PhysicsSwitches {
    match current {
        Some(c) => c,
        None => defaults,
    }
}

/// The settings after a script sets `Anchored` to `value`.
pub open spec fn anchored_written(
    current: Option<PhysicsSwitches>,
    defaults: PhysicsSwitches,
    value: bool,
) -> PhysicsSwitches {
    PhysicsSwitches { enabled: !value, ..settings_or(current, defaults) }
}

/// The settings after a script sets `CanCollide` to `value`.
pub open spec fn can_collide_written(
    current: Option<PhysicsSwitches>,
    defaults: PhysicsSwitches,
    value: bool,
) -> PhysicsSwitches {
    PhysicsSwitches { player_can_collide: value, ..settings_or(current, defaults) }
}

/// A script sets `Anchored`: the brick (given the default settings if it has
/// none) gets its physics disabled exactly when anchored, and becomes a
/// static body when anchored, a dynamic one otherwise.
pub fn set_anchored(current: Option<PhysicsSwitches>, defaults: PhysicsSwitches, value: bool) -> (r: (
    PhysicsSwitches,
    BodyKind,
))
    ensures
        r.0 == anchored_written(current, defaults, value),
        r.1 == if value {
            BodyKind::Static
        } else {
            BodyKind::Dynamic
        },
{
    let base = match current {
        Some(c) => c,
        None => defaults,
    };
    let settings = PhysicsSwitches { enabled: !value, player_can_collide: base.player_can_collide };
    (settings, brick_body_kind(settings.enabled))
}

/// A script sets `CanCollide`: the brick (given the default settings if it
/// has none) lets players collide exactly when `value`, and takes the
/// collision layers that go with it.
pub fn set_can_collide(current: Option<PhysicsSwitches>, defaults: PhysicsSwitches, value: bool) -> (r: (
    PhysicsSwitches,
    (u32, u32),
))
    ensures
        r.0 == can_collide_written(current, defaults, value),
        value ==> r.1 == (WORLD_LAYER, ALL_LAYERS),
        !value ==> r.1 == (GHOST_LAYER, ALL_BUT_PLAYERS),
{
    let base = match current {
        Some(c) => c,
        None => defaults,
    };
    let settings = PhysicsSwitches { enabled: base.enabled, player_can_collide: value };
    (settings, brick_collision_layers(settings.player_can_collide))
}

/// A script reads back what it wrote to `Anchored` and `CanCollide`, and
/// writing one leaves what the other reads on a brick that had settings.
pub proof fn lemma_scripted_physics_reads_back(
    current: Option<PhysicsSwitches>,
    defaults: PhysicsSwitches,
    value: bool,
)
    ensures
        reads_anchored(Some(anchored_written(current, defaults, value).enabled)) == value,
        reads_can_collide(Some(can_collide_written(current, defaults, value).player_can_collide)) == value,
        current matches Some(c) ==> reads_can_collide(
            Some(anchored_written(current, defaults, value).player_can_collide),
        ) == reads_can_collide(Some(c.player_can_collide)),
        current matches Some(c) ==> reads_anchored(Some(can_collide_written(current, defaults, value).enabled))
            == reads_anchored(Some(c.enabled)),
{
}

/// The players' layer is the one bit that the filter of a brick players
/// pass through leaves out.
pub proof fn lemma_ghost_filter_excludes_players()
    ensures
        ALL_BUT_PLAYERS & crate::players::PLAYER_LAYER == 0,
        ALL_LAYERS & crate::players::PLAYER_LAYER != 0,
{
    assert(0xFFFF_FFFDu32 & 0b0010u32 == 0) by (bit_vector);
    assert(0xFFFF_FFFFu32 & 0b0010u32 != 0) by (bit_vector);
}

} // verus!
