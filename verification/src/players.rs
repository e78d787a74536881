//! The server's players: who is admitted, which player a client steers, and
//! which players leave with a client.
use crate::text::{starts_with_text, str_eq};
use vstd::prelude::*;

verus! {

/// A player entity on the server.
pub struct PlayerRecord {
    pub entity: u64,
    /// The network id of the client the player belongs to.
    pub client_id: u64,
    /// The client connection entity that controls the player, if any.
    pub owner: Option<u64>,
}

/// Collision layer of players.
pub const PLAYER_LAYER: u32 = 0b0010;

/// Layers players collide with: other players and the world.
pub const PLAYER_COLLIDES_WITH: u32 = 0b0011;

/// Whether the player belongs to the client.
pub open spec fn steered_by(p: PlayerRecord, client_entity: u64, client_id: u64) -> bool {
    p.owner == Some(client_entity) || p.client_id == client_id
}

/// The player a client's input moves: the first one that the client's
/// connection controls or that carries the client's id.
pub fn find_controlled_player(players: &Vec<PlayerRecord>, client_entity: u64, client_id: u64) -> (r:
    Option<usize>)
    ensures
        match r {
            Some(i) => i < players.len() && steered_by(players@[i as int], client_entity, client_id)
                && forall|j: int| 0 <= j < i ==> !steered_by(players@[j], client_entity, client_id),
            None => forall|j: int|
                0 <= j < players.len() ==> !steered_by(players@[j], client_entity, client_id),
        },
{
    let mut i: usize = 0;
    while i < players.len()
        invariant
            i <= players.len(),
            forall|j: int| 0 <= j < i ==> !steered_by(players@[j], client_entity, client_id),
        decreases players.len() - i,
    {
        let owned = match players[i].owner {
            Some(o) => o == client_entity,
            None => false,
        };
        if owned || players[i].client_id == client_id {
            return Some(i);
        }
        i = i + 1;
    }
    None
}

/// The entities of the players that carry `client_id`, in order.
pub open spec fn players_of(players: Seq<PlayerRecord>, client_id: u64) -> Seq<u64>
    decreases players.len(),
{
    if players.len() == 0 {
        Seq::empty()
    } else {
        let rest = players_of(players.drop_last(), client_id);
        if players.last().client_id == client_id {
            rest.push(players.last().entity)
        } else {
            rest
        }
    }
}

/// The players to despawn when the client with `client_id` disconnects.
pub fn handle_client_disconnect(players: &Vec<PlayerRecord>, client_id: u64) -> (r: Vec<u64>)
    ensures
        r@ == players_of(players@, client_id),
{
    let mut out: Vec<u64> = Vec::new();
    let mut i: usize = 0;
    while i < players.len()
        invariant
            i <= players.len(),
            out@ == players_of(players@.take(i as int), client_id),
        decreases players.len() - i,
    {
        assert(players@.take(i + 1).drop_last() == players@.take(i as int));
        if players[i].client_id == client_id {
            out.push(players[i].entity);
        }
        i = i + 1;
    }
    assert(players@.take(players.len() as int) == players@);
    out
}

/// The account an authentication service vouched for.
pub struct AuthenticatedUser {
    pub uid: u64,
    pub username: String,
}

/// What the server does with a client's greeting.
pub enum HelloAction {
    /// The client is already admitted; the greeting is ignored.
    Ignore,
    /// Confirm the login and spawn a player named after the user.
    Admit { uid: u64, username: String },
    /// Send the reason and keep the client out.
    Kick { reason: String },
}

/// The kick reason for a failed authentication with error text `error`.
pub open spec fn kick_reason(error: Seq<char>) -> Seq<char> {
    "Authentication failed: "@ + error
}

/// Decides on a greeting from a client: a client that already receives
/// replication is ignored; otherwise the outcome of checking its key
/// (`auth`: the user, or the error's text) admits or kicks it.
pub fn hello_action(already_admitted: bool, auth: Result<AuthenticatedUser, String>) -> (r:
    HelloAction)
    ensures
        already_admitted ==> r is Ignore,
        !already_admitted ==> match auth {
            Ok(user) => r matches HelloAction::Admit { uid, username } && uid == user.uid
                && username@ == user.username@,
            Err(e) => r matches HelloAction::Kick { reason } && reason@ == kick_reason(e@),
        },
{
    if already_admitted {
        return HelloAction::Ignore;
    }
    match auth {
        Ok(user) => HelloAction::Admit { uid: user.uid, username: user.username },
        Err(e) => {
            let mut reason = String::from_str("Authentication failed: ");
            reason.append(e.as_str());
            HelloAction::Kick { reason }
        },
    }
}


/// A player character's name: "Player", or "Player_" followed by anything.
pub open spec fn player_name(name: Seq<char>) -> bool {
    name == "Player"@ || ("Player_"@.len() <= name.len() && name.subrange(0, "Player_"@.len() as int)
        == "Player_"@)
}

/// Whether an entity with this name is a player character.
pub fn is_player_name(name: &str) -> (r: bool)
    ensures
        r == player_name(name@),
{
    str_eq(name, "Player") || starts_with_text(name, "Player_")
}

/// Whether an entity is left over from a playtest and goes when the
/// playtest stops: bricks (the editor's own are restored from their
/// snapshot), player characters and the local player.
pub fn is_playtest_leftover(name: &str, is_brick: bool) -> (r: bool)
    ensures
        r == (is_brick || player_name(name@) || name@ == "LocalPlayer"@),
{
    is_brick || is_player_name(name) || str_eq(name, "LocalPlayer")
}

} // verus!
