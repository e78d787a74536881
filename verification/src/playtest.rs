//! Ending a playtest in the studio: what goes, and how the saved scripts
//! find their bricks again.
use crate::map_loading::ParentLink;
use crate::players::{is_player_name, player_name};
use crate::scene::SceneNode;
use crate::services::NamedEntity;
use crate::text::{contains_text, occurs_at, starts_with_text, str_eq};
use vstd::prelude::*;

verus! {

/// Left by the running game: bricks and player characters.
pub open spec fn game_leftover(n: SceneNode) -> bool {
    n.is_brick || player_name(n.name@)
}

/// A stray root the client made: a rig ("Armature" in its name), the local
/// player, or a numbered player character, that is not a brick.
pub open spec fn stray_root(n: SceneNode) -> bool {
    &&& n.parent is None
    &&& !n.is_brick
    &&& {
        ||| exists|i: int| occurs_at(n.name@, "Armature"@, i)
        ||| n.name@ == "LocalPlayer"@
        ||| ("Player_"@.len() <= n.name@.len() && n.name@.subrange(0, "Player_"@.len() as int)
            == "Player_"@)
    }
}

/// The entities of `nodes` that satisfy `keep`, in order.
pub open spec fn entities_where(nodes: Seq<SceneNode>, keep: spec_fn(SceneNode) -> bool) -> Seq<u64>
    decreases nodes.len(),
{
    if nodes.len() == 0 {
        Seq::empty()
    } else if keep(nodes.last()) {
        entities_where(nodes.drop_last(), keep).push(nodes.last().entity)
    } else {
        entities_where(nodes.drop_last(), keep)
    }
}

/// What stopping a playtest despawns, pass by pass: the game's leftovers,
/// then stray roots, then every script (the saved ones come back).
pub open spec fn stop_despawns(nodes: Seq<SceneNode>) -> Seq<u64> {
    entities_where(nodes, |n: SceneNode| game_leftover(n)) + entities_where(
        nodes,
        |n: SceneNode| stray_root(n),
    ) + entities_where(nodes, |n: SceneNode| n.is_script)
}

fn is_stray_root(n: &SceneNode) -> (r: bool)
    ensures
        r == stray_root(*n),
{
    n.parent.is_none() && !n.is_brick && (contains_text(n.name.as_str(), "Armature") || str_eq(
        n.name.as_str(),
        "LocalPlayer",
    ) || starts_with_text(n.name.as_str(), "Player_"))
}

/// The entities that stopping a playtest despawns, in the order it goes
/// through them; an entity that two passes pick is listed twice.
pub fn stop_playtest_despawns(nodes: &Vec<SceneNode>) -> (r: Vec<u64>)
    ensures
        r@ == stop_despawns(nodes@),
{
    let ghost first = |n: SceneNode| game_leftover(n);
    let ghost second = |n: SceneNode| stray_root(n);
    let ghost third = |n: SceneNode| n.is_script;
    let mut out: Vec<u64> = Vec::new();
    let mut i: usize = 0;
    while i < nodes.len()
        invariant
            i <= nodes.len(),
            out@ == entities_where(nodes@.take(i as int), first),
            first == (|n: SceneNode| game_leftover(n)),
        decreases nodes.len() - i,
    {
        assert(nodes@.take(i + 1).drop_last() == nodes@.take(i as int));
        if nodes[i].is_brick || is_player_name(nodes[i].name.as_str()) {
            out.push(nodes[i].entity);
        }
        i = i + 1;
    }
    assert(nodes@.take(nodes.len() as int) == nodes@);
    let ghost after_first = out@;
    let mut j: usize = 0;
    while j < nodes.len()
        invariant
            j <= nodes.len(),
            out@ == after_first + entities_where(nodes@.take(j as int), second),
            second == (|n: SceneNode| stray_root(n)),
        decreases nodes.len() - j,
    {
        assert(nodes@.take(j + 1).drop_last() == nodes@.take(j as int));
        if is_stray_root(&nodes[j]) {
            out.push(nodes[j].entity);
        }
        j = j + 1;
    }
    let ghost after_second = out@;
    let mut k: usize = 0;
    while k < nodes.len()
        invariant
            k <= nodes.len(),
            out@ == after_second + entities_where(nodes@.take(k as int), third),
            third == (|n: SceneNode| n.is_script),
        decreases nodes.len() - k,
    {
        assert(nodes@.take(k + 1).drop_last() == nodes@.take(k as int));
        if nodes[k].is_script {
            out.push(nodes[k].entity);
        }
        k = k + 1;
    }
    out
}

/// The entity of the last restored brick with this name.
pub open spec fn last_named(bricks: Seq<NamedEntity>, name: Seq<char>) -> Option<u64>
    decreases bricks.len(),
{
    if bricks.len() == 0 {
        None
    } else if bricks.last().name@ == name {
        Some(bricks.last().entity)
    } else {
        last_named(bricks.drop_last(), name)
    }
}

/// A script restored after a playtest: its new entity and the name of the
/// brick it was under, if any.
pub struct RestoredScript {
    pub entity: u64,
    pub parent_name: Option<String>,
}

/// The links that put restored scripts back under their bricks, in script order.
pub open spec fn script_links(bricks: Seq<NamedEntity>, scripts: Seq<RestoredScript>) -> Seq<ParentLink>
    decreases scripts.len(),
{
    if scripts.len() == 0 {
        Seq::empty()
    } else {
        let rest = script_links(bricks, scripts.drop_last());
        let s = scripts.last();
        match s.parent_name {
            Some(n) => match last_named(bricks, n@) {
                Some(p) => rest.push(ParentLink { parent: p, child: s.entity }),
                None => rest,
            },
            None => rest,
        }
    }
}

fn find_last_named(bricks: &Vec<NamedEntity>, name: &str) -> (r: Option<u64>)
    ensures
        r == last_named(bricks@, name@),
{
    let mut i: usize = bricks.len();
    assert(bricks@.take(i as int) == bricks@);
    while i > 0
        invariant
            i <= bricks.len(),
            last_named(bricks@, name@) == last_named(bricks@.take(i as int), name@),
        decreases i,
    {
        assert(bricks@.take(i as int).drop_last() == bricks@.take(i - 1));
        assert(bricks@.take(i as int).last() == bricks@[i - 1]);
        if str_eq(bricks[i - 1].name.as_str(), name) {
            return Some(bricks[i - 1].entity);
        }
        i = i - 1;
    }
    None
}

/// Where the saved scripts go once the saved bricks are back: each script
/// that was under a brick goes under the last restored brick with that
/// brick's name; one whose brick is not found stays at the root.
pub fn restore_script_parents(bricks: &Vec<NamedEntity>, scripts: &Vec<RestoredScript>) -> (r: Vec<
    ParentLink,
>)
    ensures
        r@ == script_links(bricks@, scripts@),
{
    let mut out: Vec<ParentLink> = Vec::new();
    let mut i: usize = 0;
    while i < scripts.len()
        invariant
            i <= scripts.len(),
            out@ == script_links(bricks@, scripts@.take(i as int)),
        decreases scripts.len() - i,
    {
        assert(scripts@.take(i + 1).drop_last() == scripts@.take(i as int));
        match &scripts[i].parent_name {
            Some(n) => {
                if let Some(p) = find_last_named(bricks, n.as_str()) {
                    out.push(ParentLink { parent: p, child: scripts[i].entity });
                }
            },
            None => {},
        }
        i = i + 1;
    }
    assert(scripts@.take(scripts.len() as int) == scripts@);
    out
}

} // verus!
