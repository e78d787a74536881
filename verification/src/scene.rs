//! The editor's model of the scene: entities with names and parent links.
use vstd::prelude::*;

verus! {

/// What the editor knows of one entity of the scene.
pub struct SceneNode {
    pub entity: u64,
    pub name: String,
    pub parent: Option<u64>,
    pub children: Vec<u64>,
    pub is_brick: bool,
    /// The entity holds a server, local or module script.
    pub is_script: bool,
}

/// The explorer lists bricks, scripts, and the baseplate.
pub open spec fn is_managed(node: SceneNode) -> bool {
    node.name@ == "Baseplate"@ || node.is_brick || node.is_script
}

/// The index of the first node for this entity.
pub open spec fn entity_index(nodes: Seq<SceneNode>, entity: u64) -> Option<int>
    decreases nodes.len(),
{
    if nodes.len() == 0 {
        None
    } else {
        match entity_index(nodes.drop_last(), entity) {
            Some(i) => Some(i),
            None => if nodes.last().entity == entity {
                Some(nodes.len() - 1)
            } else {
                None
            },
        }
    }
}

/// The index found for an entity points into the nodes and holds that entity.
pub broadcast proof fn lemma_entity_index_bounds(nodes: Seq<SceneNode>, entity: u64)
    ensures
        #[trigger] entity_index(nodes, entity) matches Some(i) ==> 0 <= i < nodes.len()
            && nodes[i].entity == entity,
    decreases nodes.len(),
{
    if nodes.len() > 0 {
        lemma_entity_index_bounds(nodes.drop_last(), entity);
    }
}


/// The entity reached from `e` by following `k` parent links, if the walk
/// gets that far.
pub open spec fn ancestor_at(nodes: Seq<SceneNode>, e: u64, k: nat) -> Option<u64>
    decreases k,
{
    if k == 0 {
        Some(e)
    } else {
        match entity_index(nodes, e) {
            None => None,
            Some(i) => match nodes[i].parent {
                None => None,
                Some(p) => ancestor_at(nodes, p, (k - 1) as nat),
            },
        }
    }
}

} // verus!
