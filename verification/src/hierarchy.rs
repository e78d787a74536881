//! Validation of the node hierarchy stored in a map file.
use std::collections::HashMap;
use vstd::prelude::*;

verus! {

broadcast use vstd::std_specs::hash::group_hash_axioms;

/// One node of a saved map (a brick or a script): its id and its parent's id.
#[derive(Clone, Copy, Debug, PartialEq, Eq, Structural)]
pub struct HierarchyNode {
    pub node_id: u64,
    pub parent_node_id: Option<u64>,
}

/// The part of a saved map that the hierarchy check reads.
pub struct MapHierarchy {
    pub version: u32,
    pub bricks: Vec<HierarchyNode>,
    pub scripts: Vec<HierarchyNode>,
}

/// Why a map's hierarchy was refused.
#[derive(Clone, Copy, Debug, PartialEq, Eq, Structural)]
pub enum HierarchyError {
    DuplicateNodeIds,
    SelfParenting,
    DanglingParent,
    Cycle,
}

/// The first format version whose nodes carry ids and parent ids.
pub const FIRST_VERSION_WITH_NODE_IDS: u32 = 6;

impl HierarchyError {
    /// The message that the server logs for this error.
    pub fn message(&self) -> (r: &'static str)
        ensures
            *self == HierarchyError::DuplicateNodeIds ==> r@ == "map contains duplicate node IDs"@,
            *self == HierarchyError::SelfParenting ==> r@ == "map contains a self-parenting node"@,
            *self == HierarchyError::DanglingParent ==> r@ == "map contains a dangling parent ID"@,
            *self == HierarchyError::Cycle ==> r@ == "map hierarchy contains a cycle"@,
    {
        match self {
            HierarchyError::DuplicateNodeIds => "map contains duplicate node IDs",
            HierarchyError::SelfParenting => "map contains a self-parenting node",
            HierarchyError::DanglingParent => "map contains a dangling parent ID",
            HierarchyError::Cycle => "map hierarchy contains a cycle",
        }
    }
}

/// All nodes of a map, bricks first, then scripts.
pub open spec fn map_nodes(state: MapHierarchy) -> Seq<HierarchyNode> {
    state.bricks@ + state.scripts@
}

/// The map from node id to parent id, later nodes overriding earlier ones.
pub open spec fn parent_map(nodes: Seq<HierarchyNode>) -> Map<u64, Option<u64>>
    decreases nodes.len(),
{
    if nodes.len() == 0 {
        Map::empty()
    } else {
        parent_map(nodes.drop_last()).insert(nodes.last().node_id, nodes.last().parent_node_id)
    }
}

/// Two nodes share an id.
pub open spec fn has_duplicate_ids(nodes: Seq<HierarchyNode>) -> bool {
    exists|i: int, j: int|
        0 <= i < j < nodes.len() && #[trigger] nodes[i].node_id == #[trigger] nodes[j].node_id
}

/// One step up the hierarchy: the parent of `current`, or `None` once the
/// walk has left the known nodes or reached a root.
pub open spec fn step_up(parents: Map<u64, Option<u64>>, current: Option<u64>) -> Option<u64> {
    match current {
        Some(node) => if parents.contains_key(node) {
            parents[node]
        } else {
            None
        },
        None => None,
    }
}

/// Where a walk of `k` steps up the hierarchy from `start` stands.
pub open spec fn walk_up(parents: Map<u64, Option<u64>>, start: Option<u64>, k: nat) -> Option<u64>
    decreases k,
{
    if k == 0 {
        start
    } else {
        step_up(parents, walk_up(parents, start, (k - 1) as nat))
    }
}

/// Walking up from `id` ends after finitely many steps.
pub open spec fn reaches_root(parents: Map<u64, Option<u64>>, id: u64) -> bool {
    exists|k: nat| #[trigger] walk_up(parents, Some(id), k) is None
}

/// What is wrong with one node, checked in the server's order.
pub open spec fn node_fault(parents: Map<u64, Option<u64>>, node: HierarchyNode) -> Option<
    HierarchyError,
> {
    if node.parent_node_id == Some(node.node_id) {
        Some(HierarchyError::SelfParenting)
    } else if node.parent_node_id matches Some(p) && !parents.contains_key(p) {
        Some(HierarchyError::DanglingParent)
    } else if !reaches_root(parents, node.node_id) {
        Some(HierarchyError::Cycle)
    } else {
        None
    }
}

/// The fault of the first faulty node, in order.
pub open spec fn first_fault(parents: Map<u64, Option<u64>>, nodes: Seq<HierarchyNode>) -> Option<
    HierarchyError,
>
    decreases nodes.len(),
{
    if nodes.len() == 0 {
        None
    } else {
        match node_fault(parents, nodes[0]) {
            Some(e) => Some(e),
            None => first_fault(parents, nodes.drop_first()),
        }
    }
}

/// The verdict on a map's hierarchy.
pub open spec fn hierarchy_verdict(version: u32, nodes: Seq<HierarchyNode>) -> Result<
    (),
    HierarchyError,
> {
    if version < FIRST_VERSION_WITH_NODE_IDS {
        Ok(())
    } else if has_duplicate_ids(nodes) {
        Err(HierarchyError::DuplicateNodeIds)
    } else {
        match first_fault(parent_map(nodes), nodes) {
            Some(e) => Err(e),
            None => Ok(()),
        }
    }
}

proof fn lemma_parent_map_dom(nodes: Seq<HierarchyNode>, id: u64)
    ensures
        parent_map(nodes).contains_key(id) <==> exists|k: int|
            0 <= k < nodes.len() && #[trigger] nodes[k].node_id == id,
    decreases nodes.len(),
{
    if nodes.len() > 0 {
        lemma_parent_map_dom(nodes.drop_last(), id);
        if parent_map(nodes.drop_last()).contains_key(id) {
            let k = choose|k: int| 0 <= k < nodes.drop_last().len() && #[trigger] nodes.drop_last()[k].node_id == id;
            assert(nodes[k].node_id == id);
        }
        if exists|k: int| 0 <= k < nodes.len() && #[trigger] nodes[k].node_id == id {
            let k = choose|k: int| 0 <= k < nodes.len() && #[trigger] nodes[k].node_id == id;
            if k < nodes.len() - 1 {
                assert(nodes.drop_last()[k].node_id == id);
            }
        }
    }
}

proof fn lemma_parent_map_finite(nodes: Seq<HierarchyNode>)
    ensures
        parent_map(nodes).dom().finite(),
        parent_map(nodes).dom().len() <= nodes.len(),
    decreases nodes.len(),
{
    if nodes.len() > 0 {
        lemma_parent_map_finite(nodes.drop_last());
    }
}

proof fn lemma_walk_none(parents: Map<u64, Option<u64>>, b: nat)
    ensures
        walk_up(parents, None, b) is None,
    decreases b,
{
    if b > 0 {
        lemma_walk_none(parents, (b - 1) as nat);
    }
}

proof fn lemma_walk_add(parents: Map<u64, Option<u64>>, start: Option<u64>, a: nat, b: nat)
    ensures
        walk_up(parents, start, a + b) == walk_up(parents, walk_up(parents, start, a), b),
    decreases b,
{
    if b > 0 {
        lemma_walk_add(parents, start, a, (b - 1) as nat);
        assert(walk_up(parents, start, a + b) == step_up(
            parents,
            walk_up(parents, start, (a + b - 1) as nat),
        ));
    }
}

/// Once a walk has stopped it stays stopped.
proof fn lemma_walk_stays_none(parents: Map<u64, Option<u64>>, start: Option<u64>, a: nat, b: nat)
    requires
        walk_up(parents, start, a) is None,
        a <= b,
    ensures
        walk_up(parents, start, b) is None,
{
    lemma_walk_add(parents, start, a, (b - a) as nat);
    lemma_walk_none(parents, (b - a) as nat);
}

/// A walk that comes back to a node it has visited never stops.
proof fn lemma_periodic_walk(parents: Map<u64, Option<u64>>, id: u64, i: nat, j: nat, k: nat)
    requires
        i < j,
        walk_up(parents, Some(id), i) == walk_up(parents, Some(id), j),
        forall|t: nat| t <= j ==> (#[trigger] walk_up(parents, Some(id), t)) is Some,
    ensures
        walk_up(parents, Some(id), k) is Some,
    decreases k,
{
    if k > j {
        let d = (j - i) as nat;
        let rest = (k - j) as nat;
        lemma_walk_add(parents, Some(id), j, rest);
        lemma_walk_add(parents, Some(id), i, rest);
        assert(i + rest == k - d);
        lemma_periodic_walk(parents, id, i, j, (k - d) as nat);
    }
}

/// A walk of more steps than there are nodes, that has not stopped, never stops.
proof fn lemma_long_walk_never_stops(parents: Map<u64, Option<u64>>, id: u64, bound: nat)
    requires
        parents.dom().finite(),
        parents.dom().len() <= bound,
        walk_up(parents, Some(id), bound + 1) is Some,
    ensures
        !reaches_root(parents, id),
{
    assert forall|t: nat| t <= bound + 1 implies (#[trigger] walk_up(parents, Some(id), t)) is Some by {
        if walk_up(parents, Some(id), t) is None {
            lemma_walk_stays_none(parents, Some(id), t, bound + 1);
        }
    }
    let visited = Seq::new(bound + 1, |t: int| walk_up(parents, Some(id), t as nat).unwrap());
    assert forall|t: int| 0 <= t < visited.len() implies parents.contains_key(
        #[trigger] visited[t],
    ) by {
        assert(walk_up(parents, Some(id), (t + 1) as nat) is Some);
        assert(walk_up(parents, Some(id), (t + 1) as nat) == step_up(
            parents,
            walk_up(parents, Some(id), t as nat),
        ));
    }
    assert(visited.to_set().subset_of(parents.dom()));
    vstd::set_lib::lemma_len_subset(visited.to_set(), parents.dom());
    if visited.no_duplicates() {
        visited.unique_seq_to_set();
        assert(false);
    }
    let (i, j) = choose|i: int, j: int|
        0 <= i < visited.len() && 0 <= j < visited.len() && i != j && visited[i] == visited[j];
    let (lo, hi) = if i < j {
        (i, j)
    } else {
        (j, i)
    };
    assert(visited[lo] == visited[hi]);
    assert(walk_up(parents, Some(id), lo as nat) == walk_up(parents, Some(id), hi as nat));
    assert forall|k: nat| (#[trigger] walk_up(parents, Some(id), k)) is Some by {
        lemma_periodic_walk(parents, id, lo as nat, hi as nat, k);
    }
}

proof fn lemma_first_fault_none(parents: Map<u64, Option<u64>>, nodes: Seq<HierarchyNode>, i: int)
    requires
        first_fault(parents, nodes) is None,
        0 <= i < nodes.len(),
    ensures
        node_fault(parents, nodes[i]) is None,
    decreases nodes.len(),
{
    if i > 0 {
        lemma_first_fault_none(parents, nodes.drop_first(), i - 1);
    }
}

/// A hierarchy that the check accepts is a forest: node ids are unique,
/// every parent id names another node of the map, and walking up from any
/// node reaches a root.
pub proof fn lemma_accepted_hierarchy_is_forest(state: MapHierarchy)
    requires
        state.version >= FIRST_VERSION_WITH_NODE_IDS,
        hierarchy_verdict(state.version, map_nodes(state)) is Ok,
    ensures
        !has_duplicate_ids(map_nodes(state)),
        forall|i: int|
            0 <= i < map_nodes(state).len() ==> {
                let node = #[trigger] map_nodes(state)[i];
                &&& node.parent_node_id != Some(node.node_id)
                &&& (node.parent_node_id matches Some(p) ==> parent_map(
                    map_nodes(state),
                ).contains_key(p))
                &&& reaches_root(parent_map(map_nodes(state)), node.node_id)
            },
{
    let nodes = map_nodes(state);
    assert forall|i: int| 0 <= i < nodes.len() implies node_fault(
        parent_map(nodes),
        #[trigger] nodes[i],
    ) is None by {
        lemma_first_fault_none(parent_map(nodes), nodes, i);
    }
}

/// Walks up from `id` through `parents` and says whether the walk stops.
fn chain_reaches_root(parents: &HashMap<u64, Option<u64>>, id: u64, bound: usize) -> (r: bool)
    requires
        parents@.dom().finite(),
        parents@.dom().len() <= bound,
    ensures
        r == reaches_root(parents@, id),
{
    let mut current: Option<u64> = Some(id);
    let mut steps: usize = 0;
    while steps < bound && current.is_some()
        invariant
            steps <= bound,
            current == walk_up(parents@, Some(id), steps as nat),
        decreases bound - steps,
    {
        let node = current.unwrap();
        current = match parents.get(&node) {
            Some(parent) => *parent,
            None => None,
        };
        steps = steps + 1;
        assert(current == step_up(parents@, walk_up(parents@, Some(id), (steps - 1) as nat)));
    }
    if current.is_none() {
        assert(walk_up(parents@, Some(id), steps as nat) is None);
        return true;
    }
    let node = current.unwrap();
    let next = match parents.get(&node) {
        Some(parent) => *parent,
        None => None,
    };
    assert(next == walk_up(parents@, Some(id), (bound + 1) as nat));
    if next.is_some() {
        proof {
            lemma_long_walk_never_stops(parents@, id, bound as nat);
        }
        false
    } else {
        true
    }
}

/// Checks that a map's node ids are unique, that every parent id names a
/// node of the map, and that no chain of parents loops. Maps older than
/// version 6 carry no ids and always pass.
pub fn validate_hierarchy(state: &MapHierarchy) -> (r: Result<(), HierarchyError>)
    ensures
        r == hierarchy_verdict(state.version, map_nodes(*state)),
{
    if state.version < FIRST_VERSION_WITH_NODE_IDS {
        return Ok(());
    }
    let mut nodes: Vec<HierarchyNode> = Vec::new();
    let mut b: usize = 0;
    while b < state.bricks.len()
        invariant
            b <= state.bricks.len(),
            nodes@ == state.bricks@.take(b as int),
        decreases state.bricks.len() - b,
    {
        nodes.push(state.bricks[b]);
        b = b + 1;
        assert(nodes@ == state.bricks@.take(b as int));
    }
    let mut s: usize = 0;
    while s < state.scripts.len()
        invariant
            s <= state.scripts.len(),
            nodes@ == state.bricks@ + state.scripts@.take(s as int),
        decreases state.scripts.len() - s,
    {
        nodes.push(state.scripts[s]);
        s = s + 1;
        assert(nodes@ == state.bricks@ + state.scripts@.take(s as int));
    }
    assert(state.bricks@.take(state.bricks@.len() as int) == state.bricks@);
    assert(state.scripts@.take(state.scripts@.len() as int) == state.scripts@);
    let ghost all = nodes@;
    assert(all == map_nodes(*state));

    let n = nodes.len();
    let mut parents: HashMap<u64, Option<u64>> = HashMap::new();
    let mut i: usize = 0;
    while i < n
        invariant
            n == nodes.len(),
            all == nodes@,
            all == map_nodes(*state),
            state.version >= FIRST_VERSION_WITH_NODE_IDS,
            i <= n,
            parents@ == parent_map(all.take(i as int)),
            !has_duplicate_ids(all.take(i as int)),
        decreases n - i,
    {
        let node = nodes[i];
        assert(all.take(i + 1).drop_last() == all.take(i as int));
        let previous = parents.insert(node.node_id, node.parent_node_id);
        if previous.is_some() {
            proof {
                lemma_parent_map_dom(all.take(i as int), node.node_id);
                let k = choose|k: int|
                    0 <= k < all.take(i as int).len() && #[trigger] all.take(
                        i as int,
                    )[k].node_id == node.node_id;
                assert(all[k].node_id == all[i as int].node_id);
                assert(has_duplicate_ids(all));
            }
            return Err(HierarchyError::DuplicateNodeIds);
        }
        proof {
            lemma_parent_map_dom(all.take(i as int), node.node_id);
            assert forall|a: int, c: int|
                0 <= a < c < all.take(i + 1).len() implies #[trigger] all.take(i + 1)[a].node_id
                != #[trigger] all.take(i + 1)[c].node_id by {
                if c == i {
                    assert(all.take(i as int)[a].node_id == all.take(i + 1)[a].node_id);
                } else {
                    assert(all.take(i as int)[a] == all.take(i + 1)[a]);
                    assert(all.take(i as int)[c] == all.take(i + 1)[c]);
                }
            }
        }
        i = i + 1;
    }
    assert(all.take(n as int) == all);
    proof {
        lemma_parent_map_finite(all);
    }
    let mut j: usize = 0;
    while j < n
        invariant
            n == nodes.len(),
            all == nodes@,
            j <= n,
            parents@ == parent_map(all),
            all == map_nodes(*state),
            state.version >= FIRST_VERSION_WITH_NODE_IDS,
            !has_duplicate_ids(all),
            parents@.dom().finite(),
            parents@.dom().len() <= n,
            first_fault(parents@, all) == first_fault(parents@, all.skip(j as int)),
        decreases n - j,
    {
        let node = nodes[j];
        assert(all.skip(j as int)[0] == node);
        assert(all.skip(j as int).drop_first() == all.skip(j + 1));
        assert(node_fault(parents@, node) is None ==> first_fault(parents@, all.skip(j as int))
            == first_fault(parents@, all.skip(j + 1)));
        match node.parent_node_id {
            Some(p) => {
                if p == node.node_id {
                    return Err(HierarchyError::SelfParenting);
                }
                if !parents.contains_key(&p) {
                    return Err(HierarchyError::DanglingParent);
                }
            },
            None => {},
        }
        if !chain_reaches_root(&parents, node.node_id, n) {
            return Err(HierarchyError::Cycle);
        }
        j = j + 1;
    }
    assert(all.skip(n as int).len() == 0);
    Ok(())
}

} // verus!
