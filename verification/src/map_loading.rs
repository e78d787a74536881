//! Which spawned entity becomes the child of which, when a map is loaded.
use std::collections::HashMap;
use vstd::prelude::*;

verus! {

broadcast use vstd::std_specs::hash::group_hash_axioms;

/// A node of a loaded map, with the entity that was spawned for it.
pub struct LoadedNode {
    pub node_id: u64,
    pub parent_node_id: Option<u64>,
    pub name: String,
    /// Only scripts of maps older than version 6 name their parent this way.
    pub parent_name: Option<String>,
    pub entity: u64,
}

/// `child` is to be attached under `parent`.
#[derive(Clone, Copy, Debug, PartialEq, Eq, Structural)]
pub struct ParentLink {
    pub parent: u64,
    pub child: u64,
}

/// The entity of the last node with this id.
pub open spec fn entity_of_node(nodes: Seq<LoadedNode>, id: u64) -> Option<u64>
    decreases nodes.len(),
{
    if nodes.len() == 0 {
        None
    } else if nodes.last().node_id == id {
        Some(nodes.last().entity)
    } else {
        entity_of_node(nodes.drop_last(), id)
    }
}

/// How many nodes carry this name.
pub open spec fn name_count(nodes: Seq<LoadedNode>, name: Seq<char>) -> nat
    decreases nodes.len(),
{
    if nodes.len() == 0 {
        0
    } else {
        name_count(nodes.drop_last(), name) + if nodes.last().name@ == name {
            1nat
        } else {
            0nat
        }
    }
}

/// The entity of the last node with this name.
pub open spec fn entity_named(nodes: Seq<LoadedNode>, name: Seq<char>) -> Option<u64>
    decreases nodes.len(),
{
    if nodes.len() == 0 {
        None
    } else if nodes.last().name@ == name {
        Some(nodes.last().entity)
    } else {
        entity_named(nodes.drop_last(), name)
    }
}

/// The links that parent ids give, in node order; ids that name no node are skipped.
pub open spec fn id_links(all: Seq<LoadedNode>, nodes: Seq<LoadedNode>) -> Seq<ParentLink>
    decreases nodes.len(),
{
    if nodes.len() == 0 {
        Seq::empty()
    } else {
        let rest = id_links(all, nodes.drop_last());
        let node = nodes.last();
        match node.parent_node_id {
            Some(pid) => match entity_of_node(all, pid) {
                Some(p) => rest.push(ParentLink { parent: p, child: node.entity }),
                None => rest,
            },
            None => rest,
        }
    }
}

/// The links that parent names give to scripts of old maps: a script without
/// a parent id is attached under the one node that carries its parent's
/// name; a name that no node or several nodes carry attaches nothing.
pub open spec fn name_links(version: u32, all: Seq<LoadedNode>, scripts: Seq<LoadedNode>) -> Seq<
    ParentLink,
>
    decreases scripts.len(),
{
    if scripts.len() == 0 {
        Seq::empty()
    } else {
        let rest = name_links(version, all, scripts.drop_last());
        let script = scripts.last();
        if script.parent_node_id is None && version < 6 && script.parent_name is Some
            && name_count(all, script.parent_name.unwrap()@) == 1 {
            rest.push(
                ParentLink {
                    parent: entity_named(all, script.parent_name.unwrap()@).unwrap(),
                    child: script.entity,
                },
            )
        } else {
            rest
        }
    }
}

/// All links of a loaded map: first those by id (bricks, then scripts), then those by name.
pub open spec fn map_links(version: u32, bricks: Seq<LoadedNode>, scripts: Seq<LoadedNode>) -> Seq<
    ParentLink,
> {
    id_links(bricks + scripts, bricks + scripts) + name_links(version, bricks + scripts, scripts)
}

/// The entity of the first brick with this name.
pub open spec fn first_brick_named(bricks: Seq<LoadedNode>, name: Seq<char>) -> Option<u64>
    decreases bricks.len(),
{
    if bricks.len() == 0 {
        None
    } else {
        match first_brick_named(bricks.drop_last(), name) {
            Some(e) => Some(e),
            None => if bricks.last().name@ == name {
                Some(bricks.last().entity)
            } else {
                None
            },
        }
    }
}

/// When the studio opens a project, a script of a map older than version 6
/// without a parent id goes under the first brick that carries its
/// parent's name.
pub open spec fn open_name_links(version: u32, bricks: Seq<LoadedNode>, scripts: Seq<LoadedNode>) -> Seq<
    ParentLink,
>
    decreases scripts.len(),
{
    if scripts.len() == 0 {
        Seq::empty()
    } else {
        let rest = open_name_links(version, bricks, scripts.drop_last());
        let script = scripts.last();
        if script.parent_node_id is None && version < 6 && script.parent_name is Some {
            match first_brick_named(bricks, script.parent_name.unwrap()@) {
                Some(p) => rest.push(ParentLink { parent: p, child: script.entity }),
                None => rest,
            }
        } else {
            rest
        }
    }
}

/// The links the studio makes when it opens a project: those by name
/// first, in script order, then those by id, in node order.
pub open spec fn open_links(version: u32, bricks: Seq<LoadedNode>, scripts: Seq<LoadedNode>) -> Seq<
    ParentLink,
> {
    open_name_links(version, bricks, scripts) + id_links(bricks + scripts, bricks + scripts)
}

proof fn lemma_first_brick_prefix(bricks: Seq<LoadedNode>, name: Seq<char>, n: int)
    requires
        0 <= n <= bricks.len(),
        first_brick_named(bricks.take(n), name) is Some,
    ensures
        first_brick_named(bricks, name) == first_brick_named(bricks.take(n), name),
    decreases bricks.len() - n,
{
    if n < bricks.len() {
        assert(bricks.take(n + 1).drop_last() == bricks.take(n));
        lemma_first_brick_prefix(bricks, name, n + 1);
    } else {
        assert(bricks.take(n) == bricks);
    }
}

fn find_first_brick(bricks: &Vec<LoadedNode>, name: &String) -> (r: Option<u64>)
    ensures
        r == first_brick_named(bricks@, name@),
{
    let mut i: usize = 0;
    while i < bricks.len()
        invariant
            i <= bricks.len(),
            first_brick_named(bricks@.take(i as int), name@) is None,
        decreases bricks.len() - i,
    {
        assert(bricks@.take(i + 1).drop_last() == bricks@.take(i as int));
        if bricks[i].name == *name {
            proof {
                lemma_first_brick_prefix(bricks@, name@, i + 1);
            }
            return Some(bricks[i].entity);
        }
        i = i + 1;
    }
    assert(bricks@.take(bricks.len() as int) == bricks@);
    None
}

proof fn lemma_entity_of_node_map(nodes: Seq<LoadedNode>, m: Map<u64, u64>, id: u64)
    requires
        m == entity_map(nodes),
    ensures
        entity_of_node(nodes, id) == if m.contains_key(id) {
            Some(m[id])
        } else {
            None
        },
    decreases nodes.len(),
{
    if nodes.len() > 0 {
        lemma_entity_of_node_map(nodes.drop_last(), entity_map(nodes.drop_last()), id);
    }
}

/// The map from node id to entity, later nodes overriding earlier ones.
pub open spec fn entity_map(nodes: Seq<LoadedNode>) -> Map<u64, u64>
    decreases nodes.len(),
{
    if nodes.len() == 0 {
        Map::empty()
    } else {
        entity_map(nodes.drop_last()).insert(nodes.last().node_id, nodes.last().entity)
    }
}

proof fn lemma_named_exists(nodes: Seq<LoadedNode>, name: Seq<char>)
    ensures
        name_count(nodes, name) > 0 ==> entity_named(nodes, name) is Some,
    decreases nodes.len(),
{
    if nodes.len() > 0 {
        lemma_named_exists(nodes.drop_last(), name);
    }
}

/// Counts the nodes named `name` and returns the entity of the last of them.
fn find_by_name(bricks: &Vec<LoadedNode>, scripts: &Vec<LoadedNode>, name: &String) -> (r: (
    u64,
    Option<u64>,
))
    ensures
        r.0 == name_count(bricks@ + scripts@, name@) || (r.0 == 2 && name_count(
            bricks@ + scripts@,
            name@,
        ) >= 2),
        r.0 <= 2,
        r.1 == entity_named(bricks@ + scripts@, name@),
{
    let ghost all = bricks@ + scripts@;
    let mut count: u64 = 0;
    let mut found: Option<u64> = None;
    let mut i: usize = 0;
    let total = bricks.len();
    while i < total
        invariant
            total == bricks.len(),
            i <= total,
            all == bricks@ + scripts@,
            count <= 2,
            count == name_count(all.take(i as int), name@) || (count == 2 && name_count(
                all.take(i as int),
                name@,
            ) >= 2),
            found == entity_named(all.take(i as int), name@),
        decreases total - i,
    {
        assert(all.take(i + 1).drop_last() == all.take(i as int));
        assert(all.take(i + 1).last() == bricks@[i as int]);
        if bricks[i].name == *name {
            if count < 2 {
                count = count + 1;
            }
            found = Some(bricks[i].entity);
        }
        i = i + 1;
    }
    let mut k: usize = 0;
    let more = scripts.len();
    while k < more
        invariant
            total == bricks.len(),
            more == scripts.len(),
            k <= more,
            all == bricks@ + scripts@,
            count <= 2,
            count == name_count(all.take(total + k), name@) || (count == 2 && name_count(
                all.take(total + k),
                name@,
            ) >= 2),
            found == entity_named(all.take(total + k), name@),
        decreases more - k,
    {
        assert(all.take(total + k + 1).drop_last() == all.take(total + k));
        assert(all.take(total + k + 1).last() == scripts@[k as int]);
        if scripts[k].name == *name {
            if count < 2 {
                count = count + 1;
            }
            found = Some(scripts[k].entity);
        }
        k = k + 1;
    }
    assert(all.take(total + more) == all);
    (count, found)
}

/// The parent links the studio makes when it opens a project: first each
/// script of a map older than version 6 that has no parent id goes under the
/// first brick carrying its parent's name; then every node whose parent id
/// names a node goes under it.
pub fn resolve_open_links(version: u32, bricks: &Vec<LoadedNode>, scripts: &Vec<LoadedNode>) -> (r:
    Vec<ParentLink>)
    ensures
        r@ == open_links(version, bricks@, scripts@),
{
    let mut links: Vec<ParentLink> = Vec::new();
    let mut s: usize = 0;
    while s < scripts.len()
        invariant
            s <= scripts.len(),
            links@ == open_name_links(version, bricks@, scripts@.take(s as int)),
        decreases scripts.len() - s,
    {
        assert(scripts@.take(s + 1).drop_last() == scripts@.take(s as int));
        assert(scripts@.take(s + 1).last() == scripts@[s as int]);
        if scripts[s].parent_node_id.is_none() && version < 6 {
            if let Some(parent_name) = &scripts[s].parent_name {
                if let Some(p) = find_first_brick(bricks, parent_name) {
                    links.push(ParentLink { parent: p, child: scripts[s].entity });
                }
            }
        }
        s = s + 1;
    }
    assert(scripts@.take(scripts.len() as int) == scripts@);
    let by_name = links;
    let by_id = resolve_id_links(bricks, scripts);
    let mut all = by_name;
    let ghost first = all@;
    let mut k: usize = 0;
    while k < by_id.len()
        invariant
            k <= by_id.len(),
            all@ == first + by_id@.take(k as int),
        decreases by_id.len() - k,
    {
        all.push(by_id[k]);
        assert(by_id@.take(k + 1) == by_id@.take(k as int).push(by_id@[k as int]));
        k = k + 1;
    }
    assert(by_id@.take(by_id.len() as int) == by_id@);
    all
}

/// The links that parent ids give, in node order (bricks, then scripts).
fn resolve_id_links(bricks: &Vec<LoadedNode>, scripts: &Vec<LoadedNode>) -> (r: Vec<ParentLink>)
    ensures
        r@ == id_links(bricks@ + scripts@, bricks@ + scripts@),
{
    let ghost all = bricks@ + scripts@;
    let mut ids: HashMap<u64, u64> = HashMap::new();
    let total = bricks.len();
    let more = scripts.len();
    let mut i: usize = 0;
    while i < total
        invariant
            total == bricks.len(),
            i <= total,
            all == bricks@ + scripts@,
            ids@ == entity_map(all.take(i as int)),
        decreases total - i,
    {
        assert(all.take(i + 1).drop_last() == all.take(i as int));
        assert(all.take(i + 1).last() == bricks@[i as int]);
        ids.insert(bricks[i].node_id, bricks[i].entity);
        i = i + 1;
    }
    let mut k: usize = 0;
    while k < more
        invariant
            total == bricks.len(),
            more == scripts.len(),
            k <= more,
            all == bricks@ + scripts@,
            ids@ == entity_map(all.take(total + k)),
        decreases more - k,
    {
        assert(all.take(total + k + 1).drop_last() == all.take(total + k));
        assert(all.take(total + k + 1).last() == scripts@[k as int]);
        ids.insert(scripts[k].node_id, scripts[k].entity);
        k = k + 1;
    }
    assert(all.take(total + more) == all);

    let mut links: Vec<ParentLink> = Vec::new();
    let mut a: usize = 0;
    while a < total
        invariant
            total == bricks.len(),
            a <= total,
            all == bricks@ + scripts@,
            ids@ == entity_map(all),
            links@ == id_links(all, all.take(a as int)),
        decreases total - a,
    {
        assert(all.take(a + 1).drop_last() == all.take(a as int));
        assert(all.take(a + 1).last() == bricks@[a as int]);
        if let Some(pid) = bricks[a].parent_node_id {
            proof {
                lemma_entity_of_node_map(all, ids@, pid);
            }
            if let Some(p) = ids.get(&pid) {
                links.push(ParentLink { parent: *p, child: bricks[a].entity });
            }
        }
        a = a + 1;
    }
    let mut c: usize = 0;
    while c < more
        invariant
            total == bricks.len(),
            more == scripts.len(),
            c <= more,
            all == bricks@ + scripts@,
            ids@ == entity_map(all),
            links@ == id_links(all, all.take(total + c)),
        decreases more - c,
    {
        assert(all.take(total + c + 1).drop_last() == all.take(total + c));
        assert(all.take(total + c + 1).last() == scripts@[c as int]);
        if let Some(pid) = scripts[c].parent_node_id {
            proof {
                lemma_entity_of_node_map(all, ids@, pid);
            }
            if let Some(p) = ids.get(&pid) {
                links.push(ParentLink { parent: *p, child: scripts[c].entity });
            }
        }
        c = c + 1;
    }
    assert(all.take((total + more) as int) == all);
    links
}

/// The parent links to make once all nodes of a map have been spawned:
/// first, in node order (bricks, then scripts), each node whose parent id
/// names a node goes under that node's entity (the last one, if the id is
/// used twice); then each script of a map older than version 6 that has no
/// parent id goes under the one node that carries its parent's name.
pub fn resolve_map_links(version: u32, bricks: &Vec<LoadedNode>, scripts: &Vec<LoadedNode>) -> (r:
    Vec<ParentLink>)
    ensures
        r@ == map_links(version, bricks@, scripts@),
{
    let ghost all = bricks@ + scripts@;
    let total = bricks.len();
    let more = scripts.len();
    let mut links = resolve_id_links(bricks, scripts);
    let ghost by_id = links@;
    let mut s: usize = 0;
    while s < more
        invariant
            total == bricks.len(),
            more == scripts.len(),
            s <= more,
            all == bricks@ + scripts@,
            by_id == id_links(all, all),
            links@ == by_id + name_links(version, all, scripts@.take(s as int)),
        decreases more - s,
    {
        assert(scripts@.take(s + 1).drop_last() == scripts@.take(s as int));
        assert(scripts@.take(s + 1).last() == scripts@[s as int]);
        if scripts[s].parent_node_id.is_none() && version < 6 {
            match &scripts[s].parent_name {
                Some(parent_name) => {
                    let (count, found) = find_by_name(bricks, scripts, parent_name);
                    proof {
                        lemma_named_exists(all, parent_name@);
                    }
                    if count == 1 {
                        links.push(ParentLink { parent: found.unwrap(), child: scripts[s].entity });
                    }
                },
                None => {},
            }
        }
        s = s + 1;
    }
    assert(scripts@.take(more as int) == scripts@);
    links
}

} // verus!
