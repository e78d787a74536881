//! Operations of the editor on the scene hierarchy: which selected entities
//! are roots, what a rubber-band selection picks up, what "select all"
//! selects, where inserted objects go, and the node ids of a saved project.
use crate::contacts::contains_entity;
use crate::scene::{ancestor_at, entity_index, lemma_entity_index_bounds, SceneNode};
use vstd::prelude::*;

verus! {

broadcast use lemma_entity_index_bounds;

/// The index of the first node for `entity`.
fn lookup(nodes: &Vec<SceneNode>, entity: u64) -> (r: Option<usize>)
    ensures
        match entity_index(nodes@, entity) {
            Some(i) => r == Some(i as usize),
            None => r is None,
        },
        r matches Some(i) ==> i < nodes.len(),
{
    let mut i: usize = 0;
    while i < nodes.len()
        invariant
            i <= nodes.len(),
            entity_index(nodes@.take(i as int), entity) is None,
        decreases nodes.len() - i,
    {
        assert(nodes@.take(i + 1).drop_last() == nodes@.take(i as int));
        if nodes[i].entity == entity {
            proof {
                lemma_index_prefix(nodes@, entity, i + 1);
            }
            return Some(i);
        }
        i = i + 1;
    }
    assert(nodes@.take(nodes.len() as int) == nodes@);
    None
}

proof fn lemma_index_prefix(nodes: Seq<SceneNode>, entity: u64, n: int)
    requires
        0 <= n <= nodes.len(),
        entity_index(nodes.take(n), entity) is Some,
    ensures
        entity_index(nodes, entity) == entity_index(nodes.take(n), entity),
    decreases nodes.len() - n,
{
    if n < nodes.len() {
        assert(nodes.take(n + 1).drop_last() == nodes.take(n));
        lemma_index_prefix(nodes, entity, n + 1);
    } else {
        assert(nodes.take(n) == nodes);
    }
}

/// Some entity of `set` lies above `e`, within `steps` parent links.
pub open spec fn has_ancestor_in(nodes: Seq<SceneNode>, e: u64, set: Seq<u64>, steps: nat) -> bool
    decreases steps,
{
    if steps == 0 {
        false
    } else {
        match entity_index(nodes, e) {
            None => false,
            Some(i) => match nodes[i].parent {
                None => false,
                Some(p) => set.contains(p) || has_ancestor_in(nodes, p, set, (steps - 1) as nat),
            },
        }
    }
}

/// The selected entities, each once in order of first selection, that have
/// no selected ancestor (looking as many levels up as there are nodes).
pub open spec fn root_entities(selected: Seq<u64>, nodes: Seq<SceneNode>) -> Seq<u64> {
    crate::contacts::dedup(selected).filter(
        |e: u64| !has_ancestor_in(nodes, e, selected, nodes.len()),
    )
}

fn has_ancestor_in_exec(nodes: &Vec<SceneNode>, e: u64, set: &Vec<u64>) -> (r: bool)
    ensures
        r == has_ancestor_in(nodes@, e, set@, nodes@.len()),
{
    let mut current = e;
    let mut left: usize = nodes.len();
    while left > 0
        invariant
            left <= nodes.len(),
            has_ancestor_in(nodes@, e, set@, nodes@.len()) == has_ancestor_in(
                nodes@,
                current,
                set@,
                left as nat,
            ),
        decreases left,
    {
        match lookup(nodes, current) {
            None => {
                return false;
            },
            Some(i) => match nodes[i].parent {
                None => {
                    return false;
                },
                Some(p) => {
                    if contains_entity(set, p) {
                        return true;
                    }
                    current = p;
                },
            },
        }
        left = left - 1;
    }
    false
}

/// The selected entities that no other selected entity contains: each
/// once, in order of first selection.
pub fn selected_root_entities(selected: &Vec<u64>, nodes: &Vec<SceneNode>) -> (r: Vec<u64>)
    ensures
        r@ == root_entities(selected@, nodes@),
{
    let ghost keep = |e: u64| !has_ancestor_in(nodes@, e, selected@, nodes@.len());
    let mut seen: Vec<u64> = Vec::new();
    let mut roots: Vec<u64> = Vec::new();
    let mut i: usize = 0;
    while i < selected.len()
        invariant
            i <= selected.len(),
            seen@ == crate::contacts::dedup(selected@.take(i as int)),
            roots@ == seen@.filter(keep),
            keep == (|e: u64| !has_ancestor_in(nodes@, e, selected@, nodes@.len())),
        decreases selected.len() - i,
    {
        let e = selected[i];
        assert(selected@.take(i + 1).drop_last() == selected@.take(i as int));
        if !contains_entity(&seen, e) {
            let ghost before = seen@;
            seen.push(e);
            assert(seen@.drop_last() == before);
            reveal_with_fuel(Seq::filter, 1);
            if !has_ancestor_in_exec(nodes, e, selected) {
                roots.push(e);
            }
        }
        i = i + 1;
    }
    assert(selected@.take(selected.len() as int) == selected@);
    roots
}

/// The entities of bricks and scripts, in order, as "select all" picks them.
pub open spec fn items_of(nodes: Seq<SceneNode>) -> Seq<u64>
    decreases nodes.len(),
{
    if nodes.len() == 0 {
        Seq::empty()
    } else if nodes.last().is_brick || nodes.last().is_script {
        items_of(nodes.drop_last()).push(nodes.last().entity)
    } else {
        items_of(nodes.drop_last())
    }
}

/// The bricks and scripts of the scene, in order.
pub fn select_all_items(nodes: &Vec<SceneNode>) -> (r: Vec<u64>)
    ensures
        r@ == items_of(nodes@),
{
    let mut out: Vec<u64> = Vec::new();
    let mut i: usize = 0;
    while i < nodes.len()
        invariant
            i <= nodes.len(),
            out@ == items_of(nodes@.take(i as int)),
        decreases nodes.len() - i,
    {
        assert(nodes@.take(i + 1).drop_last() == nodes@.take(i as int));
        if nodes[i].is_brick || nodes[i].is_script {
            out.push(nodes[i].entity);
        }
        i = i + 1;
    }
    assert(nodes@.take(nodes.len() as int) == nodes@);
    out
}

/// Where a newly inserted object goes: under the requested parent if that
/// is a brick or a script, else at the root.
pub fn insert_parent(parent: Option<u64>, nodes: &Vec<SceneNode>) -> (r: Option<u64>)
    ensures
        r == match parent {
            Some(p) => match entity_index(nodes@, p) {
                Some(i) => if nodes@[i].is_brick || nodes@[i].is_script {
                    Some(p)
                } else {
                    None
                },
                None => None,
            },
            None => None,
        },
{
    match parent {
        Some(p) => match lookup(nodes, p) {
            Some(i) => if nodes[i].is_brick || nodes[i].is_script {
                Some(p)
            } else {
                None
            },
            None => None,
        },
        None => None,
    }
}

/// The brick descendants of `e` that a rubber band picks up along with it,
/// appended to `sel`: each child brick not yet in the selection, followed by
/// its own, depth first, going at most `fuel` levels down.
pub open spec fn with_brick_children(nodes: Seq<SceneNode>, e: u64, sel: Seq<u64>, fuel: nat) -> Seq<
    u64,
>
    decreases fuel, 0nat,
{
    if fuel == 0 {
        sel
    } else {
        match entity_index(nodes, e) {
            None => sel,
            Some(i) => with_brick_list(nodes, nodes[i].children@, sel, (fuel - 1) as nat),
        }
    }
}

/// `with_brick_children` for each brick of `children`, in order.
pub open spec fn with_brick_list(nodes: Seq<SceneNode>, children: Seq<u64>, sel: Seq<u64>, fuel: nat) -> Seq<
    u64,
>
    decreases fuel, children.len() + 1,
{
    if children.len() == 0 {
        sel
    } else {
        let before = with_brick_list(nodes, children.drop_last(), sel, fuel);
        let c = children.last();
        let is_brick = match entity_index(nodes, c) {
            Some(j) => nodes[j].is_brick,
            None => false,
        };
        if is_brick && !before.contains(c) {
            with_brick_children(nodes, c, before.push(c), fuel)
        } else {
            before
        }
    }
}

fn add_children_recursive(nodes: &Vec<SceneNode>, e: u64, selected: &mut Vec<u64>, fuel: usize)
    ensures
        final(selected)@ == with_brick_children(nodes@, e, old(selected)@, fuel as nat),
    decreases fuel,
{
    if fuel == 0 {
        return;
    }
    let i = match lookup(nodes, e) {
        Some(i) => i,
        None => {
            return;
        },
    };
    let children = &nodes[i].children;
    let ghost start = selected@;
    let mut k: usize = 0;
    while k < children.len()
        invariant
            fuel > 0,
            i < nodes.len(),
            *children == nodes@[i as int].children,
            k <= children.len(),
            selected@ == with_brick_list(
                nodes@,
                children@.take(k as int),
                start,
                (fuel - 1) as nat,
            ),
        decreases children.len() - k,
    {
        assert(children@.take(k + 1).drop_last() == children@.take(k as int));
        let c = children[k];
        let is_brick = match lookup(nodes, c) {
            Some(j) => nodes[j].is_brick,
            None => false,
        };
        if is_brick && !contains_entity(selected, c) {
            selected.push(c);
            add_children_recursive(nodes, c, selected, fuel - 1);
        }
        k = k + 1;
    }
    assert(children@.take(children.len() as int) == children@);
}

/// What a rubber band picks up from the bricks inside it, in order.
pub open spec fn marquee_pick(nodes: Seq<SceneNode>, inside: Seq<u64>) -> Seq<u64>
    decreases inside.len(),
{
    if inside.len() == 0 {
        Seq::empty()
    } else {
        with_brick_children(
            nodes,
            inside.last(),
            marquee_pick(nodes, inside.drop_last()).push(inside.last()),
            nodes.len(),
        )
    }
}

/// The entities a rubber-band selection picks: each unlocked brick found
/// inside the band, followed by its brick descendants not yet picked.
pub fn marquee_selection(inside: &Vec<u64>, nodes: &Vec<SceneNode>) -> (r: Vec<u64>)
    ensures
        r@ == marquee_pick(nodes@, inside@),
{
    let mut selected: Vec<u64> = Vec::new();
    let mut i: usize = 0;
    while i < inside.len()
        invariant
            i <= inside.len(),
            selected@ == marquee_pick(nodes@, inside@.take(i as int)),
        decreases inside.len() - i,
    {
        assert(inside@.take(i + 1).drop_last() == inside@.take(i as int));
        selected.push(inside[i]);
        add_children_recursive(nodes, inside[i], &mut selected, nodes.len());
        i = i + 1;
    }
    assert(inside@.take(inside.len() as int) == inside@);
    selected
}

/// The kind of a saved script, and its code in the project file.
#[derive(Clone, Copy, Debug, PartialEq, Eq, Structural)]
pub enum ScriptKind {
    Server,
    Local,
    Module,
}

impl ScriptKind {
    /// The code stored in a project file.
    pub fn code(&self) -> (r: u8)
        ensures
            r == match *self {
                ScriptKind::Server => 0u8,
                ScriptKind::Local => 1u8,
                ScriptKind::Module => 2u8,
            },
    {
        match self {
            ScriptKind::Server => 0,
            ScriptKind::Local => 1,
            ScriptKind::Module => 2,
        }
    }

    /// The kind a project file's code stands for; unknown codes load as modules.
    pub fn from_code(code: u8) -> (r: Self)
        ensures
            r == if code == 0 {
                ScriptKind::Server
            } else if code == 1 {
                ScriptKind::Local
            } else {
                ScriptKind::Module
            },
    {
        if code == 0 {
            ScriptKind::Server
        } else if code == 1 {
            ScriptKind::Local
        } else {
            ScriptKind::Module
        }
    }
}

/// An entity to save, and its parent.
#[derive(Clone, Copy, Debug, PartialEq, Eq, Structural)]
pub struct SaveEntry {
    pub entity: u64,
    pub parent: Option<u64>,
}

/// The ids a saved node gets.
#[derive(Clone, Copy, Debug, PartialEq, Eq, Structural)]
pub struct SavedIds {
    pub node_id: u64,
    pub parent_node_id: Option<u64>,
}

/// The ids of a saved node: its place among `items` (or `fallback` when
/// it is not one of them), and its parent's place if the parent is.
pub open spec fn saved_ids(items: Seq<u64>, entry: SaveEntry, fallback: int) -> SavedIds {
    SavedIds {
        node_id: match crate::selection::first_index(items, entry.entity) {
            Some(k) => k as u64,
            None => fallback as u64,
        },
        parent_node_id: match entry.parent {
            Some(p) => match crate::selection::first_index(items, p) {
                Some(k) => Some(k as u64),
                None => None,
            },
            None => None,
        },
    }
}

fn saved_ids_exec(items: &Vec<u64>, entry: SaveEntry, fallback: usize) -> (r: SavedIds)
    ensures
        r == saved_ids(items@, entry, fallback as int),
{
    proof {
        crate::selection::lemma_first_index(items@, entry.entity);
        if let Some(p) = entry.parent {
            crate::selection::lemma_first_index(items@, p);
        }
    }
    let node_id = match crate::selection::position(items, entry.entity) {
        Some(k) => k as u64,
        None => fallback as u64,
    };
    let parent_node_id = match entry.parent {
        Some(p) => match crate::selection::position(items, p) {
            Some(k) => Some(k as u64),
            None => None,
        },
        None => None,
    };
    SavedIds { node_id, parent_node_id }
}

/// The node ids of a project being saved. `items` lists the bricks and
/// scripts of the scene in order; a node's id is its place in that list. A
/// brick missing from it gets the number of bricks saved before it; a
/// script, the number of nodes saved before it. A parent that is not in
/// the list is not saved.
pub fn save_node_ids(items: &Vec<u64>, bricks: &Vec<SaveEntry>, scripts: &Vec<SaveEntry>) -> (r: (
    Vec<SavedIds>,
    Vec<SavedIds>,
))
    requires
        bricks.len() + scripts.len() <= usize::MAX,
    ensures
        r.0@.len() == bricks@.len(),
        r.1@.len() == scripts@.len(),
        forall|i: int|
            0 <= i < bricks@.len() ==> #[trigger] r.0@[i] == saved_ids(items@, bricks@[i], i),
        forall|j: int|
            0 <= j < scripts@.len() ==> #[trigger] r.1@[j] == saved_ids(
                items@,
                scripts@[j],
                bricks@.len() + j,
            ),
{
    let mut brick_ids: Vec<SavedIds> = Vec::new();
    let mut i: usize = 0;
    while i < bricks.len()
        invariant
            i <= bricks.len(),
            brick_ids@.len() == i,
            forall|k: int| 0 <= k < i ==> #[trigger] brick_ids@[k] == saved_ids(items@, bricks@[k], k),
        decreases bricks.len() - i,
    {
        brick_ids.push(saved_ids_exec(items, bricks[i], i));
        i = i + 1;
    }
    let mut script_ids: Vec<SavedIds> = Vec::new();
    let mut j: usize = 0;
    while j < scripts.len()
        invariant
            j <= scripts.len(),
            bricks.len() + scripts.len() <= usize::MAX,
            script_ids@.len() == j,
            forall|k: int|
                0 <= k < j ==> #[trigger] script_ids@[k] == saved_ids(
                    items@,
                    scripts@[k],
                    bricks@.len() + k,
                ),
        decreases scripts.len() - j,
    {
        script_ids.push(saved_ids_exec(items, scripts[j], bricks.len() + j));
        j = j + 1;
    }
    (brick_ids, script_ids)
}


/// Walking `k` parent links up from `e` reaches an entity of `set`.
pub open spec fn set_ancestor_at(nodes: Seq<SceneNode>, e: u64, set: Seq<u64>, k: nat) -> bool {
    ancestor_at(nodes, e, k) matches Some(a) && set.contains(a)
}

proof fn lemma_has_ancestor_in_walk(nodes: Seq<SceneNode>, e: u64, set: Seq<u64>, n: nat)
    ensures
        has_ancestor_in(nodes, e, set, n) <==> exists|k: nat| 1 <= k <= n && #[trigger] set_ancestor_at(nodes, e, set, k),
    decreases n,
{
    if n > 0 {
        match entity_index(nodes, e) {
            None => {
                assert forall|k: nat| 1 <= k <= n implies !#[trigger] set_ancestor_at(nodes, e, set, k) by {}
            },
            Some(i) => match nodes[i].parent {
                None => {
                    assert forall|k: nat| 1 <= k <= n implies !#[trigger] set_ancestor_at(nodes, e, set, k) by {}
                },
                Some(p) => {
                    lemma_has_ancestor_in_walk(nodes, p, set, (n - 1) as nat);
                    assert forall|k: nat| 1 <= k <= n implies #[trigger] set_ancestor_at(nodes, e, set, k)
                        == set_ancestor_at(nodes, p, set, (k - 1) as nat) by {}
                    if has_ancestor_in(nodes, e, set, n) {
                        if set.contains(p) {
                            assert(set_ancestor_at(nodes, e, set, 1));
                        } else {
                            let k = choose|k: nat| 1 <= k <= n - 1 && #[trigger] set_ancestor_at(nodes, p, set, k);
                            assert(set_ancestor_at(nodes, e, set, k + 1));
                        }
                    }
                    if exists|k: nat| 1 <= k <= n && #[trigger] set_ancestor_at(nodes, e, set, k) {
                        let k = choose|k: nat| 1 <= k <= n && #[trigger] set_ancestor_at(nodes, e, set, k);
                        if k > 1 {
                            assert(set_ancestor_at(nodes, p, set, (k - 1) as nat));
                        }
                    }
                },
            },
        }
    }
}

/// The roots of a selection are the selected entities, each once, that no
/// walk up the hierarchy (of up to as many links as there are nodes) leads
/// from to another selected entity: every root has no selected ancestor at
/// any of those depths, and a selected entity is left out only because one
/// of its ancestors, at some such depth, is selected.
pub proof fn lemma_roots_have_no_selected_ancestor(selected: Seq<u64>, nodes: Seq<SceneNode>)
    ensures
        root_entities(selected, nodes).no_duplicates(),
        forall|x: u64| #[trigger] root_entities(selected, nodes).contains(x) ==> selected.contains(x) && forall|k: nat|
            1 <= k <= nodes.len() ==> !#[trigger] set_ancestor_at(nodes, x, selected, k),
        forall|x: u64| #[trigger] selected.contains(x) && !root_entities(selected, nodes).contains(x) ==> exists|k: nat|
            1 <= k <= nodes.len() && #[trigger] set_ancestor_at(nodes, x, selected, k),
{
    let d = crate::contacts::dedup(selected);
    let keep = |e: u64| !has_ancestor_in(nodes, e, selected, nodes.len());
    crate::contacts::lemma_dedup_no_duplicates(selected);
    assert forall|x: u64| #[trigger] root_entities(selected, nodes).contains(x) implies selected.contains(x)
        && forall|k: nat| 1 <= k <= nodes.len() ==> !#[trigger] set_ancestor_at(nodes, x, selected, k) by {
        d.lemma_filter_contains_rev(keep, x);
        let j = choose|j: int| 0 <= j < d.filter(keep).len() && d.filter(keep)[j] == x;
        d.lemma_filter_pred(keep, j);
        lemma_has_ancestor_in_walk(nodes, x, selected, nodes.len());
    }
    assert forall|x: u64| #[trigger] selected.contains(x) && !root_entities(selected, nodes).contains(x) implies exists|k: nat|
        1 <= k <= nodes.len() && #[trigger] set_ancestor_at(nodes, x, selected, k) by {
        assert(d.contains(x));
        let j = choose|j: int| 0 <= j < d.len() && d[j] == x;
        if keep(x) {
            d.lemma_filter_contains(keep, j);
        }
        lemma_has_ancestor_in_walk(nodes, x, selected, nodes.len());
    }
    assert(root_entities(selected, nodes).no_duplicates()) by {
        let r = d.filter(keep);
        assert forall|i: int, j: int| 0 <= i < r.len() && 0 <= j < r.len() && i != j implies r[i] != r[j] by {
            lemma_filter_no_duplicates(d, keep);
        }
    }
}

proof fn lemma_filter_no_duplicates(s: Seq<u64>, keep: spec_fn(u64) -> bool)
    requires
        s.no_duplicates(),
    ensures
        s.filter(keep).no_duplicates(),
    decreases s.len(),
{
    reveal(Seq::filter);
    if s.len() > 0 {
        let d = s.drop_last();
        assert(d.no_duplicates());
        lemma_filter_no_duplicates(d, keep);
        if keep(s.last()) {
            assert(s.filter(keep) == d.filter(keep).push(s.last()));
            assert(!d.filter(keep).contains(s.last())) by {
                if d.filter(keep).contains(s.last()) {
                    d.lemma_filter_contains_rev(keep, s.last());
                }
            }
        } else {
            assert(s.filter(keep) == d.filter(keep));
        }
    }
}

} // verus!
