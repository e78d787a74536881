//! Snapshots of scene subtrees, as the studio takes them for copy and
//! paste, duplicate, tree delete and the playtest backup, and the plan for
//! spawning one back. A snapshot is flat: its entries are in pre-order and
//! each names the entry of its parent.
use crate::explorer::find_node;
use crate::scene::{entity_index, lemma_entity_index_bounds, SceneNode};
use vstd::prelude::*;

verus! {

broadcast use lemma_entity_index_bounds;

/// What a snapshot keeps of one entity: a brick's data, or a script.
pub enum ItemSnapshot<D> {
    Part(D),
    Server { name: String, code: String, enabled: bool },
    Local { name: String, code: String, enabled: bool },
    Module { name: String, code: String },
}

/// One entity of a snapshot and the place of its parent's entry (`None`
/// for the snapshot's root).
pub struct SnapshotEntry<D> {
    pub item: ItemSnapshot<D>,
    pub parent: Option<usize>,
}

/// Where a spawned entity goes: under an entity of the scene, or under the
/// entity spawned for an earlier step of the plan.
#[derive(Clone, Copy, Debug, PartialEq, Eq, Structural)]
pub enum SpawnParent {
    Existing(u64),
    Spawned(usize),
}

/// What the entity's snapshot item is: the first entry of `items` for it.
/// Entities that are neither bricks nor scripts, and bricks whose data could
/// not be read, have none.
pub open spec fn item_of<D>(items: Seq<(u64, ItemSnapshot<D>)>, e: u64) -> Option<ItemSnapshot<D>>
    decreases items.len(),
{
    if items.len() == 0 {
        None
    } else {
        match item_of(items.drop_last(), e) {
            Some(it) => Some(it),
            None => if items.last().0 == e {
                Some(items.last().1)
            } else {
                None
            },
        }
    }
}

/// The entries of the subtree of `e`, placed from `base` on, its root under
/// `parent`; `None` when `e` has no item. Children without an item are left
/// out with their subtrees. The walk goes at most `fuel` levels down.
pub open spec fn tree_entries<D>(
    nodes: Seq<SceneNode>,
    items: Seq<(u64, ItemSnapshot<D>)>,
    e: u64,
    parent: Option<usize>,
    base: nat,
    fuel: nat,
) -> Option<Seq<SnapshotEntry<D>>>
    decreases fuel, 0nat,
{
    if fuel == 0 {
        None
    } else {
        match entity_index(nodes, e) {
            None => None,
            Some(i) => match item_of(items, e) {
                None => None,
                Some(it) => Some(
                    seq![SnapshotEntry { item: it, parent }] + children_entries(
                        nodes,
                        items,
                        nodes[i].children@,
                        Some(base as usize),
                        (base + 1) as nat,
                        (fuel - 1) as nat,
                    ),
                ),
            },
        }
    }
}

/// The entries of the subtrees of `kids`, one after the other from `base`
/// on, each root under `parent`.
pub open spec fn children_entries<D>(
    nodes: Seq<SceneNode>,
    items: Seq<(u64, ItemSnapshot<D>)>,
    kids: Seq<u64>,
    parent: Option<usize>,
    base: nat,
    fuel: nat,
) -> Seq<SnapshotEntry<D>>
    decreases fuel, kids.len() + 1,
{
    if kids.len() == 0 {
        Seq::empty()
    } else {
        let prev = children_entries(nodes, items, kids.drop_last(), parent, base, fuel);
        match tree_entries(nodes, items, kids.last(), parent, base + prev.len(), fuel) {
            Some(t) => prev + t,
            None => prev,
        }
    }
}

/// The snapshot of the subtree of `root`.
pub open spec fn snapshot_of<D>(
    nodes: Seq<SceneNode>,
    items: Seq<(u64, ItemSnapshot<D>)>,
    root: u64,
    fuel: nat,
) -> Option<Seq<SnapshotEntry<D>>> {
    tree_entries(nodes, items, root, None, 0, fuel)
}

/// A snapshot is a tree in pre-order: the root comes first with no parent,
/// and every later entry names an earlier one as its parent.
pub open spec fn preorder_tree<D>(s: Seq<SnapshotEntry<D>>) -> bool {
    &&& s.len() >= 1
    &&& s[0].parent is None
    &&& forall|j: int| 0 < j < s.len() ==> ((#[trigger] s[j]).parent matches Some(q) && q < j)
}

proof fn lemma_tree_entries_shape<D>(
    nodes: Seq<SceneNode>,
    items: Seq<(u64, ItemSnapshot<D>)>,
    e: u64,
    parent: Option<usize>,
    base: nat,
    fuel: nat,
)
    ensures
        tree_entries(nodes, items, e, parent, base, fuel) matches Some(t) ==> {
            &&& t.len() >= 1
            &&& t[0].parent == parent
            &&& base + t.len() <= usize::MAX ==> forall|j: int|
                0 < j < t.len() ==> ((#[trigger] t[j]).parent matches Some(q) && base <= q < base + j)
        },
    decreases fuel, 0nat,
{
    if fuel > 0 {
        if let Some(i) = entity_index(nodes, e) {
            if let Some(it) = item_of(items, e) {
                let kids = nodes[i].children@;
                lemma_children_entries_shape(nodes, items, kids, Some(base as usize), base + 1, (fuel - 1) as nat);
                let c = children_entries(nodes, items, kids, Some(base as usize), base + 1, (fuel - 1) as nat);
                let t = seq![SnapshotEntry { item: it, parent }] + c;
                assert(t[0].parent == parent);
                if base + t.len() <= usize::MAX {
                    assert forall|j: int| 0 < j < t.len() implies ((#[trigger] t[j]).parent matches Some(q) && base
                        <= q < base + j) by {
                        assert(t[j] == c[j - 1]);
                    }
                }
            }
        }
    }
}

proof fn lemma_children_entries_shape<D>(
    nodes: Seq<SceneNode>,
    items: Seq<(u64, ItemSnapshot<D>)>,
    kids: Seq<u64>,
    parent: Option<usize>,
    base: nat,
    fuel: nat,
)
    ensures
        ({
            let c = children_entries(nodes, items, kids, parent, base, fuel);
            base + c.len() <= usize::MAX ==> forall|j: int|
                0 <= j < c.len() ==> (#[trigger] c[j]).parent == parent || (c[j].parent matches Some(q) && base
                    <= q < base + j)
        }),
    decreases fuel, kids.len() + 1,
{
    if kids.len() > 0 {
        lemma_children_entries_shape(nodes, items, kids.drop_last(), parent, base, fuel);
        let prev = children_entries(nodes, items, kids.drop_last(), parent, base, fuel);
        lemma_tree_entries_shape(nodes, items, kids.last(), parent, base + prev.len(), fuel);
        if let Some(t) = tree_entries(nodes, items, kids.last(), parent, base + prev.len(), fuel) {
            let c = prev + t;
            if base + c.len() <= usize::MAX {
                assert forall|j: int| 0 <= j < c.len() implies (#[trigger] c[j]).parent == parent || (
                c[j].parent matches Some(q) && base <= q < base + j) by {
                    if j < prev.len() {
                        assert(c[j] == prev[j]);
                    } else {
                        assert(c[j] == t[j - prev.len()]);
                    }
                }
            }
        }
    }
}

/// Every snapshot taken is a tree in pre-order, so a plan that spawns its
/// entries in order always spawns a parent before its children.
pub proof fn lemma_snapshot_is_preorder_tree<D>(
    nodes: Seq<SceneNode>,
    items: Seq<(u64, ItemSnapshot<D>)>,
    root: u64,
    fuel: nat,
)
    ensures
        snapshot_of(nodes, items, root, fuel) matches Some(s) ==> (s.len() <= usize::MAX
            ==> preorder_tree(s)),
{
    lemma_tree_entries_shape(nodes, items, root, None, 0, fuel);
}

/// Entry `e` names entry `k` as its parent.
pub open spec fn parent_is<D>(e: SnapshotEntry<D>, k: int) -> bool {
    e.parent matches Some(q) && q as int == k
}

/// The entries among the first `n` whose parent is entry `k`, in order.
pub open spec fn kids_of<D>(s: Seq<SnapshotEntry<D>>, k: int, n: int) -> Seq<int>
    decreases n,
{
    if n <= 0 {
        Seq::empty()
    } else if parent_is(s[n - 1], k) {
        kids_of(s, k, n - 1).push(n - 1)
    } else {
        kids_of(s, k, n - 1)
    }
}

/// Spawning `s` made, for each entry `k`, the entity `ids[k]` of the scene
/// `nodes`/`items` (distinct entities, among any others the scene holds):
/// it carries the item of its entry and has, as children, the entities of
/// the entries that name its entry as parent.
pub open spec fn respawned_as<D>(
    s: Seq<SnapshotEntry<D>>,
    ids: Seq<u64>,
    nodes: Seq<SceneNode>,
    items: Seq<(u64, ItemSnapshot<D>)>,
) -> bool {
    &&& ids.len() == s.len()
    &&& forall|i: int, j: int| 0 <= i < j < ids.len() ==> #[trigger] ids[i] != #[trigger] ids[j]
    &&& forall|k: int|
        0 <= k < s.len() ==> (entity_index(nodes, #[trigger] ids[k]) matches Some(i) && nodes[i].children@
            == kids_of(s, k, s.len() as int).map_values(|j: int| ids[j]))
    &&& forall|k: int| 0 <= k < s.len() ==> item_of(items, #[trigger] ids[k]) == Some(s[k].item)
}

/// Where the subtrees of `kids` start in `children_entries`.
pub open spec fn child_starts<D>(
    nodes: Seq<SceneNode>,
    items: Seq<(u64, ItemSnapshot<D>)>,
    kids: Seq<u64>,
    parent: Option<usize>,
    base: nat,
    fuel: nat,
) -> Seq<int>
    decreases kids.len(),
{
    if kids.len() == 0 {
        Seq::empty()
    } else {
        let prev = children_entries(nodes, items, kids.drop_last(), parent, base, fuel);
        let ps = child_starts(nodes, items, kids.drop_last(), parent, base, fuel);
        if tree_entries(nodes, items, kids.last(), parent, base + prev.len(), fuel) is Some {
            ps.push((base + prev.len()) as int)
        } else {
            ps
        }
    }
}

/// No entry in `[m0, m)` names `k`, so the kids among the first `m` are
/// those among the first `m0`.
proof fn lemma_kids_of_unchanged<D>(s: Seq<SnapshotEntry<D>>, k: int, m0: int, m: int)
    requires
        0 <= m0 <= m <= s.len(),
        forall|j: int| m0 <= j < m ==> !parent_is(#[trigger] s[j], k),
    ensures
        kids_of(s, k, m) == kids_of(s, k, m0),
    decreases m - m0,
{
    if m > m0 {
        lemma_kids_of_unchanged(s, k, m0, m - 1);
    }
}

proof fn lemma_kids_of_block<D>(s: Seq<SnapshotEntry<D>>, t: Seq<SnapshotEntry<D>>, pb: int, at: int)
    requires
        0 <= pb < at,
        at + t.len() <= s.len(),
        s.subrange(at, at + t.len()) == t,
        t.len() >= 1,
        parent_is(t[0], pb),
        forall|j: int| 0 < j < t.len() ==> ((#[trigger] t[j]).parent matches Some(q) && at <= q < at + j),
    ensures
        kids_of(s, pb, at + t.len()) == kids_of(s, pb, at).push(at),
{
    assert(s[at] == t[0]);
    assert forall|j: int| at + 1 <= j < at + t.len() implies !parent_is(#[trigger] s[j], pb) by {
        assert(s[j] == t[j - at]);
    }
    lemma_kids_of_unchanged(s, pb, at + 1, at + t.len());
}

proof fn lemma_kids_of_children<D>(
    nodes: Seq<SceneNode>,
    items: Seq<(u64, ItemSnapshot<D>)>,
    kids: Seq<u64>,
    parent: Option<usize>,
    pb: int,
    base: nat,
    fuel: nat,
    s: Seq<SnapshotEntry<D>>,
)
    requires
        parent matches Some(q) && q as int == pb,
        0 <= pb < base,
        base + children_entries(nodes, items, kids, parent, base, fuel).len() <= s.len(),
        s.len() <= usize::MAX,
        s.subrange(base as int, (base + children_entries(nodes, items, kids, parent, base, fuel).len()) as int)
            == children_entries(nodes, items, kids, parent, base, fuel),
    ensures
        kids_of(s, pb, (base + children_entries(nodes, items, kids, parent, base, fuel).len()) as int) == kids_of(
            s,
            pb,
            base as int,
        ) + child_starts(nodes, items, kids, parent, base, fuel),
    decreases kids.len(),
{
    let c = children_entries(nodes, items, kids, parent, base, fuel);
    if kids.len() == 0 {
        assert(kids_of(s, pb, base as int) + Seq::<int>::empty() == kids_of(s, pb, base as int));
    } else {
        let d = kids.drop_last();
        let prev = children_entries(nodes, items, d, parent, base, fuel);
        let at = base + prev.len();
        match tree_entries(nodes, items, kids.last(), parent, at, fuel) {
            Some(t) => {
                assert(c == prev + t);
                assert(s.subrange(base as int, (base + prev.len()) as int) == prev) by {
                    assert(s.subrange(base as int, (base + prev.len()) as int) =~= c.subrange(0, prev.len() as int));
                    assert(c.subrange(0, prev.len() as int) =~= prev);
                }
                lemma_kids_of_children(nodes, items, d, parent, pb, base, fuel, s);
                lemma_tree_entries_shape(nodes, items, kids.last(), parent, at, fuel);
                assert(s.subrange(at as int, (at + t.len()) as int) == t) by {
                    assert(s.subrange(at as int, (at + t.len()) as int) =~= c.subrange(prev.len() as int, c.len() as int));
                    assert(c.subrange(prev.len() as int, c.len() as int) =~= t);
                }
                lemma_kids_of_block(s, t, pb, at as int);
                let ps = child_starts(nodes, items, d, parent, base, fuel);
                assert((kids_of(s, pb, base as int) + ps).push(at as int) == kids_of(s, pb, base as int)
                    + ps.push(at as int));
            },
            None => {
                assert(c == prev);
                lemma_kids_of_children(nodes, items, d, parent, pb, base, fuel, s);
            },
        }
    }
}

/// No entry from `hi` on names an entry in `[lo, hi)` as its parent.
pub open spec fn closed_after<D>(s: Seq<SnapshotEntry<D>>, lo: int, hi: int) -> bool {
    forall|j: int| hi <= j < s.len() ==> !((#[trigger] s[j]).parent matches Some(q) && lo <= q < hi)
}

proof fn lemma_tree_round_trip<D>(
    nodes: Seq<SceneNode>,
    items: Seq<(u64, ItemSnapshot<D>)>,
    e: u64,
    parent: Option<usize>,
    b: nat,
    fuel: nat,
    s: Seq<SnapshotEntry<D>>,
    ids: Seq<u64>,
    nodes2: Seq<SceneNode>,
    items2: Seq<(u64, ItemSnapshot<D>)>,
    f2: nat,
)
    requires
        s.len() <= usize::MAX,
        preorder_tree(s),
        respawned_as(s, ids, nodes2, items2),
        tree_entries(nodes, items, e, parent, b, fuel) is Some,
        b + tree_entries(nodes, items, e, parent, b, fuel).unwrap().len() <= s.len(),
        s.subrange(b as int, (b + tree_entries(nodes, items, e, parent, b, fuel).unwrap().len()) as int)
            == tree_entries(nodes, items, e, parent, b, fuel).unwrap(),
        parent matches Some(q) ==> q < b,
        closed_after(s, b as int, (b + tree_entries(nodes, items, e, parent, b, fuel).unwrap().len()) as int),
        f2 >= tree_entries(nodes, items, e, parent, b, fuel).unwrap().len(),
    ensures
        tree_entries(nodes2, items2, ids[b as int], parent, b, f2) == tree_entries(nodes, items, e, parent, b, fuel),
    decreases fuel, 0nat,
{
    let t = tree_entries(nodes, items, e, parent, b, fuel).unwrap();
    let i = entity_index(nodes, e).unwrap();
    let it = item_of(items, e).unwrap();
    let kids = nodes[i].children@;
    let c = children_entries(nodes, items, kids, Some(b as usize), b + 1, (fuel - 1) as nat);
    assert(t == seq![SnapshotEntry { item: it, parent }] + c);
    assert(s[b as int] == t[0]);
    let bi = b as int;
    // The respawned entity and item of entry `b`.
    let i2 = entity_index(nodes2, ids[bi]).unwrap();
    assert(item_of(items2, ids[bi]) == Some(s[bi].item));
    // The children of entry `b` in the snapshot are the starts of its child blocks.
    assert forall|j: int| 0 <= j < bi + 1 implies !parent_is(#[trigger] s[j], bi) by {
        if j > 0 && j < bi {
            assert(s[j].parent matches Some(q) && q < j);
        }
    }
    lemma_kids_of_unchanged(s, bi, 0, bi + 1);
    assert(s.subrange(bi + 1, bi + 1 + c.len()) == c) by {
        assert(s.subrange(bi + 1, bi + 1 + c.len()) =~= t.subrange(1, t.len() as int));
        assert(t.subrange(1, t.len() as int) =~= c);
    }
    lemma_kids_of_children(nodes, items, kids, Some(b as usize), bi, b + 1, (fuel - 1) as nat, s);
    assert forall|j: int| bi + t.len() <= j < s.len() implies !parent_is(#[trigger] s[j], bi) by {}
    lemma_kids_of_unchanged(s, bi, bi + t.len(), s.len() as int);
    let starts = child_starts(nodes, items, kids, Some(b as usize), b + 1, (fuel - 1) as nat);
    assert(Seq::<int>::empty() + starts == starts);
    assert(kids_of(s, bi, s.len() as int) == starts);
    assert(nodes2[i2].children@ == starts.map_values(|j: int| ids[j]));
    lemma_children_round_trip(
        nodes,
        items,
        kids,
        b,
        b + 1,
        (fuel - 1) as nat,
        s,
        ids,
        nodes2,
        items2,
        (f2 - 1) as nat,
    );
}

proof fn lemma_children_round_trip<D>(
    nodes: Seq<SceneNode>,
    items: Seq<(u64, ItemSnapshot<D>)>,
    kids: Seq<u64>,
    pb: nat,
    base: nat,
    fuel: nat,
    s: Seq<SnapshotEntry<D>>,
    ids: Seq<u64>,
    nodes2: Seq<SceneNode>,
    items2: Seq<(u64, ItemSnapshot<D>)>,
    f2: nat,
)
    requires
        s.len() <= usize::MAX,
        preorder_tree(s),
        respawned_as(s, ids, nodes2, items2),
        pb < base,
        base + children_entries(nodes, items, kids, Some(pb as usize), base, fuel).len() <= s.len(),
        s.subrange(
            base as int,
            (base + children_entries(nodes, items, kids, Some(pb as usize), base, fuel).len()) as int,
        ) == children_entries(nodes, items, kids, Some(pb as usize), base, fuel),
        closed_after(
            s,
            base as int,
            (base + children_entries(nodes, items, kids, Some(pb as usize), base, fuel).len()) as int,
        ),
        f2 >= children_entries(nodes, items, kids, Some(pb as usize), base, fuel).len(),
    ensures
        children_entries(
            nodes2,
            items2,
            child_starts(nodes, items, kids, Some(pb as usize), base, fuel).map_values(|j: int| ids[j]),
            Some(pb as usize),
            base,
            f2,
        ) == children_entries(nodes, items, kids, Some(pb as usize), base, fuel),
    decreases fuel, kids.len() + 1,
{
    let p = Some(pb as usize);
    let c = children_entries(nodes, items, kids, p, base, fuel);
    if kids.len() == 0 {
        assert(child_starts(nodes, items, kids, p, base, fuel).map_values(|j: int| ids[j]) =~= Seq::<u64>::empty());
    } else {
        let d = kids.drop_last();
        let prev = children_entries(nodes, items, d, p, base, fuel);
        let at = base + prev.len();
        let ps = child_starts(nodes, items, d, p, base, fuel);
        let l = ps.map_values(|j: int| ids[j]);
        match tree_entries(nodes, items, kids.last(), p, at, fuel) {
            Some(t) => {
                assert(c == prev + t);
                lemma_tree_entries_shape(nodes, items, kids.last(), p, at, fuel);
                assert(s.subrange(base as int, at as int) == prev) by {
                    assert(s.subrange(base as int, at as int) =~= c.subrange(0, prev.len() as int));
                    assert(c.subrange(0, prev.len() as int) =~= prev);
                }
                assert(s.subrange(at as int, (at + t.len()) as int) == t) by {
                    assert(s.subrange(at as int, (at + t.len()) as int) =~= c.subrange(
                        prev.len() as int,
                        c.len() as int,
                    ));
                    assert(c.subrange(prev.len() as int, c.len() as int) =~= t);
                }
                assert forall|j: int| at <= j < s.len() implies !((#[trigger] s[j]).parent matches Some(q)
                    && base <= q < at) by {
                    if j < at + t.len() {
                        assert(s[j] == t[j - at]);
                    }
                }
                lemma_children_round_trip(nodes, items, d, pb, base, fuel, s, ids, nodes2, items2, f2);
                lemma_tree_round_trip(nodes, items, kids.last(), p, at, fuel, s, ids, nodes2, items2, f2);
                let x = ids[at as int];
                assert(child_starts(nodes, items, kids, p, base, fuel).map_values(|j: int| ids[j])
                    =~= l.push(x));
                assert(l.push(x).drop_last() =~= l);
            },
            None => {
                assert(c == prev);
                lemma_children_round_trip(nodes, items, d, pb, base, fuel, s, ids, nodes2, items2, f2);
            },
        }
    }
}

/// Capturing the tree that spawning a snapshot made gives the snapshot back:
/// when each entry of `s` was spawned as entity `ids[k]` of a scene (distinct
/// ids, whatever else the scene holds), with its item and with, as
/// children, the entities of the entries that name it as parent, the
/// snapshot of `ids[0]` in that scene is `s` again, entity ids aside.
pub proof fn lemma_respawned_snapshot_captures_back<D>(
    nodes: Seq<SceneNode>,
    items: Seq<(u64, ItemSnapshot<D>)>,
    root: u64,
    fuel: nat,
    s: Seq<SnapshotEntry<D>>,
    ids: Seq<u64>,
    nodes2: Seq<SceneNode>,
    items2: Seq<(u64, ItemSnapshot<D>)>,
)
    requires
        snapshot_of(nodes, items, root, fuel) == Some(s),
        s.len() <= usize::MAX,
        respawned_as(s, ids, nodes2, items2),
    ensures
        snapshot_of(nodes2, items2, ids[0], nodes2.len() as nat) == Some(s),
{
    lemma_snapshot_is_preorder_tree(nodes, items, root, fuel);
    lemma_respawned_fit(s, ids, nodes2, items2);
    assert(s.subrange(0, s.len() as int) == s);
    lemma_tree_round_trip(nodes, items, root, None, 0, fuel, s, ids, nodes2, items2, nodes2.len() as nat);
}

/// The respawned entities are distinct entities of the scene, so the scene
/// holds at least as many.
proof fn lemma_respawned_fit<D>(
    s: Seq<SnapshotEntry<D>>,
    ids: Seq<u64>,
    nodes: Seq<SceneNode>,
    items: Seq<(u64, ItemSnapshot<D>)>,
)
    requires
        respawned_as(s, ids, nodes, items),
    ensures
        nodes.len() >= s.len(),
{
    let present = nodes.map_values(|n: SceneNode| n.entity);
    assert(ids.no_duplicates()) by {
        assert forall|i: int, j: int| 0 <= i < ids.len() && 0 <= j < ids.len() && i != j implies ids[i]
            != ids[j] by {
            if i < j {
                assert(ids[i] != ids[j]);
            } else {
                assert(ids[j] != ids[i]);
            }
        }
    }
    ids.unique_seq_to_set();
    present.lemma_cardinality_of_set();
    assert(ids.to_set().subset_of(present.to_set())) by {
        assert forall|x: u64| ids.to_set().contains(x) implies present.to_set().contains(x) by {
            let k = choose|k: int| 0 <= k < ids.len() && ids[k] == x;
            let i = entity_index(nodes, ids[k]).unwrap();
            assert(present[i] == x);
        }
    }
    vstd::seq_lib::seq_to_set_is_finite(present);
    vstd::set_lib::lemma_len_subset(ids.to_set(), present.to_set());
}

fn copy_item<D: Copy>(it: &ItemSnapshot<D>) -> (r: ItemSnapshot<D>)
    ensures
        r == *it,
{
    match it {
        ItemSnapshot::Part(d) => ItemSnapshot::Part(*d),
        ItemSnapshot::Server { name, code, enabled } => ItemSnapshot::Server {
            name: name.clone(),
            code: code.clone(),
            enabled: *enabled,
        },
        ItemSnapshot::Local { name, code, enabled } => ItemSnapshot::Local {
            name: name.clone(),
            code: code.clone(),
            enabled: *enabled,
        },
        ItemSnapshot::Module { name, code } => ItemSnapshot::Module {
            name: name.clone(),
            code: code.clone(),
        },
    }
}

fn find_item<D: Copy>(items: &Vec<(u64, ItemSnapshot<D>)>, e: u64) -> (r: Option<ItemSnapshot<D>>)
    ensures
        r == item_of(items@, e),
{
    let mut i: usize = 0;
    while i < items.len()
        invariant
            i <= items.len(),
            item_of(items@.take(i as int), e) is None,
        decreases items.len() - i,
    {
        assert(items@.take(i + 1).drop_last() == items@.take(i as int));
        if items[i].0 == e {
            proof {
                lemma_item_of_prefix(items@, e, i + 1);
            }
            return Some(copy_item(&items[i].1));
        }
        i = i + 1;
    }
    assert(items@.take(items.len() as int) == items@);
    None
}

proof fn lemma_item_of_prefix<D>(items: Seq<(u64, ItemSnapshot<D>)>, e: u64, n: int)
    requires
        0 <= n <= items.len(),
        item_of(items.take(n), e) is Some,
    ensures
        item_of(items, e) == item_of(items.take(n), e),
    decreases items.len() - n,
{
    if n < items.len() {
        assert(items.take(n + 1).drop_last() == items.take(n));
        lemma_item_of_prefix(items, e, n + 1);
    } else {
        assert(items.take(n) == items);
    }
}

/// Appends the entries of the subtree of `e` (root under `parent`) and says
/// whether `e` had an item; when it had none, nothing is appended.
fn capture_into<D: Copy>(
    e: u64,
    parent: Option<usize>,
    fuel: usize,
    nodes: &Vec<SceneNode>,
    items: &Vec<(u64, ItemSnapshot<D>)>,
    out: &mut Vec<SnapshotEntry<D>>,
) -> (r: bool)
    ensures
        match tree_entries(nodes@, items@, e, parent, old(out)@.len(), fuel as nat) {
            Some(t) => r && final(out)@ == old(out)@ + t,
            None => !r && final(out)@ == old(out)@,
        },
    decreases fuel,
{
    if fuel == 0 {
        return false;
    }
    let i = match find_node(nodes, e) {
        Some(i) => i,
        None => {
            return false;
        },
    };
    let it = match find_item(items, e) {
        Some(it) => it,
        None => {
            return false;
        },
    };
    let ghost start = out@;
    let base = out.len();
    out.push(SnapshotEntry { item: it, parent });
    let children = &nodes[i].children;
    let mut k: usize = 0;
    while k < children.len()
        invariant
            i < nodes.len(),
            *children == nodes@[i as int].children,
            k <= children.len(),
            base == start.len(),
            fuel > 0,
            out@ == start + seq![SnapshotEntry { item: it, parent }] + children_entries(
                nodes@,
                items@,
                children@.take(k as int),
                Some(base),
                (base + 1) as nat,
                (fuel - 1) as nat,
            ),
        decreases children.len() - k,
    {
        assert(children@.take(k + 1).drop_last() == children@.take(k as int));
        assert(children@.take(k + 1).last() == children@[k as int]);
        let ghost before = out@;
        let ghost prev = children_entries(
            nodes@,
            items@,
            children@.take(k as int),
            Some(base),
            (base + 1) as nat,
            (fuel - 1) as nat,
        );
        assert(before.len() == base + 1 + prev.len());
        capture_into(children[k], Some(base), fuel - 1, nodes, items, out);
        proof {
            match tree_entries(
                nodes@,
                items@,
                children@[k as int],
                Some(base),
                (base + 1 + prev.len()) as nat,
                (fuel - 1) as nat,
            ) {
                Some(t) => {
                    assert(out@ == before + t);
                    assert(start + seq![SnapshotEntry { item: it, parent }] + (prev + t) == before + t);
                },
                None => {},
            }
        }
        k = k + 1;
    }
    assert(children@.take(children.len() as int) == children@);
    assert(start + (seq![SnapshotEntry { item: it, parent }] + children_entries(
        nodes@,
        items@,
        children@,
        Some(base),
        (base + 1) as nat,
        (fuel - 1) as nat,
    )) == out@);
    true
}

/// The snapshot of the subtree of `root`: the root and, depth first in child
/// order, every descendant reached through entities with an item; `None`
/// when the root has none. `items` gives each brick's data and each
/// script's name, code and state. The walk goes at most as many levels
/// down as there are nodes.
pub fn capture_editor_snapshot<D: Copy>(
    root: u64,
    nodes: &Vec<SceneNode>,
    items: &Vec<(u64, ItemSnapshot<D>)>,
) -> (r: Option<Vec<SnapshotEntry<D>>>)
    ensures
        match snapshot_of(nodes@, items@, root, nodes@.len() as nat) {
            Some(s) => r matches Some(v) && v@ == s,
            None => r is None,
        },
{
    let mut out: Vec<SnapshotEntry<D>> = Vec::new();
    if capture_into(root, None, nodes.len(), nodes, items, &mut out) {
        assert(Seq::<SnapshotEntry<D>>::empty() + out@ == out@);
        Some(out)
    } else {
        None
    }
}

/// Where each entry of a snapshot is spawned: the root under `parent` (or
/// at the top), every other entry under the entity spawned for its parent's
/// entry.
pub open spec fn plan_of<D>(s: Seq<SnapshotEntry<D>>, parent: Option<u64>) -> Seq<
    (ItemSnapshot<D>, Option<SpawnParent>),
> {
    s.map_values(
        |e: SnapshotEntry<D>|
            (
                e.item,
                match e.parent {
                    Some(j) => Some(SpawnParent::Spawned(j)),
                    None => match parent {
                        Some(p) => Some(SpawnParent::Existing(p)),
                        None => None,
                    },
                },
            ),
    )
}

/// The steps that spawn a snapshot back, in its order, so that every
/// parent is spawned before its children.
pub fn spawn_plan<D: Copy>(s: &Vec<SnapshotEntry<D>>, parent: Option<u64>) -> (r: Vec<
    (ItemSnapshot<D>, Option<SpawnParent>),
>)
    ensures
        r@ == plan_of(s@, parent),
{
    let mut out: Vec<(ItemSnapshot<D>, Option<SpawnParent>)> = Vec::new();
    let mut k: usize = 0;
    while k < s.len()
        invariant
            k <= s.len(),
            out@ == plan_of(s@.take(k as int), parent),
        decreases s.len() - k,
    {
        let under = match s[k].parent {
            Some(j) => Some(SpawnParent::Spawned(j)),
            None => match parent {
                Some(p) => Some(SpawnParent::Existing(p)),
                None => None,
            },
        };
        out.push((copy_item(&s[k].item), under));
        assert(plan_of(s@.take(k + 1), parent) == plan_of(s@.take(k as int), parent).push(
            out@[k as int],
        ));
        k = k + 1;
    }
    assert(s@.take(s.len() as int) == s@);
    out
}

} // verus!
