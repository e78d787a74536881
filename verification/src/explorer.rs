//! The explorer panel's view of the scene: which nodes it lists, in which
//! order, and which of them match a search.
use crate::players::{is_player_name, player_name};
use crate::scene::{ancestor_at, entity_index, is_managed, lemma_entity_index_bounds, SceneNode};
use crate::text::{bytes_le, contains_text, lowercase, name_bytes, occurs_at, str_eq, str_le, to_lowercase};
use vstd::prelude::*;

verus! {

broadcast use lemma_entity_index_bounds;

/// Sorting rank: with `baseplate_first`, the baseplate goes before all else.
pub open spec fn rank(node: SceneNode, baseplate_first: bool) -> int {
    if baseplate_first && node.name@ == "Baseplate"@ {
        0
    } else {
        1
    }
}

/// Node `a` may stand before node `b`: lower rank, or same rank and a name
/// that sorts before or level with `b`'s.
pub open spec fn node_le(nodes: Seq<SceneNode>, baseplate_first: bool, a: usize, b: usize) -> bool {
    let ra = rank(nodes[a as int], baseplate_first);
    let rb = rank(nodes[b as int], baseplate_first);
    ra < rb || (ra == rb && bytes_le(
        name_bytes(nodes[a as int].name@),
        name_bytes(nodes[b as int].name@),
    ))
}

/// Puts `x` into `sorted` after every element that may stand before it.
pub open spec fn insert_sorted(
    nodes: Seq<SceneNode>,
    baseplate_first: bool,
    sorted: Seq<usize>,
    x: usize,
) -> Seq<usize>
    decreases sorted.len(),
{
    if sorted.len() == 0 {
        seq![x]
    } else if node_le(nodes, baseplate_first, sorted.last(), x) {
        sorted.push(x)
    } else {
        insert_sorted(nodes, baseplate_first, sorted.drop_last(), x).push(sorted.last())
    }
}

/// The stable sort of `items` by `node_le`.
pub open spec fn stable_sort(nodes: Seq<SceneNode>, baseplate_first: bool, items: Seq<usize>) -> Seq<
    usize,
>
    decreases items.len(),
{
    if items.len() == 0 {
        Seq::empty()
    } else {
        insert_sorted(
            nodes,
            baseplate_first,
            stable_sort(nodes, baseplate_first, items.drop_last()),
            items.last(),
        )
    }
}

/// The nodes, in order, of those entities in `children` that the explorer lists.
pub open spec fn managed_entities(nodes: Seq<SceneNode>, children: Seq<u64>) -> Seq<usize>
    decreases children.len(),
{
    if children.len() == 0 {
        Seq::empty()
    } else {
        let rest = managed_entities(nodes, children.drop_last());
        match entity_index(nodes, children.last()) {
            Some(j) => if is_managed(nodes[j]) {
                rest.push(j as usize)
            } else {
                rest
            },
            None => rest,
        }
    }
}

/// A listed node is a root of the explorer when it has no listed parent.
pub open spec fn is_root(nodes: Seq<SceneNode>, node: SceneNode) -> bool {
    is_managed(node) && match node.parent {
        None => true,
        Some(p) => match entity_index(nodes, p) {
            Some(j) => !is_managed(nodes[j]),
            None => true,
        },
    }
}

/// The indices of the root nodes among the first `n` nodes, in order.
pub open spec fn roots_upto(nodes: Seq<SceneNode>, n: int) -> Seq<usize>
    decreases n,
{
    if n <= 0 {
        Seq::empty()
    } else if is_root(nodes, nodes[n - 1]) {
        roots_upto(nodes, n - 1).push((n - 1) as usize)
    } else {
        roots_upto(nodes, n - 1)
    }
}

/// The children of node `i` that the explorer lists, sorted by name.
pub open spec fn sorted_children(nodes: Seq<SceneNode>, i: usize) -> Seq<usize> {
    stable_sort(nodes, false, managed_entities(nodes, nodes[i as int].children@))
}

/// Node `i` followed by its listed descendants, depth first, going at most
/// `fuel` levels down.
pub open spec fn subtree_order(nodes: Seq<SceneNode>, i: usize, fuel: nat) -> Seq<u64>
    decreases fuel, 0nat,
{
    if fuel == 0 {
        Seq::empty()
    } else {
        seq![nodes[i as int].entity] + forest_order(
            nodes,
            sorted_children(nodes, i),
            (fuel - 1) as nat,
        )
    }
}

/// The subtrees of `items`, one after the other.
pub open spec fn forest_order(nodes: Seq<SceneNode>, items: Seq<usize>, fuel: nat) -> Seq<u64>
    decreases fuel, items.len() + 1,
{
    if items.len() == 0 {
        Seq::empty()
    } else {
        forest_order(nodes, items.drop_last(), fuel) + subtree_order(nodes, items.last(), fuel)
    }
}

/// The explorer's listing: the roots, baseplate first and then by name, each
/// followed by its listed descendants with siblings sorted by name.
pub open spec fn explorer_order(nodes: Seq<SceneNode>) -> Seq<u64> {
    forest_order(nodes, stable_sort(nodes, true, roots_upto(nodes, nodes.len() as int)), nodes.len())
}

/// All indices in `items` point into `nodes`.
pub open spec fn in_bounds(items: Seq<usize>, n: int) -> bool {
    forall|k: int| 0 <= k < items.len() ==> #[trigger] items[k] < n
}

/// The index of the first node for `entity`.
pub fn find_node(nodes: &Vec<SceneNode>, entity: u64) -> (r: Option<usize>)
    ensures
        match entity_index(nodes@, entity) {
            Some(i) => r == Some(i as usize),
            None => r is None,
        },
        r matches Some(i) ==> i < nodes.len(),
{
    let mut i: usize = 0;
    while i < nodes.len()
        invariant
            i <= nodes.len(),
            entity_index(nodes@.take(i as int), entity) is None,
        decreases nodes.len() - i,
    {
        assert(nodes@.take(i + 1).drop_last() == nodes@.take(i as int));
        if nodes[i].entity == entity {
            proof {
                lemma_entity_index_prefix(nodes@, entity, i + 1);
            }
            return Some(i);
        }
        i = i + 1;
    }
    assert(nodes@.take(nodes.len() as int) == nodes@);
    None
}

proof fn lemma_entity_index_prefix(nodes: Seq<SceneNode>, entity: u64, n: int)
    requires
        0 <= n <= nodes.len(),
        entity_index(nodes.take(n), entity) is Some,
    ensures
        entity_index(nodes, entity) == entity_index(nodes.take(n), entity),
    decreases nodes.len() - n,
{
    if n < nodes.len() {
        assert(nodes.take(n + 1).drop_last() == nodes.take(n));
        lemma_entity_index_prefix(nodes, entity, n + 1);
    } else {
        assert(nodes.take(n) == nodes);
    }
}

/// Whether the explorer lists this node.
pub fn node_is_managed(node: &SceneNode) -> (r: bool)
    ensures
        r == is_managed(*node),
{
    node.is_brick || node.is_script || str_eq(node.name.as_str(), "Baseplate")
}

/// Whether the explorer lists the entity.
pub fn is_managed_entity(entity: u64, nodes: &Vec<SceneNode>) -> (r: bool)
    ensures
        r == match entity_index(nodes@, entity) {
            Some(i) => is_managed(nodes@[i]),
            None => false,
        },
{
    match find_node(nodes, entity) {
        Some(i) => node_is_managed(&nodes[i]),
        None => false,
    }
}

fn node_le_exec(nodes: &Vec<SceneNode>, baseplate_first: bool, a: usize, b: usize) -> (r: bool)
    requires
        a < nodes.len(),
        b < nodes.len(),
    ensures
        r == node_le(nodes@, baseplate_first, a, b),
{
    let ra: u8 = if baseplate_first && str_eq(nodes[a].name.as_str(), "Baseplate") {
        0
    } else {
        1
    };
    let rb: u8 = if baseplate_first && str_eq(nodes[b].name.as_str(), "Baseplate") {
        0
    } else {
        1
    };
    ra < rb || (ra == rb && str_le(nodes[a].name.as_str(), nodes[b].name.as_str()))
}

proof fn lemma_insert_at(
    nodes: Seq<SceneNode>,
    baseplate_first: bool,
    sorted: Seq<usize>,
    x: usize,
    j: int,
)
    requires
        0 <= j <= sorted.len(),
        j == 0 || node_le(nodes, baseplate_first, sorted[j - 1], x),
        forall|k: int| j <= k < sorted.len() ==> !node_le(nodes, baseplate_first, #[trigger] sorted[k], x),
    ensures
        insert_sorted(nodes, baseplate_first, sorted, x) == sorted.insert(j, x),
    decreases sorted.len(),
{
    if j < sorted.len() {
        assert(!node_le(nodes, baseplate_first, sorted[sorted.len() - 1], x));
        lemma_insert_at(nodes, baseplate_first, sorted.drop_last(), x, j);
        assert(sorted.drop_last().insert(j, x).push(sorted.last()) == sorted.insert(j, x));
    } else {
        assert(sorted.push(x) == sorted.insert(j, x));
    }
}

proof fn lemma_bytes_le_total(a: Seq<u8>, b: Seq<u8>)
    ensures
        bytes_le(a, b) || bytes_le(b, a),
    decreases a.len(),
{
    if a.len() > 0 && b.len() > 0 && a[0] == b[0] {
        lemma_bytes_le_total(a.drop_first(), b.drop_first());
    }
}

proof fn lemma_bytes_le_trans(a: Seq<u8>, b: Seq<u8>, c: Seq<u8>)
    requires
        bytes_le(a, b),
        bytes_le(b, c),
    ensures
        bytes_le(a, c),
    decreases a.len(),
{
    if a.len() > 0 && b.len() > 0 && c.len() > 0 && a[0] == b[0] && b[0] == c[0] {
        lemma_bytes_le_trans(a.drop_first(), b.drop_first(), c.drop_first());
    }
}

proof fn lemma_node_le_total(nodes: Seq<SceneNode>, bf: bool, a: usize, b: usize)
    ensures
        node_le(nodes, bf, a, b) || node_le(nodes, bf, b, a),
{
    lemma_bytes_le_total(name_bytes(nodes[a as int].name@), name_bytes(nodes[b as int].name@));
}

proof fn lemma_node_le_trans(nodes: Seq<SceneNode>, bf: bool, a: usize, b: usize, c: usize)
    requires
        node_le(nodes, bf, a, b),
        node_le(nodes, bf, b, c),
    ensures
        node_le(nodes, bf, a, c),
{
    if rank(nodes[a as int], bf) == rank(nodes[b as int], bf) && rank(nodes[b as int], bf) == rank(
        nodes[c as int],
        bf,
    ) {
        lemma_bytes_le_trans(
            name_bytes(nodes[a as int].name@),
            name_bytes(nodes[b as int].name@),
            name_bytes(nodes[c as int].name@),
        );
    }
}

/// `s` is in the explorer's order: each item may stand before every later one.
pub open spec fn sorted_by(nodes: Seq<SceneNode>, bf: bool, s: Seq<usize>) -> bool {
    forall|i: int, j: int| 0 <= i < j < s.len() ==> node_le(nodes, bf, #[trigger] s[i], #[trigger] s[j])
}

proof fn lemma_insert_sorted_props(nodes: Seq<SceneNode>, bf: bool, s: Seq<usize>, x: usize)
    ensures
        insert_sorted(nodes, bf, s, x).to_multiset() == s.to_multiset().insert(x),
        sorted_by(nodes, bf, s) ==> sorted_by(nodes, bf, insert_sorted(nodes, bf, s, x)),
    decreases s.len(),
{
    broadcast use vstd::seq_lib::group_to_multiset_ensures;

    if s.len() == 0 {
        assert(seq![x] == Seq::<usize>::empty().push(x));
    } else if node_le(nodes, bf, s.last(), x) {
        if sorted_by(nodes, bf, s) {
            let r = s.push(x);
            assert forall|i: int, j: int| 0 <= i < j < r.len() implies node_le(
                nodes,
                bf,
                #[trigger] r[i],
                #[trigger] r[j],
            ) by {
                if j < s.len() {
                    assert(r[i] == s[i] && r[j] == s[j]);
                } else {
                    assert(r[i] == s[i] && r[j] == x);
                    if i < s.len() - 1 {
                        assert(node_le(nodes, bf, s[i], s[s.len() - 1]));
                        lemma_node_le_trans(nodes, bf, s[i], s.last(), x);
                    }
                }
            }
        }
    } else {
        let d = s.drop_last();
        lemma_insert_sorted_props(nodes, bf, d, x);
        let r1 = insert_sorted(nodes, bf, d, x);
        let r = r1.push(s.last());
        assert(d.push(s.last()) == s);
        assert(r.to_multiset() =~= s.to_multiset().insert(x));
        if sorted_by(nodes, bf, s) {
            assert(sorted_by(nodes, bf, d)) by {
                assert forall|i: int, j: int| 0 <= i < j < d.len() implies node_le(
                    nodes,
                    bf,
                    #[trigger] d[i],
                    #[trigger] d[j],
                ) by {
                    assert(d[i] == s[i] && d[j] == s[j]);
                }
            }
            lemma_node_le_total(nodes, bf, s.last(), x);
            assert forall|i: int, j: int| 0 <= i < j < r.len() implies node_le(
                nodes,
                bf,
                #[trigger] r[i],
                #[trigger] r[j],
            ) by {
                if j < r1.len() {
                    assert(r[i] == r1[i] && r[j] == r1[j]);
                } else {
                    assert(r[i] == r1[i] && r[j] == s.last());
                    assert(r1.contains(r1[i]));
                    assert(r1.to_multiset().count(r1[i]) > 0);
                    if r1[i] != x {
                        assert(d.to_multiset().count(r1[i]) > 0);
                        assert(d.contains(r1[i]));
                        let k = choose|k: int| 0 <= k < d.len() && d[k] == r1[i];
                        assert(s[k] == r1[i]);
                        assert(node_le(nodes, bf, s[k], s[s.len() - 1]));
                    }
                }
            }
        }
    }
}

proof fn lemma_stable_sort_props(nodes: Seq<SceneNode>, bf: bool, items: Seq<usize>)
    ensures
        stable_sort(nodes, bf, items).to_multiset() == items.to_multiset(),
        sorted_by(nodes, bf, stable_sort(nodes, bf, items)),
    decreases items.len(),
{
    broadcast use vstd::seq_lib::group_to_multiset_ensures;

    if items.len() > 0 {
        let d = items.drop_last();
        lemma_stable_sort_props(nodes, bf, d);
        lemma_insert_sorted_props(nodes, bf, stable_sort(nodes, bf, d), items.last());
        assert(d.push(items.last()) == items);
    }
}

/// The explorer's sort keeps every item, each as often as before, and
/// puts them in order: with `bf` the baseplate first, then by name in the
/// order Rust compares strings.
pub proof fn lemma_explorer_sort_orders_items(nodes: Seq<SceneNode>, bf: bool, items: Seq<usize>)
    ensures
        stable_sort(nodes, bf, items).to_multiset() == items.to_multiset(),
        sorted_by(nodes, bf, stable_sort(nodes, bf, items)),
{
    lemma_stable_sort_props(nodes, bf, items);
}

/// Sorts node indices stably by `node_le`.
fn sort_nodes(nodes: &Vec<SceneNode>, baseplate_first: bool, items: &Vec<usize>) -> (r: Vec<usize>)
    requires
        in_bounds(items@, nodes.len() as int),
    ensures
        r@ == stable_sort(nodes@, baseplate_first, items@),
        in_bounds(r@, nodes.len() as int),
{
    let mut sorted: Vec<usize> = Vec::new();
    let mut i: usize = 0;
    while i < items.len()
        invariant
            i <= items.len(),
            in_bounds(items@, nodes.len() as int),
            in_bounds(sorted@, nodes.len() as int),
            sorted@ == stable_sort(nodes@, baseplate_first, items@.take(i as int)),
        decreases items.len() - i,
    {
        let x = items[i];
        let mut j: usize = sorted.len();
        while j > 0 && !node_le_exec(nodes, baseplate_first, sorted[j - 1], x)
            invariant
                j <= sorted.len(),
                x < nodes.len(),
                in_bounds(sorted@, nodes.len() as int),
                forall|k: int|
                    j <= k < sorted.len() ==> !node_le(
                        nodes@,
                        baseplate_first,
                        #[trigger] sorted@[k],
                        x,
                    ),
            decreases j,
        {
            j = j - 1;
        }
        proof {
            lemma_insert_at(nodes@, baseplate_first, sorted@, x, j as int);
            assert(items@.take(i + 1).drop_last() == items@.take(i as int));
        }
        sorted.insert(j, x);
        i = i + 1;
    }
    assert(items@.take(items.len() as int) == items@);
    sorted
}

/// The listed children of node `i`, sorted by name.
fn sorted_children_exec(nodes: &Vec<SceneNode>, i: usize) -> (r: Vec<usize>)
    requires
        i < nodes.len(),
    ensures
        r@ == sorted_children(nodes@, i),
        in_bounds(r@, nodes.len() as int),
{
    let children = &nodes[i].children;
    let mut listed: Vec<usize> = Vec::new();
    let mut k: usize = 0;
    while k < children.len()
        invariant
            i < nodes.len(),
            *children == nodes@[i as int].children,
            k <= children.len(),
            listed@ == managed_entities(nodes@, children@.take(k as int)),
            in_bounds(listed@, nodes.len() as int),
        decreases children.len() - k,
    {
        assert(children@.take(k + 1).drop_last() == children@.take(k as int));
        if let Some(j) = find_node(nodes, children[k]) {
            if node_is_managed(&nodes[j]) {
                listed.push(j);
            }
        }
        k = k + 1;
    }
    assert(children@.take(children.len() as int) == children@);
    sort_nodes(nodes, false, &listed)
}

/// Appends node `i` and its listed descendants, depth first, at most `fuel` levels deep.
fn traverse_node_recursive(nodes: &Vec<SceneNode>, i: usize, fuel: usize, flat: &mut Vec<u64>)
    requires
        i < nodes.len(),
    ensures
        final(flat)@ == old(flat)@ + subtree_order(nodes@, i, fuel as nat),
    decreases fuel,
{
    if fuel == 0 {
        assert(old(flat)@ + Seq::<u64>::empty() == old(flat)@);
        return;
    }
    let ghost start = flat@;
    flat.push(nodes[i].entity);
    let kids = sorted_children_exec(nodes, i);
    let mut k: usize = 0;
    while k < kids.len()
        invariant
            i < nodes.len(),
            fuel > 0,
            kids@ == sorted_children(nodes@, i),
            in_bounds(kids@, nodes.len() as int),
            k <= kids.len(),
            flat@ == start + seq![nodes@[i as int].entity] + forest_order(
                nodes@,
                kids@.take(k as int),
                (fuel - 1) as nat,
            ),
        decreases kids.len() - k,
    {
        assert(kids@.take(k + 1).drop_last() == kids@.take(k as int));
        let ghost before = flat@;
        traverse_node_recursive(nodes, kids[k], fuel - 1, flat);
        assert(flat@ == before + subtree_order(nodes@, kids@[k as int], (fuel - 1) as nat));
        k = k + 1;
    }
    assert(kids@.take(kids.len() as int) == kids@);
}

/// The entities the explorer lists, in order: the roots (the baseplate
/// first, then by name), each followed depth first by its listed
/// descendants, siblings sorted by name. The walk goes at most as many levels
/// down as there are nodes.
pub fn get_flat_ordered_entities(nodes: &Vec<SceneNode>) -> (r: Vec<u64>)
    ensures
        r@ == explorer_order(nodes@),
{
    let mut roots: Vec<usize> = Vec::new();
    let mut i: usize = 0;
    while i < nodes.len()
        invariant
            i <= nodes.len(),
            roots@ == roots_upto(nodes@, i as int),
            in_bounds(roots@, nodes.len() as int),
        decreases nodes.len() - i,
    {
        let root = if node_is_managed(&nodes[i]) {
            match nodes[i].parent {
                None => true,
                Some(p) => match find_node(nodes, p) {
                    Some(j) => !node_is_managed(&nodes[j]),
                    None => true,
                },
            }
        } else {
            false
        };
        if root {
            roots.push(i);
        }
        i = i + 1;
    }
    let sorted = sort_nodes(nodes, true, &roots);
    let mut flat: Vec<u64> = Vec::new();
    let mut k: usize = 0;
    while k < sorted.len()
        invariant
            sorted@ == stable_sort(nodes@, true, roots_upto(nodes@, nodes.len() as int)),
            in_bounds(sorted@, nodes.len() as int),
            k <= sorted.len(),
            flat@ == forest_order(nodes@, sorted@.take(k as int), nodes.len() as nat),
        decreases sorted.len() - k,
    {
        assert(sorted@.take(k + 1).drop_last() == sorted@.take(k as int));
        let ghost before = flat@;
        traverse_node_recursive(nodes, sorted[k], nodes.len(), &mut flat);
        k = k + 1;
    }
    assert(sorted@.take(sorted.len() as int) == sorted@);
    flat
}

/// Every index of `items` names a node that the explorer lists.
pub open spec fn managed_indices(nodes: Seq<SceneNode>, items: Seq<usize>) -> bool {
    forall|k: int|
        0 <= k < items.len() ==> #[trigger] items[k] < nodes.len() && is_managed(nodes[items[k] as int])
}

/// `e` is the entity of a node that the explorer lists.
pub open spec fn is_listed_entity(nodes: Seq<SceneNode>, e: u64) -> bool {
    exists|j: int| 0 <= j < nodes.len() && #[trigger] nodes[j].entity == e && is_managed(nodes[j])
}

/// Every entity of `listed` is that of a node the explorer lists.
pub open spec fn only_managed(nodes: Seq<SceneNode>, listed: Seq<u64>) -> bool {
    forall|k: int| 0 <= k < listed.len() ==> is_listed_entity(nodes, #[trigger] listed[k])
}

proof fn lemma_only_managed_concat(nodes: Seq<SceneNode>, a: Seq<u64>, b: Seq<u64>)
    requires
        only_managed(nodes, a),
        only_managed(nodes, b),
    ensures
        only_managed(nodes, a + b),
{
    assert forall|k: int| 0 <= k < (a + b).len() implies is_listed_entity(nodes, #[trigger] (a + b)[k]) by {
        if k < a.len() {
            assert((a + b)[k] == a[k]);
        } else {
            assert((a + b)[k] == b[k - a.len()]);
        }
    }
}

proof fn lemma_insert_sorted_managed(nodes: Seq<SceneNode>, bf: bool, sorted: Seq<usize>, x: usize)
    requires
        managed_indices(nodes, sorted),
        x < nodes.len(),
        is_managed(nodes[x as int]),
    ensures
        managed_indices(nodes, insert_sorted(nodes, bf, sorted, x)),
    decreases sorted.len(),
{
    if sorted.len() == 0 {
        assert(seq![x][0] == x);
    } else if node_le(nodes, bf, sorted.last(), x) {
        assert forall|k: int| 0 <= k < sorted.push(x).len() implies #[trigger] sorted.push(x)[k]
            < nodes.len() && is_managed(nodes[sorted.push(x)[k] as int]) by {
            if k < sorted.len() {
                assert(sorted.push(x)[k] == sorted[k]);
            }
        }
    } else {
        let d = sorted.drop_last();
        assert forall|k: int| 0 <= k < d.len() implies #[trigger] d[k] < nodes.len() && is_managed(
            nodes[d[k] as int],
        ) by {
            assert(d[k] == sorted[k]);
        }
        lemma_insert_sorted_managed(nodes, bf, d, x);
        let r = insert_sorted(nodes, bf, d, x);
        assert(sorted[sorted.len() - 1] == sorted.last());
        assert forall|k: int| 0 <= k < r.push(sorted.last()).len() implies #[trigger] r.push(
            sorted.last(),
        )[k] < nodes.len() && is_managed(nodes[r.push(sorted.last())[k] as int]) by {
            if k < r.len() {
                assert(r.push(sorted.last())[k] == r[k]);
            }
        }
    }
}

proof fn lemma_stable_sort_managed(nodes: Seq<SceneNode>, bf: bool, items: Seq<usize>)
    requires
        managed_indices(nodes, items),
    ensures
        managed_indices(nodes, stable_sort(nodes, bf, items)),
    decreases items.len(),
{
    if items.len() > 0 {
        let d = items.drop_last();
        assert forall|k: int| 0 <= k < d.len() implies #[trigger] d[k] < nodes.len() && is_managed(
            nodes[d[k] as int],
        ) by {
            assert(d[k] == items[k]);
        }
        lemma_stable_sort_managed(nodes, bf, d);
        assert(items[items.len() - 1] == items.last());
        lemma_insert_sorted_managed(nodes, bf, stable_sort(nodes, bf, d), items.last());
    }
}

proof fn lemma_managed_entities_managed(nodes: Seq<SceneNode>, children: Seq<u64>)
    requires
        nodes.len() <= usize::MAX,
    ensures
        managed_indices(nodes, managed_entities(nodes, children)),
    decreases children.len(),
{
    if children.len() > 0 {
        lemma_managed_entities_managed(nodes, children.drop_last());
        let rest = managed_entities(nodes, children.drop_last());
        if let Some(j) = entity_index(nodes, children.last()) {
            if is_managed(nodes[j]) {
                assert forall|k: int| 0 <= k < rest.push(j as usize).len() implies #[trigger] rest.push(
                    j as usize,
                )[k] < nodes.len() && is_managed(nodes[rest.push(j as usize)[k] as int]) by {
                    if k < rest.len() {
                        assert(rest.push(j as usize)[k] == rest[k]);
                    }
                }
            }
        }
    }
}

proof fn lemma_roots_managed(nodes: Seq<SceneNode>, n: int)
    requires
        n <= nodes.len(),
        nodes.len() <= usize::MAX,
    ensures
        managed_indices(nodes, roots_upto(nodes, n)),
    decreases n,
{
    if n > 0 {
        lemma_roots_managed(nodes, n - 1);
        let rest = roots_upto(nodes, n - 1);
        if is_root(nodes, nodes[n - 1]) {
            assert forall|k: int| 0 <= k < rest.push((n - 1) as usize).len() implies #[trigger] rest.push(
                (n - 1) as usize,
            )[k] < nodes.len() && is_managed(nodes[rest.push((n - 1) as usize)[k] as int]) by {
                if k < rest.len() {
                    assert(rest.push((n - 1) as usize)[k] == rest[k]);
                }
            }
        }
    }
}

proof fn lemma_subtree_only_managed(nodes: Seq<SceneNode>, i: usize, fuel: nat)
    requires
        nodes.len() <= usize::MAX,
        i < nodes.len(),
        is_managed(nodes[i as int]),
    ensures
        only_managed(nodes, subtree_order(nodes, i, fuel)),
    decreases fuel, 0nat,
{
    if fuel > 0 {
        let head = seq![nodes[i as int].entity];
        assert(head[0] == nodes[i as int].entity);
        assert(is_listed_entity(nodes, nodes[i as int].entity));
        assert(only_managed(nodes, head));
        lemma_managed_entities_managed(nodes, nodes[i as int].children@);
        lemma_stable_sort_managed(nodes, false, managed_entities(nodes, nodes[i as int].children@));
        lemma_forest_only_managed(nodes, sorted_children(nodes, i), (fuel - 1) as nat);
        lemma_only_managed_concat(
            nodes,
            head,
            forest_order(nodes, sorted_children(nodes, i), (fuel - 1) as nat),
        );
    }
}

proof fn lemma_forest_only_managed(nodes: Seq<SceneNode>, items: Seq<usize>, fuel: nat)
    requires
        nodes.len() <= usize::MAX,
        managed_indices(nodes, items),
    ensures
        only_managed(nodes, forest_order(nodes, items, fuel)),
    decreases fuel, items.len() + 1,
{
    if items.len() > 0 {
        let d = items.drop_last();
        assert forall|k: int| 0 <= k < d.len() implies #[trigger] d[k] < nodes.len() && is_managed(
            nodes[d[k] as int],
        ) by {
            assert(d[k] == items[k]);
        }
        lemma_forest_only_managed(nodes, d, fuel);
        assert(items[items.len() - 1] == items.last());
        lemma_subtree_only_managed(nodes, items.last(), fuel);
        lemma_only_managed_concat(
            nodes,
            forest_order(nodes, d, fuel),
            subtree_order(nodes, items.last(), fuel),
        );
    }
}

/// The explorer lists only bricks, scripts and the baseplate: every entity
/// in its listing is that of such a node of the scene.
pub proof fn lemma_explorer_lists_only_managed(nodes: Seq<SceneNode>)
    requires
        nodes.len() <= usize::MAX,
    ensures
        only_managed(nodes, explorer_order(nodes)),
{
    lemma_roots_managed(nodes, nodes.len() as int);
    lemma_stable_sort_managed(nodes, true, roots_upto(nodes, nodes.len() as int));
    lemma_forest_only_managed(
        nodes,
        stable_sort(nodes, true, roots_upto(nodes, nodes.len() as int)),
        nodes.len(),
    );
}

/// The indices of the player characters among the first `n` nodes, in order.
pub open spec fn player_indices(nodes: Seq<SceneNode>, n: int) -> Seq<usize>
    decreases n,
{
    if n <= 0 {
        Seq::empty()
    } else if player_name(nodes[n - 1].name@) {
        player_indices(nodes, n - 1).push((n - 1) as usize)
    } else {
        player_indices(nodes, n - 1)
    }
}

/// The player characters the explorer lists under Players: sorted by name,
/// those with equal names in scene order.
pub open spec fn player_list(nodes: Seq<SceneNode>) -> Seq<u64> {
    stable_sort(nodes, false, player_indices(nodes, nodes.len() as int)).map_values(
        |i: usize| nodes[i as int].entity,
    )
}

/// The entities listed under Players in the explorer.
pub fn sorted_players(nodes: &Vec<SceneNode>) -> (r: Vec<u64>)
    ensures
        r@ == player_list(nodes@),
{
    let mut found: Vec<usize> = Vec::new();
    let mut i: usize = 0;
    while i < nodes.len()
        invariant
            i <= nodes.len(),
            found@ == player_indices(nodes@, i as int),
            in_bounds(found@, nodes.len() as int),
        decreases nodes.len() - i,
    {
        if is_player_name(nodes[i].name.as_str()) {
            found.push(i);
        }
        i = i + 1;
    }
    let sorted = sort_nodes(nodes, false, &found);
    let mut out: Vec<u64> = Vec::new();
    let mut k: usize = 0;
    while k < sorted.len()
        invariant
            k <= sorted.len(),
            in_bounds(sorted@, nodes.len() as int),
            sorted@ == stable_sort(nodes@, false, player_indices(nodes@, nodes.len() as int)),
            out@ == sorted@.take(k as int).map_values(|j: usize| nodes@[j as int].entity),
        decreases sorted.len() - k,
    {
        assert(sorted@.take(k + 1).map_values(|j: usize| nodes@[j as int].entity) == sorted@.take(
            k as int,
        ).map_values(|j: usize| nodes@[j as int].entity).push(nodes@[sorted@[k as int] as int].entity));
        out.push(nodes[sorted[k]].entity);
        k = k + 1;
    }
    assert(sorted@.take(sorted.len() as int) == sorted@);
    out
}

/// Walking up from `current` meets `target` within `steps` parent links.
pub open spec fn has_ancestor_within(
    nodes: Seq<SceneNode>,
    current: u64,
    target: u64,
    steps: nat,
) -> bool
    decreases steps,
{
    if steps == 0 {
        false
    } else {
        match entity_index(nodes, current) {
            None => false,
            Some(i) => match nodes[i].parent {
                None => false,
                Some(p) => p == target || has_ancestor_within(nodes, p, target, (steps - 1) as nat),
            },
        }
    }
}

/// How far up the explorer looks for an ancestor.
pub const MAX_ANCESTOR_STEPS: usize = 1001;

/// Whether `parent` is an ancestor of `child`, looking at most 1001 levels up.
pub fn is_descendant(child: u64, parent: u64, nodes: &Vec<SceneNode>) -> (r: bool)
    ensures
        r == has_ancestor_within(nodes@, child, parent, MAX_ANCESTOR_STEPS as nat),
{
    let mut current = child;
    let mut left: usize = MAX_ANCESTOR_STEPS;
    while left > 0
        invariant
            left <= MAX_ANCESTOR_STEPS,
            has_ancestor_within(nodes@, child, parent, MAX_ANCESTOR_STEPS as nat)
                == has_ancestor_within(nodes@, current, parent, left as nat),
        decreases left,
    {
        match find_node(nodes, current) {
            None => {
                return false;
            },
            Some(i) => match nodes[i].parent {
                None => {
                    return false;
                },
                Some(p) => {
                    if p == parent {
                        return true;
                    }
                    current = p;
                },
            },
        }
        left = left - 1;
    }
    false
}


/// Whether dropping `dragged` onto `target` in the explorer may make it a
/// child of `target`: not onto itself, and not onto one of its own
/// descendants (looking at most 1001 levels up from `target`).
pub fn can_drop_on(dragged: u64, target: u64, nodes: &Vec<SceneNode>) -> (r: bool)
    ensures
        r == (dragged != target && !has_ancestor_within(nodes@, target, dragged, MAX_ANCESTOR_STEPS as nat)),
{
    dragged != target && !is_descendant(target, dragged, nodes)
}

/// Where an explorer drag is released.
#[derive(Clone, Copy, Debug, PartialEq, Eq, Structural)]
pub enum DropTarget {
    /// The Workspace header: the entity goes to the top of the scene.
    Workspace,
    /// The label of an entity.
    Entity(u64),
}

/// The new parent a released explorer drag gives `dragged`: none (the top
/// of the scene) on the Workspace header; the entity dropped on when the
/// drop is allowed; `None` when nothing changes.
pub fn drop_parent(dragged: u64, target: DropTarget, nodes: &Vec<SceneNode>) -> (r: Option<
    Option<u64>,
>)
    ensures
        r == match target {
            DropTarget::Workspace => Some(None::<u64>),
            DropTarget::Entity(e) => if dragged != e && !has_ancestor_within(
                nodes@,
                e,
                dragged,
                MAX_ANCESTOR_STEPS as nat,
            ) {
                Some(Some(e))
            } else {
                None
            },
        },
{
    match target {
        DropTarget::Workspace => Some(None),
        DropTarget::Entity(e) => if can_drop_on(dragged, e, nodes) {
            Some(Some(e))
        } else {
            None
        },
    }
}

/// The scene after a drop makes `dragged` a child of `target`.
pub open spec fn reparented(nodes: Seq<SceneNode>, dragged: u64, target: u64) -> Seq<SceneNode> {
    nodes.map_values(
        |n: SceneNode|
            if n.entity == dragged {
                SceneNode { parent: Some(target), ..n }
            } else {
                n
            },
    )
}

proof fn lemma_same_entities_same_index(a: Seq<SceneNode>, b: Seq<SceneNode>, e: u64)
    requires
        a.len() == b.len(),
        forall|i: int| 0 <= i < a.len() ==> #[trigger] a[i].entity == b[i].entity,
    ensures
        entity_index(a, e) == entity_index(b, e),
    decreases a.len(),
{
    if a.len() > 0 {
        let (da, db) = (a.drop_last(), b.drop_last());
        assert forall|i: int| 0 <= i < da.len() implies #[trigger] da[i].entity == db[i].entity by {
            assert(da[i] == a[i] && db[i] == b[i]);
        }
        lemma_same_entities_same_index(da, db, e);
        assert(a[a.len() - 1].entity == b[b.len() - 1].entity);
    }
}

proof fn lemma_ancestor_within_grows(nodes: Seq<SceneNode>, cur: u64, target: u64, k: nat)
    requires
        has_ancestor_within(nodes, cur, target, k),
    ensures
        has_ancestor_within(nodes, cur, target, k + 1),
    decreases k,
{
    if let Some(i) = entity_index(nodes, cur) {
        if let Some(p) = nodes[i].parent {
            if p != target {
                lemma_ancestor_within_grows(nodes, p, target, (k - 1) as nat);
            }
        }
    }
}

proof fn lemma_walk_avoiding_dragged(nodes: Seq<SceneNode>, dragged: u64, target: u64, cur: u64, k: nat)
    requires
        cur != dragged,
        !has_ancestor_within(nodes, cur, dragged, k),
    ensures
        !has_ancestor_within(reparented(nodes, dragged, target), cur, dragged, k),
    decreases k,
{
    let new = reparented(nodes, dragged, target);
    if k > 0 {
        lemma_same_entities_same_index(nodes, new, cur);
        if let Some(i) = entity_index(nodes, cur) {
            assert(new[i] == nodes[i]);
            if let Some(p) = nodes[i].parent {
                lemma_walk_avoiding_dragged(nodes, dragged, target, p, (k - 1) as nat);
            }
        }
    }
}

/// A drop that the explorer allows never puts the dragged entity among its
/// own ancestors: in the scene after the drop, walking up at most 1001
/// levels from it does not come back to it.
pub proof fn lemma_allowed_drop_makes_no_cycle(nodes: Seq<SceneNode>, dragged: u64, target: u64)
    requires
        dragged != target && !has_ancestor_within(nodes, target, dragged, MAX_ANCESTOR_STEPS as nat),
    ensures
        !has_ancestor_within(reparented(nodes, dragged, target), dragged, dragged, MAX_ANCESTOR_STEPS as nat),
{
    let new = reparented(nodes, dragged, target);
    let k = (MAX_ANCESTOR_STEPS - 1) as nat;
    if has_ancestor_within(nodes, target, dragged, k) {
        lemma_ancestor_within_grows(nodes, target, dragged, k);
    }
    lemma_walk_avoiding_dragged(nodes, dragged, target, target, k);
    lemma_same_entities_same_index(nodes, new, dragged);
    if let Some(i) = entity_index(nodes, dragged) {
        assert(new[i].parent == Some(target));
    }
}

/// The node's lower-cased name contains the search text.
pub open spec fn name_matches(node: SceneNode, search: Seq<char>) -> bool {
    exists|i: int| occurs_at(lowercase(node.name@), search, i)
}

/// An empty search matches everything; otherwise the entity matches when
/// its lower-cased name contains the search text or one of its children
/// matches, looking at most `fuel` levels down.
pub open spec fn matches_search(nodes: Seq<SceneNode>, entity: u64, search: Seq<char>, fuel: nat) -> bool
    decreases fuel, 0nat,
{
    if search.len() == 0 {
        true
    } else if fuel == 0 {
        false
    } else {
        match entity_index(nodes, entity) {
            None => false,
            Some(i) => name_matches(nodes[i], search) || any_child_matches(
                nodes,
                nodes[i].children@,
                search,
                (fuel - 1) as nat,
            ),
        }
    }
}

/// One of `kids` matches the search, looking at most `fuel` levels down.
pub open spec fn any_child_matches(nodes: Seq<SceneNode>, kids: Seq<u64>, search: Seq<char>, fuel: nat) -> bool
    decreases fuel, kids.len() + 1,
{
    if kids.len() == 0 {
        false
    } else {
        any_child_matches(nodes, kids.drop_last(), search, fuel) || matches_search(
            nodes,
            kids.last(),
            search,
            fuel,
        )
    }
}

fn matches_search_within(entity: u64, search: &str, nodes: &Vec<SceneNode>, fuel: usize) -> (r: bool)
    requires
        search@.len() > 0,
    ensures
        r == matches_search(nodes@, entity, search@, fuel as nat),
    decreases fuel,
{
    if fuel == 0 {
        return false;
    }
    match find_node(nodes, entity) {
        None => false,
        Some(i) => {
            let lower = to_lowercase(nodes[i].name.as_str());
            if contains_text(lower.as_str(), search) {
                return true;
            }
            let children = &nodes[i].children;
            let mut k: usize = 0;
            while k < children.len()
                invariant
                    i < nodes.len(),
                    fuel > 0,
                    search@.len() > 0,
                    entity_index(nodes@, entity) == Some(i as int),
                    *children == nodes@[i as int].children,
                    k <= children.len(),
                    !any_child_matches(nodes@, children@.take(k as int), search@, (fuel - 1) as nat),
                decreases children.len() - k,
            {
                assert(children@.take(k + 1).drop_last() == children@.take(k as int));
                if matches_search_within(children[k], search, nodes, fuel - 1) {
                    assert(any_child_matches(nodes@, children@.take(k + 1), search@, (fuel - 1) as nat));
                    proof {
                        lemma_any_child_prefix(nodes@, children@, search@, (fuel - 1) as nat, k + 1);
                    }
                    return true;
                }
                k = k + 1;
            }
            assert(children@.take(children.len() as int) == children@);
            false
        },
    }
}

proof fn lemma_any_child_prefix(nodes: Seq<SceneNode>, kids: Seq<u64>, search: Seq<char>, fuel: nat, n: int)
    requires
        0 <= n <= kids.len(),
        any_child_matches(nodes, kids.take(n), search, fuel),
    ensures
        any_child_matches(nodes, kids, search, fuel),
    decreases kids.len() - n,
{
    if n < kids.len() {
        assert(kids.take(n + 1).drop_last() == kids.take(n));
        lemma_any_child_prefix(nodes, kids, search, fuel, n + 1);
    } else {
        assert(kids.take(n) == kids);
    }
}

/// Whether the entity, or one of its descendants, has a name whose
/// lower-cased form contains `search`; an empty search matches everything.
/// The walk goes at most as many levels down as there are nodes.
pub fn node_matches_search(entity: u64, search: &str, nodes: &Vec<SceneNode>) -> (r: bool)
    ensures
        r == matches_search(nodes@, entity, search@, nodes.len() as nat),
{
    if search.unicode_len() == 0 {
        return true;
    }
    matches_search_within(entity, search, nodes, nodes.len())
}


/// The node of entity `d` has a lower-cased name that contains `search`.
pub open spec fn named_match(nodes: Seq<SceneNode>, d: u64, search: Seq<char>) -> bool {
    entity_index(nodes, d) matches Some(i) && name_matches(nodes[i], search)
}

/// `d` is reached from `e` by going `k` levels down through children.
pub open spec fn descendant_at(nodes: Seq<SceneNode>, e: u64, d: u64, k: nat) -> bool
    decreases k,
{
    if k == 0 {
        d == e
    } else {
        entity_index(nodes, e) matches Some(i) && exists|c: u64|
            #[trigger] nodes[i].children@.contains(c) && descendant_at(nodes, c, d, (k - 1) as nat)
    }
}

proof fn lemma_any_child_matches_some(nodes: Seq<SceneNode>, kids: Seq<u64>, search: Seq<char>, fuel: nat)
    ensures
        any_child_matches(nodes, kids, search, fuel) <==> exists|c: u64|
            #[trigger] kids.contains(c) && matches_search(nodes, c, search, fuel),
    decreases kids.len(),
{
    if kids.len() > 0 {
        let d = kids.drop_last();
        lemma_any_child_matches_some(nodes, d, search, fuel);
        if any_child_matches(nodes, kids, search, fuel) {
            if any_child_matches(nodes, d, search, fuel) {
                let c = choose|c: u64| #[trigger] d.contains(c) && matches_search(nodes, c, search, fuel);
                let j = choose|j: int| 0 <= j < d.len() && d[j] == c;
                assert(kids[j] == c);
                assert(kids.contains(c));
            } else {
                assert(kids[kids.len() - 1] == kids.last());
                assert(kids.contains(kids.last()));
                assert(matches_search(nodes, kids.last(), search, fuel));
            }
        } else {
            assert forall|c: u64| #[trigger] kids.contains(c) implies !matches_search(nodes, c, search, fuel) by {
                let j = choose|j: int| 0 <= j < kids.len() && kids[j] == c;
                if j < kids.len() - 1 {
                    assert(d[j] == c);
                    assert(d.contains(c));
                }
            }
        }
        if exists|c: u64| #[trigger] kids.contains(c) && matches_search(nodes, c, search, fuel) {
            let c = choose|c: u64| #[trigger] kids.contains(c) && matches_search(nodes, c, search, fuel);
            let j = choose|j: int| 0 <= j < kids.len() && kids[j] == c;
            if j < kids.len() - 1 {
                assert(d[j] == c);
                assert(d.contains(c));
            }
        }
    }
}

proof fn lemma_match_found_below(nodes: Seq<SceneNode>, e: u64, d: u64, k: nat, search: Seq<char>, fuel: nat)
    requires
        descendant_at(nodes, e, d, k),
        named_match(nodes, d, search),
        k < fuel,
    ensures
        matches_search(nodes, e, search, fuel),
    decreases k,
{
    if search.len() > 0 && k > 0 {
        let i = entity_index(nodes, e).unwrap();
        let c = choose|c: u64| #[trigger] nodes[i].children@.contains(c) && descendant_at(nodes, c, d, (k - 1) as nat);
        lemma_match_found_below(nodes, c, d, (k - 1) as nat, search, (fuel - 1) as nat);
        lemma_any_child_matches_some(nodes, nodes[i].children@, search, (fuel - 1) as nat);
    }
}

proof fn lemma_match_comes_from_below(nodes: Seq<SceneNode>, e: u64, search: Seq<char>, fuel: nat)
    requires
        search.len() > 0,
        matches_search(nodes, e, search, fuel),
    ensures
        exists|d: u64, k: nat| k < fuel && #[trigger] descendant_at(nodes, e, d, k) && named_match(nodes, d, search),
    decreases fuel,
{
    let i = entity_index(nodes, e).unwrap();
    if name_matches(nodes[i], search) {
        assert(descendant_at(nodes, e, e, 0));
    } else {
        lemma_any_child_matches_some(nodes, nodes[i].children@, search, (fuel - 1) as nat);
        let c = choose|c: u64| #[trigger] nodes[i].children@.contains(c) && matches_search(nodes, c, search, (fuel - 1) as nat);
        lemma_match_comes_from_below(nodes, c, search, (fuel - 1) as nat);
        let (d, k) = choose|d: u64, k: nat| k < fuel - 1 && #[trigger] descendant_at(nodes, c, d, k) && named_match(nodes, d, search);
        assert(descendant_at(nodes, e, d, k + 1));
    }
}

/// The explorer's search keeps an entity exactly when the search is empty,
/// or the lower-cased name of the entity itself or of a descendant at any
/// depth (below as many levels as there are nodes) contains the search. So
/// a match deep down keeps every entity on the way up to it.
pub proof fn lemma_search_matches_some_descendant(nodes: Seq<SceneNode>, e: u64, search: Seq<char>)
    ensures
        matches_search(nodes, e, search, nodes.len() as nat) <==> (search.len() == 0 || exists|d: u64, k: nat|
            k < nodes.len() && #[trigger] descendant_at(nodes, e, d, k) && named_match(nodes, d, search)),
{
    if search.len() > 0 {
        if matches_search(nodes, e, search, nodes.len() as nat) {
            lemma_match_comes_from_below(nodes, e, search, nodes.len() as nat);
        }
        if exists|d: u64, k: nat| k < nodes.len() && #[trigger] descendant_at(nodes, e, d, k) && named_match(nodes, d, search) {
            let (d, k) = choose|d: u64, k: nat| k < nodes.len() && #[trigger] descendant_at(nodes, e, d, k) && named_match(nodes, d, search);
            lemma_match_found_below(nodes, e, d, k, search, nodes.len() as nat);
        }
    }
}


/// `has_ancestor_within` is a walk up the hierarchy: `target` is among the
/// first `n` ancestors of `current` exactly when following some number
/// `k` (1 to `n`) of parent links from `current` reaches it.
pub proof fn lemma_ancestor_within_is_walk(nodes: Seq<SceneNode>, current: u64, target: u64, n: nat)
    ensures
        has_ancestor_within(nodes, current, target, n) <==> exists|k: nat|
            1 <= k <= n && #[trigger] ancestor_at(nodes, current, k) == Some(target),
    decreases n,
{
    if n > 0 {
        match entity_index(nodes, current) {
            None => {
                assert forall|k: nat| 1 <= k <= n implies #[trigger] ancestor_at(nodes, current, k) != Some(target) by {}
            },
            Some(i) => match nodes[i].parent {
                None => {
                    assert forall|k: nat| 1 <= k <= n implies #[trigger] ancestor_at(nodes, current, k) != Some(target) by {}
                },
                Some(p) => {
                    lemma_ancestor_within_is_walk(nodes, p, target, (n - 1) as nat);
                    assert forall|k: nat| 1 <= k <= n implies #[trigger] ancestor_at(nodes, current, k)
                        == ancestor_at(nodes, p, (k - 1) as nat) by {}
                    if has_ancestor_within(nodes, current, target, n) {
                        if p == target {
                            assert(ancestor_at(nodes, current, 1) == Some(target));
                        } else {
                            let k = choose|k: nat| 1 <= k <= n - 1 && #[trigger] ancestor_at(nodes, p, k) == Some(target);
                            assert(ancestor_at(nodes, current, k + 1) == Some(target));
                        }
                    }
                    if exists|k: nat| 1 <= k <= n && #[trigger] ancestor_at(nodes, current, k) == Some(target) {
                        let k = choose|k: nat| 1 <= k <= n && #[trigger] ancestor_at(nodes, current, k) == Some(target);
                        if k > 1 {
                            assert(ancestor_at(nodes, p, (k - 1) as nat) == Some(target));
                        }
                    }
                },
            },
        }
    }
}

/// The explorer refuses to drop an entity onto itself or onto anything
/// below it: a drop onto `target` is allowed exactly when `target` is not
/// the dragged entity and no walk of 1 to 1001 parent links up from
/// `target` reaches the dragged entity.
pub proof fn lemma_drop_refused_onto_descendants(nodes: Seq<SceneNode>, dragged: u64, target: u64)
    ensures
        (dragged != target && !has_ancestor_within(nodes, target, dragged, MAX_ANCESTOR_STEPS as nat)) <==> (
        dragged != target && forall|k: nat|
            1 <= k <= MAX_ANCESTOR_STEPS ==> #[trigger] ancestor_at(nodes, target, k) != Some(dragged)),
{
    lemma_ancestor_within_is_walk(nodes, target, dragged, MAX_ANCESTOR_STEPS as nat);
}

} // verus!
