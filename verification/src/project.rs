//! Saving a project and loading it again: the node ids written by
//! `save_node_ids` lead the loader back to the saved hierarchy.
use crate::map_loading::{
    entity_of_node, id_links, map_links, name_links, open_links, open_name_links, LoadedNode,
    ParentLink,
};
use crate::scene_ops::{saved_ids, SaveEntry};
use crate::selection::{first_index, lemma_first_index};
use vstd::prelude::*;

verus! {

broadcast use lemma_first_index;

/// The saved entities are numbered by `items`: each listed once, each entry
/// in the list, each listed entity saved, and no entity saved twice.
pub open spec fn well_numbered(entries: Seq<SaveEntry>, items: Seq<u64>) -> bool {
    &&& items.no_duplicates()
    &&& items.len() <= u64::MAX
    &&& forall|k: int| 0 <= k < entries.len() ==> items.contains(#[trigger] entries[k].entity)
    &&& forall|i: int|
        #![trigger items[i]]
        0 <= i < items.len() ==> exists|j: int| 0 <= j < entries.len() && #[trigger] entries[j].entity == items[i]
    &&& forall|j: int, k: int|
        0 <= j < k < entries.len() ==> #[trigger] entries[j].entity != #[trigger] entries[k].entity
}

/// Each loaded node carries the ids its entry was saved with.
pub open spec fn loaded_as_saved(entries: Seq<SaveEntry>, items: Seq<u64>, loaded: Seq<LoadedNode>) -> bool {
    &&& loaded.len() == entries.len()
    &&& forall|k: int|
        0 <= k < entries.len() ==> (#[trigger] loaded[k]).node_id == saved_ids(items, entries[k], k).node_id
            && loaded[k].parent_node_id == saved_ids(items, entries[k], k).parent_node_id
}

/// The place of the entry saved for entity `e`.
pub open spec fn entry_of(entries: Seq<SaveEntry>, e: u64) -> int {
    choose|j: int| 0 <= j < entries.len() && entries[j].entity == e
}

/// The saved hierarchy, as links between loaded nodes: each of the first
/// `n` entries whose parent was saved goes under the node loaded for that
/// parent.
pub open spec fn saved_hierarchy(
    entries: Seq<SaveEntry>,
    items: Seq<u64>,
    loaded: Seq<LoadedNode>,
    n: nat,
) -> Seq<ParentLink>
    decreases n,
{
    if n == 0 {
        Seq::empty()
    } else {
        let rest = saved_hierarchy(entries, items, loaded, (n - 1) as nat);
        let k = n - 1;
        match entries[k].parent {
            Some(p) => if items.contains(p) {
                rest.push(ParentLink { parent: loaded[entry_of(entries, p)].entity, child: loaded[k].entity })
            } else {
                rest
            },
            None => rest,
        }
    }
}

proof fn lemma_entity_of_unique_node(nodes: Seq<LoadedNode>, id: u64, j: int)
    requires
        0 <= j < nodes.len(),
        nodes[j].node_id == id,
        forall|m: int| 0 <= m < nodes.len() && m != j ==> #[trigger] nodes[m].node_id != id,
    ensures
        entity_of_node(nodes, id) == Some(nodes[j].entity),
    decreases nodes.len(),
{
    if j < nodes.len() - 1 {
        let d = nodes.drop_last();
        assert forall|m: int| 0 <= m < d.len() && m != j implies #[trigger] d[m].node_id != id by {
            assert(d[m] == nodes[m]);
        }
        lemma_entity_of_unique_node(d, id, j);
    }
}

proof fn lemma_ids_by_first_index(entries: Seq<SaveEntry>, items: Seq<u64>, k: int)
    requires
        well_numbered(entries, items),
        0 <= k < entries.len(),
    ensures
        first_index(items, entries[k].entity) is Some,
        saved_ids(items, entries[k], k).node_id == first_index(items, entries[k].entity).unwrap() as u64,
{
    assert(items.contains(entries[k].entity));
    let i = choose|i: int| 0 <= i < items.len() && items[i] == entries[k].entity;
    if first_index(items, entries[k].entity) is None {
        assert(items[i] != entries[k].entity);
    }
}

proof fn lemma_parent_link(
    entries: Seq<SaveEntry>,
    items: Seq<u64>,
    loaded: Seq<LoadedNode>,
    k: int,
    p: u64,
)
    requires
        well_numbered(entries, items),
        loaded_as_saved(entries, items, loaded),
        0 <= k < entries.len(),
        entries[k].parent == Some(p),
        items.contains(p),
    ensures
        loaded[k].parent_node_id matches Some(pid) && entity_of_node(loaded, pid) == Some(
            loaded[entry_of(entries, p)].entity,
        ),
{
    let i0 = choose|i: int| 0 <= i < items.len() && items[i] == p;
    if first_index(items, p) is None {
        assert(items[i0] != p);
    }
    let i = first_index(items, p).unwrap();
    assert(items[i] == p);
    let w = choose|j: int| 0 <= j < entries.len() && #[trigger] entries[j].entity == items[i];
    assert(entries[w].entity == p);
    let j = entry_of(entries, p);
    assert(0 <= j < entries.len() && entries[j].entity == p);
    assert(loaded[k].node_id == saved_ids(items, entries[k], k).node_id);
    lemma_ids_by_first_index(entries, items, j);
    assert(loaded[j].node_id == saved_ids(items, entries[j], j).node_id);
    assert(loaded[j].node_id == i as u64);
    assert forall|m: int| 0 <= m < loaded.len() && m != j implies #[trigger] loaded[m].node_id != (i as u64) by {
        lemma_ids_by_first_index(entries, items, m);
        assert(loaded[m].node_id == saved_ids(items, entries[m], m).node_id);
        let im = first_index(items, entries[m].entity).unwrap();
        assert(items[im] == entries[m].entity);
        if m < j {
            assert(entries[m].entity != entries[j].entity);
        } else {
            assert(entries[j].entity != entries[m].entity);
        }
        assert(im != i);
    }
    lemma_entity_of_unique_node(loaded, i as u64, j);
}

proof fn lemma_id_links_prefix(
    entries: Seq<SaveEntry>,
    items: Seq<u64>,
    loaded: Seq<LoadedNode>,
    n: nat,
)
    requires
        well_numbered(entries, items),
        loaded_as_saved(entries, items, loaded),
        n <= entries.len(),
    ensures
        id_links(loaded, loaded.take(n as int)) == saved_hierarchy(entries, items, loaded, n),
    decreases n,
{
    if n > 0 {
        let k = n - 1;
        lemma_id_links_prefix(entries, items, loaded, (n - 1) as nat);
        assert(loaded.take(n as int).drop_last() == loaded.take(k));
        assert(loaded.take(n as int).last() == loaded[k]);
        assert(loaded[k].parent_node_id == saved_ids(items, entries[k], k).parent_node_id);
        match entries[k].parent {
            Some(p) => {
                if items.contains(p) {
                    lemma_parent_link(entries, items, loaded, k, p);
                } else {
                    if first_index(items, p) is Some {
                        let i = first_index(items, p).unwrap();
                        assert(items[i] == p);
                    }
                }
            },
            None => {},
        }
    }
}

proof fn lemma_no_name_links(version: u32, all: Seq<LoadedNode>, scripts: Seq<LoadedNode>)
    requires
        version >= 6,
    ensures
        name_links(version, all, scripts) == Seq::<ParentLink>::empty(),
    decreases scripts.len(),
{
    if scripts.len() > 0 {
        lemma_no_name_links(version, all, scripts.drop_last());
    }
}

proof fn lemma_no_open_name_links(version: u32, bricks: Seq<LoadedNode>, scripts: Seq<LoadedNode>)
    requires
        version >= 6,
    ensures
        open_name_links(version, bricks, scripts) == Seq::<ParentLink>::empty(),
    decreases scripts.len(),
{
    if scripts.len() > 0 {
        lemma_no_open_name_links(version, bricks, scripts.drop_last());
    }
}

/// Saving a project and loading it again rebuilds its hierarchy. When the
/// saved bricks and scripts are numbered by a list that holds each of them
/// once, and the nodes read back carry the ids they were saved with, both
/// the server's loader and the studio link each node under the node loaded
/// for its saved parent, in save order, and make no other link.
pub proof fn lemma_save_then_load_restores_hierarchy(
    version: u32,
    saved_bricks: Seq<SaveEntry>,
    saved_scripts: Seq<SaveEntry>,
    items: Seq<u64>,
    bricks: Seq<LoadedNode>,
    scripts: Seq<LoadedNode>,
)
    requires
        version >= 6,
        well_numbered(saved_bricks + saved_scripts, items),
        loaded_as_saved(saved_bricks + saved_scripts, items, bricks + scripts),
    ensures
        map_links(version, bricks, scripts) == saved_hierarchy(
            saved_bricks + saved_scripts,
            items,
            bricks + scripts,
            (saved_bricks.len() + saved_scripts.len()) as nat,
        ),
        open_links(version, bricks, scripts) == saved_hierarchy(
            saved_bricks + saved_scripts,
            items,
            bricks + scripts,
            (saved_bricks.len() + saved_scripts.len()) as nat,
        ),
{
    let entries = saved_bricks + saved_scripts;
    let loaded = bricks + scripts;
    lemma_id_links_prefix(entries, items, loaded, entries.len());
    assert(loaded.take(entries.len() as int) == loaded);
    lemma_no_name_links(version, loaded, scripts);
    lemma_no_open_name_links(version, bricks, scripts);
    assert(id_links(loaded, loaded) + Seq::<ParentLink>::empty() == id_links(loaded, loaded));
    assert(Seq::<ParentLink>::empty() + id_links(loaded, loaded) == id_links(loaded, loaded));
}

} // verus!
