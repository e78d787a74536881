//! Deleting the selection in the studio, and spawning copies of subtrees,
//! so that either can be undone.
use crate::editor::{DocumentState, EditorAction};
use crate::explorer::find_node;
use crate::scene::{entity_index, lemma_entity_index_bounds, SceneNode};
use crate::scene_ops::{root_entities, selected_root_entities};
use crate::selection::Selection;
use crate::snapshot::{capture_editor_snapshot, snapshot_of, ItemSnapshot, SnapshotEntry};
use crate::undo::{tree_roots, undo_done, Trees, UndoCommand, UndoEffect, UndoRedoHistory};
use vstd::prelude::*;

verus! {

broadcast use lemma_entity_index_bounds;

/// The entity `e` hangs under.
pub open spec fn parent_of(nodes: Seq<SceneNode>, e: u64) -> Option<u64> {
    match entity_index(nodes, e) {
        Some(i) => nodes[i].parent,
        None => None,
    }
}

/// `t` holds, in order, the subtrees of those `roots` whose snapshot can be
/// taken: each with its root, the root's parent, and the snapshot.
pub open spec fn captured_trees<D>(
    t: Trees<D>,
    nodes: Seq<SceneNode>,
    items: Seq<(u64, ItemSnapshot<D>)>,
    roots: Seq<u64>,
) -> bool
    decreases roots.len(),
{
    if roots.len() == 0 {
        t is Empty
    } else {
        match snapshot_of(nodes, items, roots[0], nodes.len() as nat) {
            Some(s) => match t {
                Trees::Tree { root, parent, snapshot, rest } => root == roots[0] && parent == parent_of(
                    nodes,
                    roots[0],
                ) && snapshot@ == s && captured_trees(*rest, nodes, items, roots.drop_first()),
                Trees::Empty => false,
            },
            None => captured_trees(t, nodes, items, roots.drop_first()),
        }
    }
}

/// The subtrees of `roots` that can be captured, as an undo record.
pub fn capture_trees<D: Copy>(
    roots: &Vec<u64>,
    nodes: &Vec<SceneNode>,
    items: &Vec<(u64, ItemSnapshot<D>)>,
) -> (r: Trees<D>)
    ensures
        captured_trees(r, nodes@, items@, roots@),
{
    let mut t: Trees<D> = Trees::Empty;
    let mut i: usize = roots.len();
    assert(roots@.skip(i as int).len() == 0);
    while i > 0
        invariant
            i <= roots.len(),
            captured_trees(t, nodes@, items@, roots@.skip(i as int)),
        decreases i,
    {
        i = i - 1;
        let ghost rest_roots = roots@.skip(i as int);
        assert(rest_roots[0] == roots@[i as int]);
        assert(rest_roots.drop_first() =~= roots@.skip(i + 1));
        let root = roots[i];
        match capture_editor_snapshot(root, nodes, items) {
            Some(snapshot) => {
                let parent = match find_node(nodes, root) {
                    Some(k) => nodes[k].parent,
                    None => None,
                };
                t = Trees::Tree { root, parent, snapshot, rest: Box::new(t) };
            },
            None => {},
        }
    }
    assert(roots@.skip(0) =~= roots@);
    t
}

/// The Delete action on the selection. Returns the entities to despawn with
/// their subtrees: the selected entities that no other selected one
/// contains. The subtrees that could be captured are recorded as one
/// undoable delete (and nothing can be redone any more); without any, the
/// history stays. The selection is cleared and the document is changed.
pub fn delete_selection<T: Copy, D: Copy>(
    history: &mut UndoRedoHistory<T, D>,
    selection: &mut Selection,
    document: &mut DocumentState,
    nodes: &Vec<SceneNode>,
    items: &Vec<(u64, ItemSnapshot<D>)>,
) -> (r: Vec<u64>)
    ensures
        r@ == root_entities(old(selection).entities@, nodes@),
        (exists|t: Trees<D>|
            #[trigger] captured_trees(t, nodes@, items@, r@) && ((t is Empty && *final(history)
                == *old(history)) || (!(t is Empty) && final(history).undo_stack@ == old(
                history,
            ).undo_stack@.push(UndoCommand::DeleteTrees { trees: t }) && final(history).redo_stack@.len()
                == 0))),
        final(selection).entity is None,
        final(selection).entities@.len() == 0,
        final(selection).workspace_selected == old(selection).workspace_selected,
        final(selection).players_selected == old(selection).players_selected,
        final(selection).lighting_selected == old(selection).lighting_selected,
        final(document).dirty,
        final(document).pending == old(document).pending,
        final(document).error == old(document).error,
{
    let roots = selected_root_entities(&selection.entities, nodes);
    let trees = capture_trees(&roots, nodes, items);
    let ghost t = trees;
    let empty = match &trees {
        Trees::Empty => true,
        Trees::Tree { .. } => false,
    };
    if !empty {
        history.push_command(UndoCommand::DeleteTrees { trees });
    }
    assert(captured_trees(t, nodes@, items@, roots@));
    selection.clear_entities();
    document.apply_action(EditorAction::Delete, false, false);
    roots
}

/// The subtrees `spawned` lists (root, parent, snapshot), in order, as an
/// undo record.
pub open spec fn trees_of<D>(spawned: Seq<(u64, Option<u64>, Vec<SnapshotEntry<D>>)>) -> Trees<D>
    decreases spawned.len(),
{
    if spawned.len() == 0 {
        Trees::Empty
    } else {
        Trees::Tree {
            root: spawned[0].0,
            parent: spawned[0].1,
            snapshot: spawned[0].2,
            rest: Box::new(trees_of(spawned.drop_first())),
        }
    }
}

proof fn lemma_trees_of_roots<D>(spawned: Seq<(u64, Option<u64>, Vec<SnapshotEntry<D>>)>)
    ensures
        tree_roots(trees_of(spawned)) == spawned.map_values(
            |x: (u64, Option<u64>, Vec<SnapshotEntry<D>>)| x.0,
        ),
    decreases spawned.len(),
{
    if spawned.len() > 0 {
        lemma_trees_of_roots(spawned.drop_first());
        assert(seq![spawned[0].0] + spawned.drop_first().map_values(
            |x: (u64, Option<u64>, Vec<SnapshotEntry<D>>)| x.0,
        ) =~= spawned.map_values(|x: (u64, Option<u64>, Vec<SnapshotEntry<D>>)| x.0));
    }
}

/// After a Duplicate or a Paste: the subtrees spawned, each given as its
/// new root, the parent it went under and the snapshot it was spawned from.
/// When any were spawned, they are recorded as one undoable spawn (and
/// nothing can be redone any more), their roots become the selection, the
/// first one primary, and the document is changed; when none were, nothing
/// changes. Returns the roots.
pub fn record_spawned_trees<T: Copy, D>(
    history: &mut UndoRedoHistory<T, D>,
    selection: &mut Selection,
    document: &mut DocumentState,
    spawned: Vec<(u64, Option<u64>, Vec<SnapshotEntry<D>>)>,
) -> (r: Vec<u64>)
    ensures
        r@ == spawned@.map_values(|x: (u64, Option<u64>, Vec<SnapshotEntry<D>>)| x.0),
        tree_roots(trees_of(spawned@)) == r@,
        spawned@.len() == 0 ==> *final(history) == *old(history) && *final(selection) == *old(selection)
            && *final(document) == *old(document),
        spawned@.len() > 0 ==> {
            &&& final(history).undo_stack@ == old(history).undo_stack@.push(
                UndoCommand::SpawnTrees { trees: trees_of(spawned@) },
            )
            &&& final(history).redo_stack@.len() == 0
            &&& final(selection).entity == Some(r@[0])
            &&& final(selection).entities@ == r@
            &&& final(selection).workspace_selected == old(selection).workspace_selected
            &&& final(selection).players_selected == old(selection).players_selected
            &&& final(selection).lighting_selected == old(selection).lighting_selected
            &&& final(document).dirty
            &&& final(document).pending == old(document).pending
            &&& final(document).error == old(document).error
        },
{
    let ghost orig = spawned@;
    let mut spawned = spawned;
    let mut roots: Vec<u64> = Vec::new();
    let mut k: usize = 0;
    while k < spawned.len()
        invariant
            spawned@ == orig,
            k <= spawned.len(),
            roots@ == orig.take(k as int).map_values(|x: (u64, Option<u64>, Vec<SnapshotEntry<D>>)| x.0),
        decreases spawned.len() - k,
    {
        roots.push(spawned[k].0);
        k = k + 1;
        assert(roots@ =~= orig.take(k as int).map_values(
            |x: (u64, Option<u64>, Vec<SnapshotEntry<D>>)| x.0,
        ));
    }
    assert(orig.take(orig.len() as int) == orig);
    proof {
        lemma_trees_of_roots(orig);
    }
    if roots.len() == 0 {
        return roots;
    }
    let mut t: Trees<D> = Trees::Empty;
    assert(orig.skip(orig.len() as int) =~= Seq::<(u64, Option<u64>, Vec<SnapshotEntry<D>>)>::empty());
    while spawned.len() > 0
        invariant
            spawned@.len() <= orig.len(),
            spawned@ == orig.take(spawned@.len() as int),
            t == trees_of(orig.skip(spawned@.len() as int)),
        decreases spawned.len(),
    {
        let ghost n = spawned@.len();
        let (root, parent, snapshot) = spawned.pop().unwrap();
        assert(orig.skip(n - 1)[0] == orig[n - 1]);
        assert(orig.skip(n - 1).drop_first() =~= orig.skip(n as int));
        assert(spawned@ =~= orig.take(n - 1));
        t = Trees::Tree { root, parent, snapshot, rest: Box::new(t) };
    }
    assert(orig.skip(0) =~= orig);
    history.push_command(UndoCommand::SpawnTrees { trees: t });
    let copy = roots.clone();
    selection.select_all(copy);
    document.dirty = true;
    roots
}


/// Undoing a recorded Duplicate or Paste despawns exactly the roots that it
/// spawned, in order.
pub proof fn lemma_undo_despawns_the_spawned<T, D>(
    spawned: Seq<(u64, Option<u64>, Vec<SnapshotEntry<D>>)>,
    r: UndoEffect<T, D>,
)
    requires
        undo_done(UndoCommand::<T, D>::SpawnTrees { trees: trees_of(spawned) }, r),
    ensures
        r matches UndoEffect::DespawnTrees { roots } && roots@ == spawned.map_values(
            |x: (u64, Option<u64>, Vec<SnapshotEntry<D>>)| x.0,
        ),
{
    lemma_trees_of_roots(spawned);
}

} // verus!
