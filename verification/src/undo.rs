//! The editor's undo and redo history.
use crate::contacts::contains_entity;
use crate::selection::{first_index, lemma_first_index, primary_selected, Selection};
use crate::snapshot::SnapshotEntry;
use vstd::prelude::*;

verus! {

/// A brick as it was captured for undo: the entity it hangs under, and the
/// rest of its data, which names no entity.
pub struct BrickRecord<D> {
    pub parent: Option<u64>,
    pub data: D,
}

/// Subtrees of the scene kept for undo, one after another: each with the
/// entity of its root, the entity the root hangs under, and its snapshot.
pub enum Trees<D> {
    Empty,
    Tree { root: u64, parent: Option<u64>, snapshot: Vec<SnapshotEntry<D>>, rest: Box<Trees<D>> },
}

/// One undoable edit. `T` is a transform.
pub enum UndoCommand<T, D> {
    TransformChange { entity: u64, old_transform: T, new_transform: T },
    Spawn { entity: u64, data: BrickRecord<D> },
    Delete { entity: u64, data: BrickRecord<D> },
    ParentChange {
        entity: u64,
        old_parent: Option<u64>,
        new_parent: Option<u64>,
        old_transform: T,
        new_transform: T,
    },
    /// Subtrees were deleted together.
    DeleteTrees { trees: Trees<D> },
    /// Subtrees were spawned together (pasted or duplicated).
    SpawnTrees { trees: Trees<D> },
}

/// Undo or redo, as the keyboard asks for it.
#[derive(Clone, Copy, Debug, PartialEq, Eq, Structural)]
pub enum UndoRedoAction {
    Undo,
    Redo,
}

/// `x`, with `from` replaced by `to`.
pub open spec fn remap_id(x: u64, from: u64, to: u64) -> u64 {
    if x == from {
        to
    } else {
        x
    }
}

/// `x`, with `from` replaced by `to`.
pub open spec fn remap_opt(x: Option<u64>, from: u64, to: u64) -> Option<u64> {
    match x {
        Some(p) => Some(remap_id(p, from, to)),
        None => None,
    }
}

/// The brick record with its parent remapped.
pub open spec fn remap_record<D>(r: BrickRecord<D>, from: u64, to: u64) -> BrickRecord<D> {
    BrickRecord { parent: remap_opt(r.parent, from, to), data: r.data }
}

/// The roots of the subtrees, in order.
pub open spec fn tree_roots<D>(t: Trees<D>) -> Seq<u64>
    decreases t,
{
    match t {
        Trees::Empty => Seq::empty(),
        Trees::Tree { root, rest, .. } => seq![root] + tree_roots(*rest),
    }
}

/// The subtrees with their roots and parents remapped.
pub open spec fn remap_trees<D>(t: Trees<D>, from: u64, to: u64) -> Trees<D>
    decreases t,
{
    match t {
        Trees::Empty => Trees::Empty,
        Trees::Tree { root, parent, snapshot, rest } => Trees::Tree {
            root: remap_id(root, from, to),
            parent: remap_opt(parent, from, to),
            snapshot,
            rest: Box::new(remap_trees(*rest, from, to)),
        },
    }
}

/// The command with every entity it names remapped from `from` to `to`.
pub open spec fn remap_command<T, D>(c: UndoCommand<T, D>, from: u64, to: u64) -> UndoCommand<
    T,
    D,
> {
    match c {
        UndoCommand::TransformChange { entity, old_transform, new_transform } =>
            UndoCommand::TransformChange {
            entity: remap_id(entity, from, to),
            old_transform,
            new_transform,
        },
        UndoCommand::Spawn { entity, data } => UndoCommand::Spawn {
            entity: remap_id(entity, from, to),
            data: remap_record(data, from, to),
        },
        UndoCommand::Delete { entity, data } => UndoCommand::Delete {
            entity: remap_id(entity, from, to),
            data: remap_record(data, from, to),
        },
        UndoCommand::ParentChange {
            entity,
            old_parent,
            new_parent,
            old_transform,
            new_transform,
        } => UndoCommand::ParentChange {
            entity: remap_id(entity, from, to),
            old_parent: remap_opt(old_parent, from, to),
            new_parent: remap_opt(new_parent, from, to),
            old_transform,
            new_transform,
        },
        UndoCommand::DeleteTrees { trees } => UndoCommand::DeleteTrees {
            trees: remap_trees(trees, from, to),
        },
        UndoCommand::SpawnTrees { trees } => UndoCommand::SpawnTrees {
            trees: remap_trees(trees, from, to),
        },
    }
}

/// Every command of the stack remapped.
pub open spec fn remap_stack<T, D>(s: Seq<UndoCommand<T, D>>, from: u64, to: u64) -> Seq<
    UndoCommand<T, D>,
> {
    s.map_values(|c: UndoCommand<T, D>| remap_command(c, from, to))
}

impl<D> BrickRecord<D> {
    /// Replaces the parent `from` by `to`.
    pub fn remap(self, from: u64, to: u64) -> (r: Self)
        ensures
            r == remap_record(self, from, to),
    {
        let parent = match self.parent {
            Some(p) => if p == from {
                Some(to)
            } else {
                Some(p)
            },
            None => None,
        };
        BrickRecord { parent, data: self.data }
    }
}

impl<D> Trees<D> {
    /// Replaces the entity `from` by `to` among the roots and their parents.
    pub fn remap(self, from: u64, to: u64) -> (r: Self)
        ensures
            r == remap_trees(self, from, to),
        decreases self,
    {
        match self {
            Trees::Empty => Trees::Empty,
            Trees::Tree { root, parent, snapshot, rest } => {
                let parent = match parent {
                    Some(p) => if p == from {
                        Some(to)
                    } else {
                        Some(p)
                    },
                    None => None,
                };
                let rest = (*rest).remap(from, to);
                Trees::Tree {
                    root: if root == from {
                        to
                    } else {
                        root
                    },
                    parent,
                    snapshot,
                    rest: Box::new(rest),
                }
            },
        }
    }

    /// Appends the roots of the subtrees to `out`.
    fn push_roots(&self, out: &mut Vec<u64>)
        ensures
            final(out)@ == old(out)@ + tree_roots(*self),
        decreases self,
    {
        match self {
            Trees::Empty => {
                assert(old(out)@ + Seq::<u64>::empty() == old(out)@);
            },
            Trees::Tree { root, rest, .. } => {
                out.push(*root);
                rest.push_roots(out);
                assert(old(out)@.push(*root) + tree_roots(**rest) == old(out)@ + (seq![*root]
                    + tree_roots(**rest)));
            },
        }
    }

    /// The roots of the subtrees, in order.
    pub fn roots(&self) -> (r: Vec<u64>)
        ensures
            r@ == tree_roots(*self),
    {
        let mut out: Vec<u64> = Vec::new();
        self.push_roots(&mut out);
        assert(Seq::<u64>::empty() + tree_roots(*self) == tree_roots(*self));
        out
    }
}

impl<T, D> UndoCommand<T, D> {
    /// Replaces the entity `from` by `to` wherever the command names it.
    pub fn remap(self, from: u64, to: u64) -> (r: Self)
        ensures
            r == remap_command(self, from, to),
    {
        let swap = |x: u64| -> (y: u64)
            ensures
                y == remap_id(x, from, to),
            {
                if x == from {
                    to
                } else {
                    x
                }
            };
        match self {
            UndoCommand::TransformChange { entity, old_transform, new_transform } =>
                UndoCommand::TransformChange {
                entity: swap(entity),
                old_transform,
                new_transform,
            },
            UndoCommand::Spawn { entity, data } => UndoCommand::Spawn {
                entity: swap(entity),
                data: data.remap(from, to),
            },
            UndoCommand::Delete { entity, data } => UndoCommand::Delete {
                entity: swap(entity),
                data: data.remap(from, to),
            },
            UndoCommand::ParentChange {
                entity,
                old_parent,
                new_parent,
                old_transform,
                new_transform,
            } => {
                let op = match old_parent {
                    Some(p) => Some(swap(p)),
                    None => None,
                };
                let np = match new_parent {
                    Some(p) => Some(swap(p)),
                    None => None,
                };
                UndoCommand::ParentChange {
                    entity: swap(entity),
                    old_parent: op,
                    new_parent: np,
                    old_transform,
                    new_transform,
                }
            },
            UndoCommand::DeleteTrees { trees } => UndoCommand::DeleteTrees { trees: trees.remap(from, to) },
            UndoCommand::SpawnTrees { trees } => UndoCommand::SpawnTrees { trees: trees.remap(from, to) },
        }
    }
}

/// Remaps every command of `stack`, keeping the order.
fn remap_in_place<T, D>(stack: &mut Vec<UndoCommand<T, D>>, from: u64, to: u64)
    ensures
        final(stack)@ == remap_stack(old(stack)@, from, to),
{
    let ghost orig = stack@;
    let mut reversed: Vec<UndoCommand<T, D>> = Vec::new();
    while stack.len() > 0
        invariant
            stack@.len() + reversed@.len() == orig.len(),
            stack@ == orig.take(stack@.len() as int),
            forall|k: int|
                0 <= k < reversed@.len() ==> #[trigger] reversed@[k] == orig[orig.len() - 1 - k],
        decreases stack.len(),
    {
        let c = stack.pop().unwrap();
        reversed.push(c);
        assert(stack@ == orig.take(stack@.len() as int));
    }
    while reversed.len() > 0
        invariant
            stack@.len() + reversed@.len() == orig.len(),
            stack@ == remap_stack(orig.take(stack@.len() as int), from, to),
            forall|k: int|
                0 <= k < reversed@.len() ==> #[trigger] reversed@[k] == orig[orig.len() - 1 - k],
        decreases reversed.len(),
    {
        let c = reversed.pop().unwrap();
        let ghost n: int = stack@.len() as int;
        assert(c == orig[n]);
        stack.push(c.remap(from, to));
        assert(orig.take(n + 1).drop_last() == orig.take(n));
        assert(stack@ == remap_stack(orig.take(stack@.len() as int), from, to));
    }
    assert(orig.take(orig.len() as int) == orig);
}

/// What the engine must do to carry out one undo or redo step.
pub enum UndoEffect<T, D> {
    /// There was nothing to undo or redo.
    Nothing,
    /// Give `entity` this transform.
    SetTransform { entity: u64, transform: T },
    /// Remove `entity` from the scene.
    Despawn { entity: u64 },
    /// Give `entity` this transform and move it under `parent` (or to the root).
    Reparent { entity: u64, transform: T, parent: Option<u64> },
    /// Spawn a brick again from `data` in place of `entity`, then report the
    /// new entity with `respawned`.
    Respawn { entity: u64, data: BrickRecord<D>, undoing: bool },
    /// Remove the subtrees under these root entities from the scene.
    DespawnTrees { roots: Vec<u64> },
    /// Spawn the subtrees again in place of their roots, then report the new
    /// root entities with `respawned_trees`.
    RespawnTrees { trees: Trees<D>, undoing: bool },
}

/// The undo stack and the redo stack.
pub struct UndoRedoHistory<T, D> {
    pub undo_stack: Vec<UndoCommand<T, D>>,
    pub redo_stack: Vec<UndoCommand<T, D>>,
}

/// How the stacks stand after one undo, before any respawned entity is reported.
pub open spec fn stacks_after_undo<T, D>(
    undo: Seq<UndoCommand<T, D>>,
    redo: Seq<UndoCommand<T, D>>,
) -> (Seq<UndoCommand<T, D>>, Seq<UndoCommand<T, D>>) {
    if undo.len() == 0 {
        (undo, redo)
    } else {
        match undo.last() {
            UndoCommand::Delete { .. } | UndoCommand::DeleteTrees { .. } => (undo.drop_last(), redo),
            _ => (undo.drop_last(), redo.push(undo.last())),
        }
    }
}

/// How the stacks stand after one redo, before any respawned entity is reported.
pub open spec fn stacks_after_redo<T, D>(
    undo: Seq<UndoCommand<T, D>>,
    redo: Seq<UndoCommand<T, D>>,
) -> (Seq<UndoCommand<T, D>>, Seq<UndoCommand<T, D>>) {
    if redo.len() == 0 {
        (undo, redo)
    } else {
        match redo.last() {
            UndoCommand::Spawn { .. } | UndoCommand::SpawnTrees { .. } => (undo, redo.drop_last()),
            _ => (undo.push(redo.last()), redo.drop_last()),
        }
    }
}

/// How the stacks stand once a respawned entity has been reported.
pub open spec fn stacks_after_respawn<T, D>(
    undo: Seq<UndoCommand<T, D>>,
    redo: Seq<UndoCommand<T, D>>,
    from: u64,
    to: u64,
    data: BrickRecord<D>,
    undoing: bool,
) -> (Seq<UndoCommand<T, D>>, Seq<UndoCommand<T, D>>) {
    if undoing {
        (
            remap_stack(undo, from, to),
            remap_stack(redo, from, to).push(UndoCommand::Delete { entity: to, data }),
        )
    } else {
        (
            remap_stack(undo, from, to).push(UndoCommand::Spawn { entity: to, data }),
            remap_stack(redo, from, to),
        )
    }
}

/// The number of `from`/`to` pairs reported.
pub open spec fn pair_count(from: Seq<u64>, to: Seq<u64>) -> nat {
    if from.len() < to.len() {
        from.len()
    } else {
        to.len()
    }
}

/// The stack with the first `n` pairs `from[i]` → `to[i]` applied in turn.
pub open spec fn remap_stack_all<T, D>(s: Seq<UndoCommand<T, D>>, from: Seq<u64>, to: Seq<u64>, n: nat) -> Seq<
    UndoCommand<T, D>,
>
    decreases n,
{
    if n == 0 {
        s
    } else {
        remap_stack(remap_stack_all(s, from, to, (n - 1) as nat), from[n - 1], to[n - 1])
    }
}

/// The subtrees with the first `n` pairs `from[i]` → `to[i]` applied in turn.
pub open spec fn remap_trees_all<D>(t: Trees<D>, from: Seq<u64>, to: Seq<u64>, n: nat) -> Trees<D>
    decreases n,
{
    if n == 0 {
        t
    } else {
        remap_trees(remap_trees_all(t, from, to, (n - 1) as nat), from[n - 1], to[n - 1])
    }
}

/// How the stacks stand once respawned subtrees have been reported: the
/// pairs are applied to every command and to the subtrees, whose command
/// goes onto the redo stack (when undoing a delete) or the undo stack (when
/// redoing a spawn).
pub open spec fn stacks_after_trees_respawn<T, D>(
    undo: Seq<UndoCommand<T, D>>,
    redo: Seq<UndoCommand<T, D>>,
    from: Seq<u64>,
    to: Seq<u64>,
    trees: Trees<D>,
    undoing: bool,
) -> (Seq<UndoCommand<T, D>>, Seq<UndoCommand<T, D>>) {
    let n = pair_count(from, to);
    let t = remap_trees_all(trees, from, to, n);
    if undoing {
        (
            remap_stack_all(undo, from, to, n),
            remap_stack_all(redo, from, to, n).push(UndoCommand::DeleteTrees { trees: t }),
        )
    } else {
        (
            remap_stack_all(undo, from, to, n).push(UndoCommand::SpawnTrees { trees: t }),
            remap_stack_all(redo, from, to, n),
        )
    }
}

/// `r` is the effect of undoing `c`.
pub open spec fn undo_done<T, D>(c: UndoCommand<T, D>, r: UndoEffect<T, D>) -> bool {
    match c {
        UndoCommand::TransformChange { entity, old_transform, .. } => r == (UndoEffect::<T, D>::SetTransform {
            entity,
            transform: old_transform,
        }),
        UndoCommand::Spawn { entity, .. } => r == (UndoEffect::<T, D>::Despawn { entity }),
        UndoCommand::Delete { entity, data } => r == (UndoEffect::<T, D>::Respawn {
            entity,
            data,
            undoing: true,
        }),
        UndoCommand::ParentChange { entity, old_parent, old_transform, .. } => r == (UndoEffect::<
            T,
            D,
        >::Reparent { entity, transform: old_transform, parent: old_parent }),
        UndoCommand::DeleteTrees { trees } => r == (UndoEffect::<T, D>::RespawnTrees {
            trees,
            undoing: true,
        }),
        UndoCommand::SpawnTrees { trees } => r matches UndoEffect::DespawnTrees { roots } && roots@
            == tree_roots(trees),
    }
}

/// `r` is the effect of redoing `c`.
pub open spec fn redo_done<T, D>(c: UndoCommand<T, D>, r: UndoEffect<T, D>) -> bool {
    match c {
        UndoCommand::TransformChange { entity, new_transform, .. } => r == (UndoEffect::<T, D>::SetTransform {
            entity,
            transform: new_transform,
        }),
        UndoCommand::Spawn { entity, data } => r == (UndoEffect::<T, D>::Respawn {
            entity,
            data,
            undoing: false,
        }),
        UndoCommand::Delete { entity, .. } => r == (UndoEffect::<T, D>::Despawn { entity }),
        UndoCommand::ParentChange { entity, new_parent, new_transform, .. } => r == (UndoEffect::<
            T,
            D,
        >::Reparent { entity, transform: new_transform, parent: new_parent }),
        UndoCommand::DeleteTrees { trees } => r matches UndoEffect::DespawnTrees { roots } && roots@
            == tree_roots(trees),
        UndoCommand::SpawnTrees { trees } => r == (UndoEffect::<T, D>::RespawnTrees {
            trees,
            undoing: false,
        }),
    }
}

/// How the selection changes when the subtrees under `roots` leave the
/// scene: it is cleared when its primary entity is one of the roots.
pub open spec fn selection_without_any(before: Selection, after: Selection, roots: Seq<u64>) -> bool {
    if before.entity matches Some(e) && roots.contains(e) {
        &&& after.entity is None
        &&& after.entities@.len() == 0
        &&& after.workspace_selected == before.workspace_selected
        &&& after.players_selected == before.players_selected
        &&& after.lighting_selected == before.lighting_selected
    } else {
        after == before
    }
}

/// How the selection changes when `entity` disappears from the scene.
pub open spec fn selection_without(before: Selection, after: Selection, entity: u64) -> bool {
    if before.entity == Some(entity) {
        &&& after.entity is None
        &&& after.entities@.len() == 0
        &&& after.workspace_selected == before.workspace_selected
        &&& after.players_selected == before.players_selected
        &&& after.lighting_selected == before.lighting_selected
    } else {
        after == before
    }
}

impl<T: Copy, D> UndoRedoHistory<T, D> {
    /// An empty history.
    pub fn new() -> (r: Self)
        ensures
            r.undo_stack@.len() == 0,
            r.redo_stack@.len() == 0,
    {
        UndoRedoHistory { undo_stack: Vec::new(), redo_stack: Vec::new() }
    }

    /// Records a new edit: it can be undone, and nothing can be redone any more.
    pub fn push_command(&mut self, command: UndoCommand<T, D>)
        ensures
            final(self).undo_stack@ == old(self).undo_stack@.push(command),
            final(self).redo_stack@.len() == 0,
    {
        self.undo_stack.push(command);
        self.redo_stack.clear();
    }

    /// Records a transform edit, unless the transform did not change.
    pub fn push_transform_change(&mut self, entity: u64, start: T, end: T, changed: bool)
        ensures
            changed ==> final(self).undo_stack@ == old(self).undo_stack@.push(
                UndoCommand::TransformChange { entity, old_transform: start, new_transform: end },
            ) && final(self).redo_stack@.len() == 0,
            !changed ==> *final(self) == *old(self),
    {
        if changed {
            self.push_command(
                UndoCommand::TransformChange { entity, old_transform: start, new_transform: end },
            );
        }
    }

    /// Replaces the entity `from` by `to` in every command of both stacks.
    pub fn remap_entity(&mut self, from: u64, to: u64)
        ensures
            final(self).undo_stack@ == remap_stack(old(self).undo_stack@, from, to),
            final(self).redo_stack@ == remap_stack(old(self).redo_stack@, from, to),
    {
        remap_in_place(&mut self.undo_stack, from, to);
        remap_in_place(&mut self.redo_stack, from, to);
    }

    /// Clears the selection when its primary entity is one of `roots`.
    fn clear_selection_of(&self, roots: &Vec<u64>, selection: &mut Selection)
        ensures
            selection_without_any(*old(selection), *final(selection), roots@),
            primary_selected(*old(selection)) ==> primary_selected(*final(selection)),
    {
        if let Some(e) = selection.entity {
            if contains_entity(roots, e) {
                selection.clear_entities();
            }
        }
    }

    /// Undoes the latest edit. A transform or parent edit is reverted; an
    /// undone spawn removes the entity (and clears the selection if it was
    /// the primary one); an undone delete asks for the brick to be spawned
    /// again and waits for `respawned`. Every step but the last moves the
    /// command onto the redo stack.
    pub fn undo(&mut self, selection: &mut Selection) -> (r: UndoEffect<T, D>)
        ensures
            primary_selected(*old(selection)) ==> primary_selected(*final(selection)),
            (final(self).undo_stack@, final(self).redo_stack@) == stacks_after_undo(
                old(self).undo_stack@,
                old(self).redo_stack@,
            ),
            old(self).undo_stack@.len() == 0 ==> r is Nothing && *final(selection) == *old(
                selection,
            ),
            old(self).undo_stack@.len() > 0 ==> undo_done(old(self).undo_stack@.last(), r),
            r matches UndoEffect::Despawn { entity } ==> selection_without(
                *old(selection),
                *final(selection),
                entity,
            ),
            r matches UndoEffect::DespawnTrees { roots } ==> selection_without_any(
                *old(selection),
                *final(selection),
                roots@,
            ),
            !(r is Despawn) && !(r is DespawnTrees) ==> *final(selection) == *old(selection),
    {
        match self.undo_stack.pop() {
            None => UndoEffect::Nothing,
            Some(command) => match command {
                UndoCommand::TransformChange { entity, old_transform, new_transform } => {
                    self.redo_stack.push(
                        UndoCommand::TransformChange { entity, old_transform, new_transform },
                    );
                    UndoEffect::SetTransform { entity, transform: old_transform }
                },
                UndoCommand::Spawn { entity, data } => {
                    if selection.entity == Some(entity) {
                        selection.clear_entities();
                    }
                    self.redo_stack.push(UndoCommand::Spawn { entity, data });
                    UndoEffect::Despawn { entity }
                },
                UndoCommand::Delete { entity, data } => UndoEffect::Respawn {
                    entity,
                    data,
                    undoing: true,
                },
                UndoCommand::DeleteTrees { trees } => UndoEffect::RespawnTrees { trees, undoing: true },
                UndoCommand::SpawnTrees { trees } => {
                    let roots = trees.roots();
                    self.clear_selection_of(&roots, selection);
                    self.redo_stack.push(UndoCommand::SpawnTrees { trees });
                    UndoEffect::DespawnTrees { roots }
                },
                UndoCommand::ParentChange {
                    entity,
                    old_parent,
                    new_parent,
                    old_transform,
                    new_transform,
                } => {
                    self.redo_stack.push(
                        UndoCommand::ParentChange {
                            entity,
                            old_parent,
                            new_parent,
                            old_transform,
                            new_transform,
                        },
                    );
                    UndoEffect::Reparent { entity, transform: old_transform, parent: old_parent }
                },
            },
        }
    }

    /// Redoes the latest undone edit; the mirror image of `undo`: a redone
    /// delete removes the entity, a redone spawn asks for the brick to be
    /// spawned again.
    pub fn redo(&mut self, selection: &mut Selection) -> (r: UndoEffect<T, D>)
        ensures
            primary_selected(*old(selection)) ==> primary_selected(*final(selection)),
            (final(self).undo_stack@, final(self).redo_stack@) == stacks_after_redo(
                old(self).undo_stack@,
                old(self).redo_stack@,
            ),
            old(self).redo_stack@.len() == 0 ==> r is Nothing && *final(selection) == *old(
                selection,
            ),
            old(self).redo_stack@.len() > 0 ==> redo_done(old(self).redo_stack@.last(), r),
            r matches UndoEffect::Despawn { entity } ==> selection_without(
                *old(selection),
                *final(selection),
                entity,
            ),
            r matches UndoEffect::DespawnTrees { roots } ==> selection_without_any(
                *old(selection),
                *final(selection),
                roots@,
            ),
            !(r is Despawn) && !(r is DespawnTrees) ==> *final(selection) == *old(selection),
    {
        match self.redo_stack.pop() {
            None => UndoEffect::Nothing,
            Some(command) => match command {
                UndoCommand::TransformChange { entity, old_transform, new_transform } => {
                    self.undo_stack.push(
                        UndoCommand::TransformChange { entity, old_transform, new_transform },
                    );
                    UndoEffect::SetTransform { entity, transform: new_transform }
                },
                UndoCommand::Spawn { entity, data } => UndoEffect::Respawn {
                    entity,
                    data,
                    undoing: false,
                },
                UndoCommand::SpawnTrees { trees } => UndoEffect::RespawnTrees { trees, undoing: false },
                UndoCommand::DeleteTrees { trees } => {
                    let roots = trees.roots();
                    self.clear_selection_of(&roots, selection);
                    self.undo_stack.push(UndoCommand::DeleteTrees { trees });
                    UndoEffect::DespawnTrees { roots }
                },
                UndoCommand::Delete { entity, data } => {
                    if selection.entity == Some(entity) {
                        selection.clear_entities();
                    }
                    self.undo_stack.push(UndoCommand::Delete { entity, data });
                    UndoEffect::Despawn { entity }
                },
                UndoCommand::ParentChange {
                    entity,
                    old_parent,
                    new_parent,
                    old_transform,
                    new_transform,
                } => {
                    self.undo_stack.push(
                        UndoCommand::ParentChange {
                            entity,
                            old_parent,
                            new_parent,
                            old_transform,
                            new_transform,
                        },
                    );
                    UndoEffect::Reparent { entity, transform: new_transform, parent: new_parent }
                },
            },
        }
    }

    /// Carries out one undo or redo request.
    pub fn handle_undo_redo_action(&mut self, action: UndoRedoAction, selection: &mut Selection) -> (r:
        UndoEffect<T, D>)
        ensures
            primary_selected(*old(selection)) ==> primary_selected(*final(selection)),
            action == UndoRedoAction::Undo ==> (final(self).undo_stack@, final(self).redo_stack@)
                == stacks_after_undo(old(self).undo_stack@, old(self).redo_stack@) && (old(
                self,
            ).undo_stack@.len() == 0 ==> r is Nothing && *final(selection) == *old(selection)) && (old(
                self,
            ).undo_stack@.len() > 0 ==> undo_done(old(self).undo_stack@.last(), r)),
            action == UndoRedoAction::Redo ==> (final(self).undo_stack@, final(self).redo_stack@)
                == stacks_after_redo(old(self).undo_stack@, old(self).redo_stack@) && (old(
                self,
            ).redo_stack@.len() == 0 ==> r is Nothing && *final(selection) == *old(selection)) && (old(
                self,
            ).redo_stack@.len() > 0 ==> redo_done(old(self).redo_stack@.last(), r)),
            r matches UndoEffect::Despawn { entity } ==> selection_without(
                *old(selection),
                *final(selection),
                entity,
            ),
            r matches UndoEffect::DespawnTrees { roots } ==> selection_without_any(
                *old(selection),
                *final(selection),
                roots@,
            ),
            !(r is Despawn) && !(r is DespawnTrees) ==> *final(selection) == *old(selection),
    {
        match action {
            UndoRedoAction::Undo => self.undo(selection),
            UndoRedoAction::Redo => self.redo(selection),
        }
    }

    /// Completes a `RespawnTrees` step: the root entities `from` are now
    /// `to` (pair by pair, as many pairs as both lists hold). Every command
    /// and the subtrees are remapped, a primary selection of one of the old
    /// roots moves to its new root alone, and the subtrees' command goes onto
    /// the redo stack (when undoing a delete) or the undo stack (when redoing
    /// a spawn).
    pub fn respawned_trees(
        &mut self,
        from: &Vec<u64>,
        to: &Vec<u64>,
        trees: Trees<D>,
        undoing: bool,
        selection: &mut Selection,
    )
        ensures
            primary_selected(*old(selection)) ==> primary_selected(*final(selection)),
            (final(self).undo_stack@, final(self).redo_stack@) == stacks_after_trees_respawn(
                old(self).undo_stack@,
                old(self).redo_stack@,
                from@,
                to@,
                trees,
                undoing,
            ),
            match old(selection).entity {
                Some(e) => match first_index(from@.take(pair_count(from@, to@) as int), e) {
                    Some(i) => final(selection).entity == Some(to@[i]) && final(selection).entities@
                        == seq![to@[i]] && final(selection).workspace_selected == old(
                        selection,
                    ).workspace_selected && final(selection).players_selected == old(
                        selection,
                    ).players_selected && final(selection).lighting_selected == old(
                        selection,
                    ).lighting_selected,
                    None => *final(selection) == *old(selection),
                },
                None => *final(selection) == *old(selection),
            },
    {
        let n: usize = if from.len() < to.len() {
            from.len()
        } else {
            to.len()
        };
        let ghost undo0 = self.undo_stack@;
        let ghost redo0 = self.redo_stack@;
        let ghost trees0 = trees;
        let mut trees = trees;
        let mut i: usize = 0;
        while i < n
            invariant
                i <= n,
                n == pair_count(from@, to@),
                n <= from.len() && n <= to.len(),
                self.undo_stack@ == remap_stack_all(undo0, from@, to@, i as nat),
                self.redo_stack@ == remap_stack_all(redo0, from@, to@, i as nat),
                trees == remap_trees_all(trees0, from@, to@, i as nat),
            decreases n - i,
        {
            self.remap_entity(from[i], to[i]);
            trees = trees.remap(from[i], to[i]);
            i = i + 1;
        }
        if let Some(e) = selection.entity {
            let ghost pre = from@.take(n as int);
            let mut k: usize = 0;
            let mut found: Option<usize> = None;
            while k < n
                invariant_except_break
                    found is None,
                invariant
                    k <= n,
                    n <= from.len() && n <= to.len(),
                    pre == from@.take(n as int),
                    forall|j: int| 0 <= j < k ==> pre[j] != e,
                ensures
                    found matches Some(f) ==> f < n && pre[f as int] == e && forall|j: int|
                        0 <= j < f ==> pre[j] != e,
                    found is None ==> forall|j: int| 0 <= j < n ==> pre[j] != e,
                decreases n - k,
            {
                if from[k] == e {
                    found = Some(k);
                    break;
                }
                k = k + 1;
            }
            proof {
                lemma_first_index(pre, e);
            }
            match found {
                Some(k) => {
                    assert(pre[k as int] == e);
                    proof {
                        if let Some(j) = first_index(pre, e) {
                            if j < k {
                                assert(pre[j] == e);
                            }
                        }
                    }
                    selection.select_only(to[k]);
                },
                None => {
                    proof {
                        if let Some(j) = first_index(pre, e) {
                            assert(pre[j] == e);
                        }
                    }
                },
            }
        }
        if undoing {
            self.redo_stack.push(UndoCommand::DeleteTrees { trees });
        } else {
            self.undo_stack.push(UndoCommand::SpawnTrees { trees });
        }
    }

    /// Completes a `Respawn` step: the brick that was `from` is now `to`.
    /// Every command is remapped, a primary selection of `from` moves to
    /// `to`, and the command goes, naming `to`, onto the redo stack (when
    /// undoing a delete) or the undo stack (when redoing a spawn).
    pub fn respawned(
        &mut self,
        from: u64,
        to: u64,
        data: BrickRecord<D>,
        undoing: bool,
        selection: &mut Selection,
    )
        ensures
            primary_selected(*old(selection)) ==> primary_selected(*final(selection)),
            (final(self).undo_stack@, final(self).redo_stack@) == stacks_after_respawn(
                old(self).undo_stack@,
                old(self).redo_stack@,
                from,
                to,
                data,
                undoing,
            ),
            old(selection).entity == Some(from) ==> final(selection).entity == Some(to)
                && final(selection).entities@ == seq![to]
                && final(selection).workspace_selected == old(selection).workspace_selected
                && final(selection).players_selected == old(selection).players_selected
                && final(selection).lighting_selected == old(selection).lighting_selected,
            old(selection).entity != Some(from) ==> *final(selection) == *old(selection),
    {
        self.remap_entity(from, to);
        if selection.entity == Some(from) {
            selection.select_only(to);
        }
        if undoing {
            self.redo_stack.push(UndoCommand::Delete { entity: to, data });
        } else {
            self.undo_stack.push(UndoCommand::Spawn { entity: to, data });
        }
    }
}

/// Undoing a transform or parent edit and redoing it brings both stacks
/// back to where they were; so does redoing such an edit and undoing it.
pub proof fn lemma_undo_redo_round_trip<T, D>(
    undo: Seq<UndoCommand<T, D>>,
    redo: Seq<UndoCommand<T, D>>,
)
    ensures
        undo.len() > 0 && (undo.last() is TransformChange || undo.last() is ParentChange) ==> {
            let (u, r) = stacks_after_undo(undo, redo);
            stacks_after_redo(u, r) == (undo, redo)
        },
        redo.len() > 0 && (redo.last() is TransformChange || redo.last() is ParentChange) ==> {
            let (u, r) = stacks_after_redo(undo, redo);
            stacks_after_undo(u, r) == (undo, redo)
        },
{
    if undo.len() > 0 {
        assert(undo.drop_last().push(undo.last()) == undo);
    }
    if redo.len() > 0 {
        assert(redo.drop_last().push(redo.last()) == redo);
    }
}

proof fn lemma_remap_push<T, D>(s: Seq<UndoCommand<T, D>>, from: u64, to: u64)
    requires
        s.len() > 0,
    ensures
        remap_stack(s.drop_last(), from, to).push(remap_command(s.last(), from, to))
            == remap_stack(s, from, to),
{
    assert(remap_stack(s.drop_last(), from, to).push(remap_command(s.last(), from, to))
        =~= remap_stack(s, from, to));
}

/// Undoing the delete of a brick, which comes back as `to`, and redoing it
/// leaves both stacks as they were, with `to` in place of the deleted entity.
pub proof fn lemma_delete_round_trip<T, D>(
    undo: Seq<UndoCommand<T, D>>,
    redo: Seq<UndoCommand<T, D>>,
    entity: u64,
    data: BrickRecord<D>,
    to: u64,
)
    requires
        undo.len() > 0,
        undo.last() == (UndoCommand::<T, D>::Delete { entity, data }),
        data.parent != Some(entity),
    ensures
        ({
            let (u1, r1) = stacks_after_undo(undo, redo);
            let (u2, r2) = stacks_after_respawn(u1, r1, entity, to, data, true);
            stacks_after_redo(u2, r2)
        }) == (remap_stack(undo, entity, to), remap_stack(redo, entity, to)),
{
    lemma_remap_push(undo, entity, to);
    let r2 = remap_stack(redo, entity, to).push(UndoCommand::Delete { entity: to, data });
    assert(r2.drop_last() == remap_stack(redo, entity, to));
}

/// Redoing the spawn of a brick, which comes back as `to`, and undoing it
/// again leaves both stacks as they were, with `to` in place of the
/// spawned entity.
pub proof fn lemma_spawn_round_trip<T, D>(
    undo: Seq<UndoCommand<T, D>>,
    redo: Seq<UndoCommand<T, D>>,
    entity: u64,
    data: BrickRecord<D>,
    to: u64,
)
    requires
        redo.len() > 0,
        redo.last() == (UndoCommand::<T, D>::Spawn { entity, data }),
        data.parent != Some(entity),
    ensures
        ({
            let (u1, r1) = stacks_after_redo(undo, redo);
            let (u2, r2) = stacks_after_respawn(u1, r1, entity, to, data, false);
            stacks_after_undo(u2, r2)
        }) == (remap_stack(undo, entity, to), remap_stack(redo, entity, to)),
{
    lemma_remap_push(redo, entity, to);
    let u2 = remap_stack(undo, entity, to).push(UndoCommand::Spawn { entity: to, data });
    assert(u2.drop_last() == remap_stack(undo, entity, to));
}

/// The command with the first `n` pairs `from[i]` → `to[i]` applied in turn.
pub open spec fn remap_command_all<T, D>(c: UndoCommand<T, D>, from: Seq<u64>, to: Seq<u64>, n: nat) -> UndoCommand<
    T,
    D,
>
    decreases n,
{
    if n == 0 {
        c
    } else {
        remap_command(remap_command_all(c, from, to, (n - 1) as nat), from[n - 1], to[n - 1])
    }
}

proof fn lemma_remap_all_push<T, D>(
    s: Seq<UndoCommand<T, D>>,
    c: UndoCommand<T, D>,
    from: Seq<u64>,
    to: Seq<u64>,
    n: nat,
)
    ensures
        remap_stack_all(s.push(c), from, to, n) == remap_stack_all(s, from, to, n).push(
            remap_command_all(c, from, to, n),
        ),
    decreases n,
{
    if n > 0 {
        lemma_remap_all_push(s, c, from, to, (n - 1) as nat);
        let prev = remap_stack_all(s, from, to, (n - 1) as nat);
        let pc = remap_command_all(c, from, to, (n - 1) as nat);
        assert(remap_stack(prev.push(pc), from[n - 1], to[n - 1]) =~= remap_stack(
            prev,
            from[n - 1],
            to[n - 1],
        ).push(remap_command(pc, from[n - 1], to[n - 1])));
    }
}

proof fn lemma_remap_all_tree_commands<T, D>(t: Trees<D>, from: Seq<u64>, to: Seq<u64>, n: nat)
    ensures
        remap_command_all(UndoCommand::<T, D>::DeleteTrees { trees: t }, from, to, n)
            == (UndoCommand::<T, D>::DeleteTrees { trees: remap_trees_all(t, from, to, n) }),
        remap_command_all(UndoCommand::<T, D>::SpawnTrees { trees: t }, from, to, n)
            == (UndoCommand::<T, D>::SpawnTrees { trees: remap_trees_all(t, from, to, n) }),
    decreases n,
{
    if n > 0 {
        lemma_remap_all_tree_commands::<T, D>(t, from, to, (n - 1) as nat);
    }
}

/// Undoing the delete of subtrees, which come back with the new roots `to`
/// in place of `from`, and redoing it leaves both stacks as they were, with
/// every reported pair applied.
pub proof fn lemma_delete_trees_round_trip<T, D>(
    undo: Seq<UndoCommand<T, D>>,
    redo: Seq<UndoCommand<T, D>>,
    trees: Trees<D>,
    from: Seq<u64>,
    to: Seq<u64>,
)
    requires
        undo.len() > 0,
        undo.last() == (UndoCommand::<T, D>::DeleteTrees { trees }),
    ensures
        ({
            let (u1, r1) = stacks_after_undo(undo, redo);
            let (u2, r2) = stacks_after_trees_respawn(u1, r1, from, to, trees, true);
            stacks_after_redo(u2, r2)
        }) == (
            remap_stack_all(undo, from, to, pair_count(from, to)),
            remap_stack_all(redo, from, to, pair_count(from, to)),
        ),
{
    let n = pair_count(from, to);
    assert(undo.drop_last().push(undo.last()) == undo);
    lemma_remap_all_push(undo.drop_last(), undo.last(), from, to, n);
    lemma_remap_all_tree_commands::<T, D>(trees, from, to, n);
    let r2 = remap_stack_all(redo, from, to, n).push(
        UndoCommand::DeleteTrees { trees: remap_trees_all(trees, from, to, n) },
    );
    assert(r2.drop_last() == remap_stack_all(redo, from, to, n));
}

/// Redoing the spawn of subtrees, which come back with the new roots `to`
/// in place of `from`, and undoing it again leaves both stacks as they
/// were, with every reported pair applied.
pub proof fn lemma_spawn_trees_round_trip<T, D>(
    undo: Seq<UndoCommand<T, D>>,
    redo: Seq<UndoCommand<T, D>>,
    trees: Trees<D>,
    from: Seq<u64>,
    to: Seq<u64>,
)
    requires
        redo.len() > 0,
        redo.last() == (UndoCommand::<T, D>::SpawnTrees { trees }),
    ensures
        ({
            let (u1, r1) = stacks_after_redo(undo, redo);
            let (u2, r2) = stacks_after_trees_respawn(u1, r1, from, to, trees, false);
            stacks_after_undo(u2, r2)
        }) == (
            remap_stack_all(undo, from, to, pair_count(from, to)),
            remap_stack_all(redo, from, to, pair_count(from, to)),
        ),
{
    let n = pair_count(from, to);
    assert(redo.drop_last().push(redo.last()) == redo);
    lemma_remap_all_push(redo.drop_last(), redo.last(), from, to, n);
    lemma_remap_all_tree_commands::<T, D>(trees, from, to, n);
    let u2 = remap_stack_all(undo, from, to, n).push(
        UndoCommand::SpawnTrees { trees: remap_trees_all(trees, from, to, n) },
    );
    assert(u2.drop_last() == remap_stack_all(undo, from, to, n));
}

/// The undo and redo keyboard shortcuts: ctrl+Z undoes, ctrl+shift+Z and ctrl+Y redo.
pub fn handle_keyboard_shortcuts(ctrl: bool, shift: bool, z_pressed: bool, y_pressed: bool) -> (r: Option<
    UndoRedoAction,
>)
    ensures
        r == if ctrl && z_pressed {
            Some(
                if shift {
                    UndoRedoAction::Redo
                } else {
                    UndoRedoAction::Undo
                },
            )
        } else if ctrl && y_pressed {
            Some(UndoRedoAction::Redo)
        } else {
            None
        },
{
    if ctrl {
        if z_pressed {
            if shift {
                Some(UndoRedoAction::Redo)
            } else {
                Some(UndoRedoAction::Undo)
            }
        } else if y_pressed {
            Some(UndoRedoAction::Redo)
        } else {
            None
        }
    } else {
        None
    }
}


/// The parent `e` has after the engine carries out `effect`, `before` being
/// its parent until then.
pub open spec fn parent_after<T, D>(effect: UndoEffect<T, D>, e: u64, before: Option<u64>) -> Option<u64> {
    match effect {
        UndoEffect::Reparent { entity, parent, .. } => if entity == e {
            parent
        } else {
            before
        },
        _ => before,
    }
}

/// The transform `e` has after the engine carries out `effect`, `before`
/// being its transform until then.
pub open spec fn transform_after<T, D>(effect: UndoEffect<T, D>, e: u64, before: T) -> T {
    match effect {
        UndoEffect::Reparent { entity, transform, .. } => if entity == e {
            transform
        } else {
            before
        },
        UndoEffect::SetTransform { entity, transform } => if entity == e {
            transform
        } else {
            before
        },
        _ => before,
    }
}

/// Undoing a reparenting puts the entity back under its old parent with its
/// old transform, whatever it stood under before; redoing puts it under the
/// new parent with the new transform. So redo then undo leaves it as before
/// the edit, undo then redo as after it, and the two effects differ
/// whenever the parents do.
pub proof fn lemma_reparent_undo_restores<T, D>(
    entity: u64,
    old_parent: Option<u64>,
    new_parent: Option<u64>,
    old_transform: T,
    new_transform: T,
    undone: UndoEffect<T, D>,
    redone: UndoEffect<T, D>,
    parent: Option<u64>,
    transform: T,
)
    requires
        undo_done(
            UndoCommand::<T, D>::ParentChange { entity, old_parent, new_parent, old_transform, new_transform },
            undone,
        ),
        redo_done(
            UndoCommand::<T, D>::ParentChange { entity, old_parent, new_parent, old_transform, new_transform },
            redone,
        ),
    ensures
        parent_after(undone, entity, parent) == old_parent,
        transform_after(undone, entity, transform) == old_transform,
        parent_after(redone, entity, parent) == new_parent,
        transform_after(redone, entity, transform) == new_transform,
        parent_after(undone, entity, parent_after(redone, entity, parent)) == old_parent,
        parent_after(redone, entity, parent_after(undone, entity, parent)) == new_parent,
        old_parent != new_parent ==> undone != redone,
{
}

/// Undoing a transform edit gives the entity its old transform back, and
/// redoing it the new one, whatever it had before.
pub proof fn lemma_transform_undo_restores<T, D>(
    entity: u64,
    old_transform: T,
    new_transform: T,
    undone: UndoEffect<T, D>,
    redone: UndoEffect<T, D>,
    transform: T,
)
    requires
        undo_done(UndoCommand::<T, D>::TransformChange { entity, old_transform, new_transform }, undone),
        redo_done(UndoCommand::<T, D>::TransformChange { entity, old_transform, new_transform }, redone),
    ensures
        transform_after(undone, entity, transform) == old_transform,
        transform_after(redone, entity, transform) == new_transform,
        transform_after(undone, entity, transform_after(redone, entity, transform)) == old_transform,
{
}


/// Undoing a spawn removes the spawned entity and redoing it brings the
/// same brick back; undoing a delete brings the deleted brick back and
/// redoing it removes the entity again. Each acts on the command's own
/// entity and data.
pub proof fn lemma_spawn_delete_undo_redo<T, D>(
    entity: u64,
    data: BrickRecord<D>,
    undone_spawn: UndoEffect<T, D>,
    redone_spawn: UndoEffect<T, D>,
    undone_delete: UndoEffect<T, D>,
    redone_delete: UndoEffect<T, D>,
)
    requires
        undo_done(UndoCommand::<T, D>::Spawn { entity, data }, undone_spawn),
        redo_done(UndoCommand::<T, D>::Spawn { entity, data }, redone_spawn),
        undo_done(UndoCommand::<T, D>::Delete { entity, data }, undone_delete),
        redo_done(UndoCommand::<T, D>::Delete { entity, data }, redone_delete),
    ensures
        undone_spawn matches UndoEffect::Despawn { entity: e } && e == entity,
        redone_spawn matches UndoEffect::Respawn { entity: e, data: d, undoing } && e == entity && d == data
            && !undoing,
        undone_delete matches UndoEffect::Respawn { entity: e, data: d, undoing } && e == entity && d == data
            && undoing,
        redone_delete matches UndoEffect::Despawn { entity: e } && e == entity,
{
}


/// The subtrees name `x` as a root or as a root's parent.
pub open spec fn trees_mention<D>(t: Trees<D>, x: u64) -> bool
    decreases t,
{
    match t {
        Trees::Empty => false,
        Trees::Tree { root, parent, rest, .. } => root == x || parent == Some(x) || trees_mention(*rest, x),
    }
}

/// The command names entity `x`: as the entity it is about, or as a parent.
pub open spec fn mentions<T, D>(c: UndoCommand<T, D>, x: u64) -> bool {
    match c {
        UndoCommand::TransformChange { entity, .. } => entity == x,
        UndoCommand::Spawn { entity, data } => entity == x || data.parent == Some(x),
        UndoCommand::Delete { entity, data } => entity == x || data.parent == Some(x),
        UndoCommand::ParentChange { entity, old_parent, new_parent, .. } => entity == x || old_parent
            == Some(x) || new_parent == Some(x),
        UndoCommand::DeleteTrees { trees } => trees_mention(trees, x),
        UndoCommand::SpawnTrees { trees } => trees_mention(trees, x),
    }
}

proof fn lemma_remap_trees_mentions<D>(t: Trees<D>, from: u64, to: u64, x: u64)
    requires
        from != to,
    ensures
        !trees_mention(remap_trees(t, from, to), from),
        x != from ==> (trees_mention(remap_trees(t, from, to), x) <==> (trees_mention(t, x) || (x == to
            && trees_mention(t, from)))),
        !trees_mention(t, from) ==> remap_trees(t, from, to) == t,
    decreases t,
{
    if let Trees::Tree { rest, .. } = t {
        lemma_remap_trees_mentions(*rest, from, to, x);
    }
}

/// Remapping `from` to `to` in a command replaces every mention of `from`
/// by `to` and touches nothing else: afterwards `from` is not named, any
/// other entity is named exactly when it was before (or, for `to`, when
/// `from` was), and a command that did not name `from` stays as it was.
pub proof fn lemma_remap_replaces_entity<T, D>(c: UndoCommand<T, D>, from: u64, to: u64, x: u64)
    requires
        from != to,
    ensures
        !mentions(remap_command(c, from, to), from),
        x != from ==> (mentions(remap_command(c, from, to), x) <==> (mentions(c, x) || (x == to && mentions(
            c,
            from,
        )))),
        !mentions(c, from) ==> remap_command(c, from, to) == c,
{
    match c {
        UndoCommand::DeleteTrees { trees } => lemma_remap_trees_mentions(trees, from, to, x),
        UndoCommand::SpawnTrees { trees } => lemma_remap_trees_mentions(trees, from, to, x),
        _ => {},
    }
}

} // verus!
