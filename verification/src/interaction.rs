//! Pointer interaction in the viewport: what is hovered, which cursor shows,
//! and the drags that move bricks and tool handles.
use crate::undo::{UndoCommand, UndoRedoHistory};
use vstd::prelude::*;

verus! {

/// What the pointer is over.
#[derive(Clone, Copy, Debug, PartialEq, Eq, Structural)]
pub enum PointerTarget {
    Gizmo,
    Brick,
    Other,
}

/// The hovered tool handle and brick.
pub struct HoverState {
    pub hovered_gizmo: Option<u64>,
    pub hovered_brick: Option<u64>,
    pub is_hovering_ui: bool,
}

/// The hover state after the pointer enters `target`.
pub open spec fn after_over(s: HoverState, target: u64, kind: PointerTarget) -> HoverState {
    match kind {
        PointerTarget::Gizmo => HoverState { hovered_gizmo: Some(target), ..s },
        PointerTarget::Brick => HoverState { hovered_brick: Some(target), ..s },
        PointerTarget::Other => s,
    }
}

/// The hover state after the pointer leaves `target`.
pub open spec fn after_out(s: HoverState, target: u64) -> HoverState {
    HoverState {
        hovered_gizmo: if s.hovered_gizmo == Some(target) {
            None
        } else {
            s.hovered_gizmo
        },
        hovered_brick: if s.hovered_brick == Some(target) {
            None
        } else {
            s.hovered_brick
        },
        is_hovering_ui: s.is_hovering_ui,
    }
}

/// The hover state after the pointer entered each of `overs`, in order.
pub open spec fn after_overs(s: HoverState, overs: Seq<(u64, PointerTarget)>) -> HoverState
    decreases overs.len(),
{
    if overs.len() == 0 {
        s
    } else {
        let prev = after_overs(s, overs.drop_last());
        after_over(prev, overs.last().0, overs.last().1)
    }
}

/// The hover state after the pointer left each of `outs`, in order.
pub open spec fn after_outs(s: HoverState, outs: Seq<u64>) -> HoverState
    decreases outs.len(),
{
    if outs.len() == 0 {
        s
    } else {
        after_out(after_outs(s, outs.drop_last()), outs.last())
    }
}

impl HoverState {
    /// Nothing hovered.
    pub fn new() -> (r: Self)
        ensures
            r.hovered_gizmo is None,
            r.hovered_brick is None,
            !r.is_hovering_ui,
    {
        HoverState { hovered_gizmo: None, hovered_brick: None, is_hovering_ui: false }
    }

    /// Applies this frame's pointer-enter events, then its pointer-leave events.
    pub fn handle_hover(&mut self, overs: &Vec<(u64, PointerTarget)>, outs: &Vec<u64>)
        ensures
            *final(self) == after_outs(after_overs(*old(self), overs@), outs@),
    {
        let ghost start = *self;
        let mut i: usize = 0;
        while i < overs.len()
            invariant
                i <= overs.len(),
                *self == after_overs(start, overs@.take(i as int)),
            decreases overs.len() - i,
        {
            assert(overs@.take(i + 1).drop_last() == overs@.take(i as int));
            let (target, kind) = overs[i];
            match kind {
                PointerTarget::Gizmo => {
                    self.hovered_gizmo = Some(target);
                },
                PointerTarget::Brick => {
                    self.hovered_brick = Some(target);
                },
                PointerTarget::Other => {},
            }
            i = i + 1;
        }
        assert(overs@.take(overs.len() as int) == overs@);
        let ghost entered = *self;
        let mut j: usize = 0;
        while j < outs.len()
            invariant
                j <= outs.len(),
                *self == after_outs(entered, outs@.take(j as int)),
            decreases outs.len() - j,
        {
            assert(outs@.take(j + 1).drop_last() == outs@.take(j as int));
            let target = outs[j];
            if self.hovered_gizmo == Some(target) {
                self.hovered_gizmo = None;
            }
            if self.hovered_brick == Some(target) {
                self.hovered_brick = None;
            }
            j = j + 1;
        }
        assert(outs@.take(outs.len() as int) == outs@);
    }
}

/// The pointer icon over the viewport.
#[derive(Clone, Copy, Debug, PartialEq, Eq, Structural)]
pub enum CursorChoice {
    /// Something is being dragged.
    Grabbing,
    /// A handle or a brick is under the pointer.
    Grab,
    /// The window's usual pointer.
    Default,
}

/// Which pointer icon to show.
pub fn update_cursor(drag_active: bool, part_drag_active: bool, hover: &HoverState) -> (r:
    CursorChoice)
    ensures
        r == if drag_active || part_drag_active {
            CursorChoice::Grabbing
        } else if hover.hovered_gizmo is Some || hover.hovered_brick is Some {
            CursorChoice::Grab
        } else {
            CursorChoice::Default
        },
{
    if drag_active || part_drag_active {
        CursorChoice::Grabbing
    } else if hover.hovered_gizmo.is_some() || hover.hovered_brick.is_some() {
        CursorChoice::Grab
    } else {
        CursorChoice::Default
    }
}

/// A brick being dragged across the viewport; `T` is a transform.
pub struct PartDragState<T> {
    pub active: bool,
    pub dragged_entity: Option<u64>,
    pub start_transform: Option<T>,
}

impl<T: Copy> PartDragState<T> {
    /// No drag.
    pub fn new() -> (r: Self)
        ensures
            !r.active,
            r.dragged_entity is None,
            r.start_transform is None,
    {
        PartDragState { active: false, dragged_entity: None, start_transform: None }
    }

    /// A drag starts on `target`. A primary-button drag on a brick (not on a
    /// tool handle) records the brick and its transform `brick_transform`
    /// (`None` when the target is no brick); any other drag changes nothing.
    pub fn handle_part_drag_start(&mut self, primary: bool, target: u64, on_gizmo: bool, brick_transform: Option<T>)
        ensures
            (primary && !on_gizmo && brick_transform is Some) ==> *final(self) == (PartDragState {
                active: true,
                dragged_entity: Some(target),
                start_transform: brick_transform,
            }),
            !(primary && !on_gizmo && brick_transform is Some) ==> *final(self) == *old(self),
    {
        if primary && !on_gizmo {
            if let Some(t) = brick_transform {
                self.active = true;
                self.dragged_entity = Some(target);
                self.start_transform = Some(t);
            }
        }
    }

    /// A primary-button drag ends. When a brick was being dragged and it
    /// still has a transform (`final_transform`), the move is recorded for
    /// undo if `changed` (the final transform differs from the start one).
    /// The drag is then cleared. Other buttons change nothing.
    pub fn handle_part_drag_end<D>(
        &mut self,
        primary: bool,
        final_transform: Option<T>,
        changed: bool,
        history: &mut UndoRedoHistory<T, D>,
    )
        ensures
            !primary ==> *final(self) == *old(self) && *final(history) == *old(history),
            primary ==> !final(self).active && final(self).dragged_entity is None
                && final(self).start_transform is None,
            primary ==> match (old(self).dragged_entity, old(self).start_transform, final_transform) {
                (Some(e), Some(start), Some(end)) => if changed {
                    final(history).undo_stack@ == old(history).undo_stack@.push(
                        UndoCommand::TransformChange { entity: e, old_transform: start, new_transform: end },
                    ) && final(history).redo_stack@.len() == 0
                } else {
                    *final(history) == *old(history)
                },
                _ => *final(history) == *old(history),
            },
    {
        if !primary {
            return;
        }
        if let (Some(e), Some(start)) = (self.dragged_entity, self.start_transform) {
            if let Some(end) = final_transform {
                history.push_transform_change(e, start, end, changed);
            }
        }
        self.active = false;
        self.dragged_entity = None;
        self.start_transform = None;
    }
}

/// A drag on a tool handle; `T` is a transform. The handle's pointer
/// geometry is tracked elsewhere.
pub struct DragState<T> {
    pub active: bool,
    pub gizmo_entity: Option<u64>,
    pub start_transform: Option<T>,
}

impl<T: Copy> DragState<T> {
    /// No drag.
    pub fn new() -> (r: Self)
        ensures
            !r.active,
            r.gizmo_entity is None,
            r.start_transform is None,
    {
        DragState { active: false, gizmo_entity: None, start_transform: None }
    }

    /// A drag starts on `target`. A primary-button drag on a tool handle
    /// starts a handle drag and records the transform of the brick the handle
    /// acts on (`target_transform`), where that brick has one.
    pub fn handle_drag_start(&mut self, primary: bool, target: u64, on_gizmo: bool, target_transform: Option<T>)
        ensures
            (primary && on_gizmo) ==> final(self).active && final(self).gizmo_entity == Some(target)
                && final(self).start_transform == match target_transform {
                Some(t) => Some(t),
                None => old(self).start_transform,
            },
            !(primary && on_gizmo) ==> *final(self) == *old(self),
    {
        if primary && on_gizmo {
            self.active = true;
            self.gizmo_entity = Some(target);
            if let Some(t) = target_transform {
                self.start_transform = Some(t);
            }
        }
    }

    /// A primary-button drag ends. When a handle drag with a recorded start
    /// transform ends and the handle still acts on brick `target` whose
    /// transform is `final_transform`, the edit is recorded for undo if
    /// `changed`. The drag is then cleared. Other buttons change nothing.
    pub fn handle_drag_end<D>(
        &mut self,
        primary: bool,
        target: Option<u64>,
        final_transform: Option<T>,
        changed: bool,
        history: &mut UndoRedoHistory<T, D>,
    )
        ensures
            !primary ==> *final(self) == *old(self) && *final(history) == *old(history),
            primary ==> !final(self).active && final(self).gizmo_entity is None
                && final(self).start_transform is None,
            primary ==> match (old(self).gizmo_entity, old(self).start_transform, target, final_transform) {
                (Some(_), Some(start), Some(e), Some(end)) => if changed {
                    final(history).undo_stack@ == old(history).undo_stack@.push(
                        UndoCommand::TransformChange { entity: e, old_transform: start, new_transform: end },
                    ) && final(history).redo_stack@.len() == 0
                } else {
                    *final(history) == *old(history)
                },
                _ => *final(history) == *old(history),
            },
    {
        if !primary {
            return;
        }
        if let (Some(_), Some(start)) = (self.gizmo_entity, self.start_transform) {
            if let (Some(e), Some(end)) = (target, final_transform) {
                history.push_transform_change(e, start, end, changed);
            }
        }
        self.active = false;
        self.gizmo_entity = None;
        self.start_transform = None;
    }
}

} // verus!
