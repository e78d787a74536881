//! The move, size and rotate handles drawn on the selected brick.
use vstd::prelude::*;

verus! {

/// The active editing tool.
#[derive(Clone, Copy, Debug, PartialEq, Eq, Structural)]
pub enum ToolState {
    NoTool,
    Move,
    Size,
    Rotate,
}

/// Whether the physics simulation runs in the editor.
#[derive(Clone, Copy, Debug, PartialEq, Eq, Structural)]
pub enum PhysicsSimulationState {
    Stopped,
    Running,
}

/// Everything the handles depend on.
#[derive(Clone, Copy, Debug, PartialEq, Eq, Structural)]
pub struct GizmoConfiguration {
    pub selected_entity: Option<u64>,
    pub tool: ToolState,
    pub physics_state: PhysicsSimulationState,
    pub playtesting: bool,
}

/// Records `current` and says whether it differs from the recorded one.
pub fn configuration_changed(previous: &mut Option<GizmoConfiguration>, current: GizmoConfiguration) -> (r:
    bool)
    ensures
        r == (*old(previous) != Some(current)),
        *final(previous) == Some(current),
{
    match previous {
        Some(p) => {
            if p.selected_entity == current.selected_entity && p.tool == current.tool
                && p.physics_state == current.physics_state && p.playtesting
                == current.playtesting {
                return false;
            }
        },
        None => {},
    }
    *previous = Some(current);
    true
}

/// The direction a handle points in.
#[derive(Clone, Copy, Debug, PartialEq, Eq, Structural)]
pub enum GizmoAxis {
    PosX,
    NegX,
    PosY,
    NegY,
    PosZ,
    NegZ,
}

/// A handle to spawn.
#[derive(Clone, Copy, Debug, PartialEq, Eq, Structural)]
pub struct GizmoSpec {
    pub axis: GizmoAxis,
    pub tool: ToolState,
    pub target: u64,
}

/// The handles for a configuration, once the old ones are gone: none while
/// playtesting, while the simulation runs, with nothing selected or with
/// no tool; six arrows or six knobs (+X, -X, +Y, -Y, +Z, -Z) for the move
/// and size tools; three rings (X, Y, Z) for the rotate tool.
pub open spec fn gizmo_plan(config: GizmoConfiguration) -> Seq<GizmoSpec> {
    if config.playtesting || config.physics_state == PhysicsSimulationState::Running {
        Seq::empty()
    } else {
        match config.selected_entity {
            None => Seq::empty(),
            Some(target) => match config.tool {
                ToolState::NoTool => Seq::empty(),
                ToolState::Rotate => seq![
                    GizmoSpec { axis: GizmoAxis::PosX, tool: ToolState::Rotate, target },
                    GizmoSpec { axis: GizmoAxis::PosY, tool: ToolState::Rotate, target },
                    GizmoSpec { axis: GizmoAxis::PosZ, tool: ToolState::Rotate, target },
                ],
                tool => seq![
                    GizmoSpec { axis: GizmoAxis::PosX, tool, target },
                    GizmoSpec { axis: GizmoAxis::NegX, tool, target },
                    GizmoSpec { axis: GizmoAxis::PosY, tool, target },
                    GizmoSpec { axis: GizmoAxis::NegY, tool, target },
                    GizmoSpec { axis: GizmoAxis::PosZ, tool, target },
                    GizmoSpec { axis: GizmoAxis::NegZ, tool, target },
                ],
            },
        }
    }
}

/// The handles to spawn for `config` (see `gizmo_plan`).
pub fn plan_gizmos(config: GizmoConfiguration) -> (r: Vec<GizmoSpec>)
    ensures
        r@ == gizmo_plan(config),
{
    let mut out: Vec<GizmoSpec> = Vec::new();
    if config.playtesting {
        return out;
    }
    if let PhysicsSimulationState::Running = config.physics_state {
        return out;
    }
    let target = match config.selected_entity {
        Some(t) => t,
        None => {
            return out;
        },
    };
    match config.tool {
        ToolState::NoTool => {},
        ToolState::Rotate => {
            out.push(GizmoSpec { axis: GizmoAxis::PosX, tool: ToolState::Rotate, target });
            out.push(GizmoSpec { axis: GizmoAxis::PosY, tool: ToolState::Rotate, target });
            out.push(GizmoSpec { axis: GizmoAxis::PosZ, tool: ToolState::Rotate, target });
        },
        tool => {
            out.push(GizmoSpec { axis: GizmoAxis::PosX, tool, target });
            out.push(GizmoSpec { axis: GizmoAxis::NegX, tool, target });
            out.push(GizmoSpec { axis: GizmoAxis::PosY, tool, target });
            out.push(GizmoSpec { axis: GizmoAxis::NegY, tool, target });
            out.push(GizmoSpec { axis: GizmoAxis::PosZ, tool, target });
            out.push(GizmoSpec { axis: GizmoAxis::NegZ, tool, target });
        },
    }
    assert(out@ == gizmo_plan(config));
    out
}

/// A handle is drawn enlarged while hovered or while it is being dragged.
pub fn gizmo_highlighted(
    gizmo: u64,
    hovered_gizmo: Option<u64>,
    drag_active: bool,
    dragged_gizmo: Option<u64>,
) -> (r: bool)
    ensures
        r == (hovered_gizmo == Some(gizmo) || (drag_active && dragged_gizmo == Some(gizmo))),
{
    let hovered = match hovered_gizmo {
        Some(h) => h == gizmo,
        None => false,
    };
    let dragged = drag_active && match dragged_gizmo {
        Some(d) => d == gizmo,
        None => false,
    };
    hovered || dragged
}


/// A click on the ribbon button of `tool`: it turns that tool off when it
/// is the active one, and makes it active otherwise.
pub fn toggle_tool(current: ToolState, tool: ToolState) -> (r: ToolState)
    ensures
        r == if current == tool {
            ToolState::NoTool
        } else {
            tool
        },
{
    if current == tool {
        ToolState::NoTool
    } else {
        tool
    }
}

} // verus!
