//! The editor camera: following the player while playtesting, pausing
//! cameras while the window is minimized, and when the free camera and
//! picking are enabled.
use vstd::prelude::*;

verus! {

/// One frame of playtest camera syncing: the editor's new view and the saved view.
pub open spec fn view_step<V>(playtesting: bool, editor: V, player: Option<V>, saved: Option<V>) -> (
    V,
    Option<V>,
) {
    if playtesting {
        match player {
            Some(p) => (
                p,
                match saved {
                    Some(s) => Some(s),
                    None => Some(editor),
                },
            ),
            None => (editor, saved),
        }
    } else {
        match saved {
            Some(s) => (s, None),
            None => (editor, None),
        }
    }
}

/// One frame of playtest camera syncing. While playtesting and a player
/// camera exists, the editor camera takes the player's view, and the
/// editor's own view is saved the first time. When playtesting ends, a
/// saved view is restored and forgotten. Returns the editor's new view and
/// the saved view. `V` is a transform with its projection.
pub fn sync_playtest_camera<V>(playtesting: bool, editor: V, player: Option<V>, saved: Option<V>) -> (r: (
    V,
    Option<V>,
))
    ensures
        r == view_step(playtesting, editor, player, saved),
{
    if playtesting {
        match player {
            Some(p) => {
                let kept = match saved {
                    Some(s) => Some(s),
                    None => Some(editor),
                };
                (p, kept)
            },
            None => (editor, saved),
        }
    } else {
        match saved {
            Some(s) => (s, None),
            None => (editor, None),
        }
    }
}

/// Playtest frames, each with a player camera, starting from `start`.
pub open spec fn follow_frames<V>(start: (V, Option<V>), players: Seq<V>) -> (V, Option<V>)
    decreases players.len(),
{
    if players.len() == 0 {
        start
    } else {
        let s = follow_frames(start, players.drop_last());
        view_step(true, s.0, Some(players.last()), s.1)
    }
}

proof fn lemma_editor_view_saved<V>(editor: V, players: Seq<V>)
    requires
        players.len() > 0,
    ensures
        follow_frames((editor, None::<V>), players).1 == Some(editor),
    decreases players.len(),
{
    if players.len() > 1 {
        lemma_editor_view_saved(editor, players.drop_last());
    } else {
        assert(follow_frames((editor, None::<V>), players.drop_last()) == (editor, None::<V>));
    }
}

/// Following the player camera for any number of frames and then stopping
/// the playtest gives the editor back the view it had before, and nothing
/// stays saved.
pub proof fn lemma_playtest_restores_view<V>(editor: V, players: Seq<V>)
    requires
        players.len() > 0,
    ensures
        ({
            let s = follow_frames((editor, None::<V>), players);
            view_step(false, s.0, None, s.1)
        }) == (editor, None::<V>),
{
    lemma_editor_view_saved(editor, players);
}

/// A camera and whether it renders.
#[derive(Clone, Copy, Debug, PartialEq, Eq, Structural)]
pub struct CameraActivity {
    pub entity: u64,
    pub active: bool,
}

/// The cameras after a frame with the window minimized or not.
pub open spec fn cameras_after(cameras: Seq<CameraActivity>, paused: Seq<u64>, minimized: bool) -> Seq<
    CameraActivity,
> {
    cameras.map_values(
        |c: CameraActivity|
            if minimized {
                CameraActivity { entity: c.entity, active: false }
            } else if paused.contains(c.entity) {
                CameraActivity { entity: c.entity, active: true }
            } else {
                c
            },
    )
}

/// The active cameras, in order.
pub open spec fn active_entities(cameras: Seq<CameraActivity>) -> Seq<u64>
    decreases cameras.len(),
{
    if cameras.len() == 0 {
        Seq::empty()
    } else if cameras.last().active {
        active_entities(cameras.drop_last()).push(cameras.last().entity)
    } else {
        active_entities(cameras.drop_last())
    }
}

proof fn lemma_active_entities_members(cameras: Seq<CameraActivity>, e: u64)
    ensures
        active_entities(cameras).contains(e) <==> exists|j: int|
            0 <= j < cameras.len() && #[trigger] cameras[j].entity == e && cameras[j].active,
    decreases cameras.len(),
{
    if cameras.len() > 0 {
        let d = cameras.drop_last();
        lemma_active_entities_members(d, e);
        let a = active_entities(d);
        if exists|j: int| 0 <= j < cameras.len() && #[trigger] cameras[j].entity == e && cameras[j].active {
            let j = choose|j: int| 0 <= j < cameras.len() && #[trigger] cameras[j].entity == e && cameras[j].active;
            if j < cameras.len() - 1 {
                assert(d[j].entity == e && d[j].active);
                if cameras.last().active {
                    let i = choose|i: int| 0 <= i < a.len() && a[i] == e;
                    assert(a.push(cameras.last().entity)[i] == e);
                }
            } else {
                assert(a.push(cameras.last().entity)[a.len() as int] == e);
            }
        }
        if active_entities(cameras).contains(e) {
            let i = choose|i: int| 0 <= i < active_entities(cameras).len() && active_entities(cameras)[i] == e;
            if cameras.last().active && i == a.len() {
                assert(cameras[cameras.len() - 1].entity == e);
            } else {
                assert(a[i] == e);
                let j = choose|j: int| 0 <= j < d.len() && #[trigger] d[j].entity == e && d[j].active;
                assert(cameras[j].entity == e);
            }
        }
    }
}

/// Minimizing the window and restoring it, with nothing remembered
/// before, gives every camera back the state it had, provided no two
/// cameras share an entity.
pub proof fn lemma_minimize_then_restore(cameras: Seq<CameraActivity>)
    requires
        forall|i: int, j: int|
            0 <= i < j < cameras.len() ==> #[trigger] cameras[i].entity != #[trigger] cameras[j].entity,
    ensures
        cameras_after(
            cameras_after(cameras, Seq::empty(), true),
            active_entities(cameras),
            false,
        ) == cameras,
{
    let once = cameras_after(cameras, Seq::empty(), true);
    let twice = cameras_after(once, active_entities(cameras), false);
    assert forall|k: int| 0 <= k < cameras.len() implies #[trigger] twice[k] == cameras[k] by {
        lemma_active_entities_members(cameras, cameras[k].entity);
        if active_entities(cameras).contains(cameras[k].entity) {
            let j = choose|j: int|
                0 <= j < cameras.len() && #[trigger] cameras[j].entity == cameras[k].entity
                    && cameras[j].active;
            if j != k {
                if j < k {
                    assert(cameras[j].entity != cameras[k].entity);
                } else {
                    assert(cameras[k].entity != cameras[j].entity);
                }
            }
        }
    }
    assert(twice =~= cameras);
}

/// While the window is minimized, every active camera is turned off and
/// remembered; once it is restored, the remembered cameras are turned on
/// again and forgotten. The remembered cameras are a list of entities, in
/// the order of `cameras`, rather than a hash map, so that the state after
/// each frame is stated exactly.
pub fn disable_cameras_on_minimization(
    cameras: &mut Vec<CameraActivity>,
    paused: &mut Vec<u64>,
    minimized: bool,
)
    ensures
        final(cameras)@ == cameras_after(old(cameras)@, old(paused)@, minimized),
        minimized ==> final(paused)@ == old(paused)@ + active_entities(old(cameras)@),
        !minimized ==> final(paused)@.len() == 0,
{
    let ghost orig = cameras@;
    let ghost was_paused = paused@;
    let mut i: usize = 0;
    while i < cameras.len()
        invariant
            i <= cameras.len(),
            cameras@.len() == orig.len(),
            forall|k: int| i <= k < orig.len() ==> #[trigger] cameras@[k] == orig[k],
            forall|k: int|
                0 <= k < i ==> #[trigger] cameras@[k] == cameras_after(orig, was_paused, minimized)[k],
            minimized ==> paused@ == was_paused + active_entities(orig.take(i as int)),
            !minimized ==> paused@ == was_paused,
        decreases cameras.len() - i,
    {
        assert(orig.take(i + 1).drop_last() == orig.take(i as int));
        let c = cameras[i];
        if minimized {
            if c.active {
                paused.push(c.entity);
            }
            cameras.set(i, CameraActivity { entity: c.entity, active: false });
        } else {
            let found = crate::contacts::contains_entity(paused, c.entity);
            if found && !c.active {
                cameras.set(i, CameraActivity { entity: c.entity, active: true });
            }
        }
        i = i + 1;
    }
    assert(orig.take(orig.len() as int) == orig);
    assert(cameras@ == cameras_after(orig, was_paused, minimized));
    if !minimized {
        paused.clear();
    }
}

/// Whether the free camera and mouse picking are enabled this frame.
#[derive(Clone, Copy, Debug, PartialEq, Eq, Structural)]
pub struct CameraControls {
    pub camera_enabled: bool,
    pub picking_enabled: bool,
}

/// The free camera is off while the UI takes keyboard input, during
/// onboarding and while playtesting; picking is off also while the UI takes
/// the pointer, while the pointer is over the UI, and while the camera moves.
pub fn disable_camera_on_ui_interaction(
    ui_wants_keyboard: bool,
    ui_wants_pointer: bool,
    hovering_ui: bool,
    onboarding_active: bool,
    playtesting: bool,
    camera_moving: bool,
) -> (r: CameraControls)
    ensures
        r.camera_enabled == !(ui_wants_keyboard || onboarding_active || playtesting),
        r.picking_enabled == (!(ui_wants_pointer || ui_wants_keyboard || hovering_ui
            || onboarding_active || playtesting) && !camera_moving),
{
    let disable_camera = ui_wants_keyboard || onboarding_active || playtesting;
    let disable_picking = ui_wants_pointer || ui_wants_keyboard || hovering_ui || onboarding_active
        || playtesting;
    CameraControls { camera_enabled: !disable_camera, picking_enabled: !disable_picking && !camera_moving }
}

} // verus!
