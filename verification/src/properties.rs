//! The on/off settings of the properties panel over a selection of bricks
//! (physics enabled, player can collide).
use vstd::prelude::*;

verus! {

/// How the panel shows a setting of the selection.
#[derive(Clone, Copy, Debug, PartialEq, Eq, Structural)]
pub enum FlagControl {
    /// The first selected brick has no physics settings: nothing is shown.
    Hidden,
    /// Every selected brick agrees: a checkbox with that value.
    Checkbox(bool),
    /// The bricks disagree: a button that sets them all.
    Mixed,
}

/// The value a brick shows: its own, or `true` for a brick without physics
/// settings.
pub open spec fn flag_value(v: Option<bool>) -> bool {
    match v {
        Some(b) => b,
        None => true,
    }
}

/// Every brick shows the value of the first.
pub open spec fn flags_agree(vs: Seq<Option<bool>>) -> bool {
    forall|i: int| 0 <= i < vs.len() ==> flag_value(#[trigger] vs[i]) == flag_value(vs[0])
}

/// The control for the settings `vs` of the selected bricks, in selection
/// order.
pub open spec fn control_of(vs: Seq<Option<bool>>) -> FlagControl {
    if vs[0] is None {
        FlagControl::Hidden
    } else if flags_agree(vs) {
        FlagControl::Checkbox(flag_value(vs[0]))
    } else {
        FlagControl::Mixed
    }
}

/// The value a click sets: the checkbox flips, the mixed button turns on.
pub open spec fn clicked_value(vs: Seq<Option<bool>>) -> bool {
    if flags_agree(vs) {
        !flag_value(vs[0])
    } else {
        true
    }
}

/// The settings after a click: every brick with physics settings takes the
/// clicked value; the others are left alone.
pub open spec fn clicked(vs: Seq<Option<bool>>) -> Seq<Option<bool>> {
    vs.map_values(
        |v: Option<bool>|
            match v {
                Some(_) => Some(clicked_value(vs)),
                None => None,
            },
    )
}

fn flag_value_exec(v: Option<bool>) -> (r: bool)
    ensures
        r == flag_value(v),
{
    match v {
        Some(b) => b,
        None => true,
    }
}

fn flags_agree_exec(values: &Vec<Option<bool>>) -> (r: bool)
    requires
        values.len() > 0,
    ensures
        r == flags_agree(values@),
{
    let first = flag_value_exec(values[0]);
    let mut i: usize = 0;
    while i < values.len()
        invariant
            i <= values.len(),
            first == flag_value(values@[0]),
            forall|j: int| 0 <= j < i ==> flag_value(#[trigger] values@[j]) == first,
        decreases values.len() - i,
    {
        if flag_value_exec(values[i]) != first {
            return false;
        }
        i = i + 1;
    }
    true
}

/// How the panel shows a setting of the selected bricks.
pub fn flag_control(values: &Vec<Option<bool>>) -> (r: FlagControl)
    requires
        values.len() > 0,
    ensures
        r == control_of(values@),
{
    if values[0].is_none() {
        FlagControl::Hidden
    } else if flags_agree_exec(values) {
        FlagControl::Checkbox(flag_value_exec(values[0]))
    } else {
        FlagControl::Mixed
    }
}

/// A click on the shown control of a setting.
pub fn click_flag(values: &Vec<Option<bool>>) -> (r: Vec<Option<bool>>)
    requires
        values.len() > 0,
        values@[0] is Some,
    ensures
        r@ == clicked(values@),
{
    let value = if flags_agree_exec(values) {
        !flag_value_exec(values[0])
    } else {
        true
    };
    let mut out: Vec<Option<bool>> = Vec::new();
    let mut i: usize = 0;
    while i < values.len()
        invariant
            i <= values.len(),
            value == clicked_value(values@),
            out@ == clicked(values@).take(i as int),
        decreases values.len() - i,
    {
        let v = match values[i] {
            Some(_) => Some(value),
            None => None,
        };
        out.push(v);
        i = i + 1;
        assert(out@ =~= clicked(values@).take(i as int));
    }
    assert(out@ =~= clicked(values@));
    out
}

/// A click on the mixed button leaves a checked checkbox; a click on the
/// checkbox shows the flipped value when every selected brick has physics
/// settings, and two such clicks give the settings back.
pub proof fn lemma_flag_clicks(vs: Seq<Option<bool>>)
    requires
        vs.len() > 0,
        vs[0] is Some,
    ensures
        control_of(vs) == FlagControl::Mixed ==> control_of(clicked(vs)) == FlagControl::Checkbox(true),
        control_of(vs) matches FlagControl::Checkbox(b) ==> ((forall|i: int|
            0 <= i < vs.len() ==> #[trigger] vs[i] is Some) ==> control_of(clicked(vs))
            == FlagControl::Checkbox(!b) && clicked(clicked(vs)) == vs),
{
    let c = clicked(vs);
    if control_of(vs) == FlagControl::Mixed {
        assert forall|i: int| 0 <= i < c.len() implies flag_value(#[trigger] c[i]) == flag_value(c[0]) by {
            assert(c[0] == Some(true));
        }
    }
    if forall|i: int| 0 <= i < vs.len() ==> #[trigger] vs[i] is Some {
        if flags_agree(vs) {
            let b = flag_value(vs[0]);
            assert forall|i: int| 0 <= i < c.len() implies flag_value(#[trigger] c[i]) == flag_value(c[0]) by {
                assert(vs[i] is Some);
            }
            assert(clicked_value(c) == b);
            assert(clicked(c) =~= vs) by {
                assert forall|i: int| 0 <= i < vs.len() implies clicked(c)[i] == vs[i] by {
                    assert(vs[i] is Some);
                    assert(flag_value(vs[i]) == b);
                }
            }
        }
    }
}

} // verus!
