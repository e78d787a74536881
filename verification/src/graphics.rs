//! The studio's graphics settings.
use vstd::prelude::*;

verus! {

/// The anti-aliasing methods on offer.
#[derive(Clone, Copy, Debug, PartialEq, Eq, Structural)]
pub enum AntiAliasing {
    Off,
    Fxaa,
    Msaa2,
    Msaa4,
    Msaa8,
}

/// The anti-aliasing in effect: multisampling does not go with screen-space
/// ambient occlusion, so with ambient occlusion on, any MSAA setting becomes
/// FXAA; every other setting stays.
pub fn effective_anti_aliasing(ambient_occlusion: bool, chosen: AntiAliasing) -> (r: AntiAliasing)
    ensures
        r == if ambient_occlusion && (chosen == AntiAliasing::Msaa2 || chosen == AntiAliasing::Msaa4
            || chosen == AntiAliasing::Msaa8) {
            AntiAliasing::Fxaa
        } else {
            chosen
        },
{
    if ambient_occlusion {
        match chosen {
            AntiAliasing::Msaa2 | AntiAliasing::Msaa4 | AntiAliasing::Msaa8 => AntiAliasing::Fxaa,
            _ => chosen,
        }
    } else {
        chosen
    }
}

} // verus!
