//! Parking the host's current display on a scale-1 display.
//!
//! With the current display parked on an unscaled display the host's shim is
//! inert and logical coordinates pass through verbatim. A switch that arms a
//! scaled display is sent normally and then immediately chased with a switch
//! back to an unscaled one, so the shim is armed only for the instant between
//! the two messages. When every display is scaled there is no parking spot.
use crate::display_info::{host_shim, is_scaled, DisplayInfo, SCALE_ONE};
use vstd::prelude::*;

verus! {

/// Some display is scaled.
pub open spec fn any_scaled(ds: Seq<DisplayInfo>) -> bool {
    exists|i: int| 0 <= i < ds.len() && is_scaled(#[trigger] ds[i])
}

/// Some display is unscaled.
pub open spec fn any_unscaled(ds: Seq<DisplayInfo>) -> bool {
    exists|i: int| 0 <= i < ds.len() && !is_scaled(#[trigger] ds[i])
}

/// The display index the host's current display should be parked on, or
/// `None` when parking is unnecessary (no scaled display) or impossible
/// (every display scaled). A reported scale of 0 counts as unscaled.
pub fn choose_park_display(displays: &[DisplayInfo]) -> (r: Option<usize>)
    ensures
        r is Some <==> any_scaled(displays@) && any_unscaled(displays@),
        r matches Some(i) ==> i < displays@.len() && !is_scaled(displays@[i as int]) && forall|j: int|
            0 <= j < i ==> is_scaled(#[trigger] displays@[j]),
{
    let mut any: bool = false;
    let mut i: usize = 0;
    while i < displays.len()
        invariant
            i <= displays@.len(),
            any == exists|j: int| 0 <= j < i && is_scaled(#[trigger] displays@[j]),
        decreases displays@.len() - i,
    {
        if displays[i].scale_milli > SCALE_ONE {
            any = true;
        }
        i = i + 1;
    }
    if !any {
        return None;
    }
    let mut k: usize = 0;
    while k < displays.len()
        invariant
            k <= displays@.len(),
            any_scaled(displays@),
            forall|j: int| 0 <= j < k ==> is_scaled(#[trigger] displays@[j]),
        decreases displays@.len() - k,
    {
        if displays[k].scale_milli <= SCALE_ONE {
            return Some(k);
        }
        k = k + 1;
    }
    None
}

/// Whether a switch to `target` must be chased with a re-parking switch so
/// the host's current display returns to an unscaled one: the target is a
/// scaled display and some display is unscaled. An out-of-range target
/// never needs it.
pub fn needs_repark_after_switch(displays: &[DisplayInfo], target: usize) -> (r: bool)
    ensures
        r == (target < displays@.len() && is_scaled(displays@[target as int]) && any_unscaled(
            displays@,
        )),
{
    if target >= displays.len() {
        return false;
    }
    let d = &displays[target];
    d.scale_milli > SCALE_ONE && choose_park_display(displays).is_some()
}

/// Parking is sound: the display `choose_park_display` picks leaves the
/// host's shim inert for every coordinate.
pub proof fn law_parked_shim_is_inert(ds: Seq<DisplayInfo>, i: int, x: int, y: int)
    requires
        0 <= i < ds.len(),
        !is_scaled(ds[i]),
    ensures
        host_shim(ds[i], x, y) == (x, y),
{
}

} // verus!
