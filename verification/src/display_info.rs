//! A remote display as the host describes it, and what the host's Retina
//! shim does with it.
//!
//! On a macOS host `x`/`y` are logical points (`CGDisplayBounds`) while
//! `width`/`height` are physical pixels. The host compensates in its
//! per-connection shim: an incoming absolute coordinate that lands inside the
//! CURRENT display's mixed-unit rect (logical origin, physical extent) is
//! divided by that display's scale. "Current" is the connection's display
//! index, moved only by a display switch.
use vstd::prelude::*;

verus! {

/// The scale factor one unit of `DisplayInfo::scale_milli` stands for.
pub const SCALE_ONE: u32 = 1000;

/// A display of the host. `scale_milli` is the scale factor in thousandths
/// (`2000` for a 2x Retina display); old hosts report `0`, which counts as
/// unscaled.
#[derive(Clone, Copy, PartialEq, Eq, Structural, Debug, Default)]
pub struct DisplayInfo {
    pub x: i32,
    pub y: i32,
    pub width: i32,
    pub height: i32,
    pub scale_milli: u32,
}

/// The shim only ever divides by a scale greater than 1.
pub open spec fn is_scaled(d: DisplayInfo) -> bool {
    d.scale_milli > SCALE_ONE
}

/// The scale the shim applies, in thousandths: the display's own when it is
/// greater than 1, otherwise 1.
pub open spec fn effective_scale(d: DisplayInfo) -> int {
    if is_scaled(d) {
        d.scale_milli as int
    } else {
        SCALE_ONE as int
    }
}

/// The quotient `n / d` rounded to the nearest integer, halves away from
/// zero (`f64::round`), for `d > 0`.
pub open spec fn round_div(n: int, d: int) -> int {
    if n >= 0 {
        (2 * n + d) / (2 * d)
    } else {
        -((-2 * n + d) / (2 * d))
    }
}

/// The value a float-to-`i32` cast gives: saturated at the `i32` bounds.
pub open spec fn saturate_i32(v: int) -> int {
    if v > i32::MAX {
        i32::MAX as int
    } else if v < i32::MIN {
        i32::MIN as int
    } else {
        v
    }
}

/// Whether a wire coordinate lies in the shim's guard for `d`: the display's
/// logical origin with its physical extent.
pub open spec fn in_guard(d: DisplayInfo, x: int, y: int) -> bool {
    &&& d.x <= x < d.x + d.width
    &&& d.y <= y < d.y + d.height
}

/// Whether a logical point lies in the display's logical rect (its physical
/// extent divided by its scale).
pub open spec fn in_logical_rect(d: DisplayInfo, x: int, y: int) -> bool {
    &&& x >= d.x
    &&& y >= d.y
    &&& (x - d.x) * effective_scale(d) < d.width * SCALE_ONE
    &&& (y - d.y) * effective_scale(d) < d.height * SCALE_ONE
}

/// What the host's shim, armed on `d`, makes of an incoming coordinate:
/// inside the guard of a scaled display it divides the offset from the
/// origin by the scale (truncating), anywhere else it passes the coordinate
/// through.
pub open spec fn host_shim(d: DisplayInfo, x: int, y: int) -> (int, int) {
    if is_scaled(d) && in_guard(d, x, y) {
        (
            d.x + (x - d.x) * SCALE_ONE / (d.scale_milli as int),
            d.y + (y - d.y) * SCALE_ONE / (d.scale_milli as int),
        )
    } else {
        (x, y)
    }
}

} // verus!
