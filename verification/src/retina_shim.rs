//! Client-side control of the macOS host's per-connection Retina shim.
//!
//! A shim armed on display `A` (logical origin `O`, physical size `P`,
//! scale `s`) maps a wire coordinate inside its guard `[O, O+P)` to
//! `O + (in-O)/s` and passes every other coordinate through. Arming the
//! display the pointer is over and sending the info-space coordinate
//! `W = O + (T - O) * s` makes the shim return exactly the logical target
//! `T`; for `s == 1` this degenerates to `W == T` against an inert shim, so
//! one rule covers scaled and unscaled displays alike.
use crate::display_info::{
    effective_scale, host_shim, in_guard, in_logical_rect, is_scaled, round_div, saturate_i32,
    DisplayInfo, SCALE_ONE,
};
use vstd::arithmetic::div_mod::{
    lemma_div_decreases, lemma_div_pos_is_pos, lemma_fundamental_div_mod,
    lemma_fundamental_div_mod_converse, lemma_mod_bound,
};
use vstd::prelude::*;

verus! {

/// The info-space coordinate for a logical coordinate `v` on an axis whose
/// display origin is `o`, at scale `e` thousandths.
pub open spec fn to_info_coord(o: int, v: int, e: int) -> int {
    o + saturate_i32(round_div((v - o) * e, SCALE_ONE as int))
}

/// The info-space point the shim maps back to the logical point `(x, y)`
/// on `d`.
pub open spec fn spec_to_info_space(d: DisplayInfo, x: int, y: int) -> (int, int) {
    if !is_scaled(d) {
        (x, y)
    } else {
        (
            to_info_coord(d.x as int, x, d.scale_milli as int),
            to_info_coord(d.y as int, y, d.scale_milli as int),
        )
    }
}

/// The arithmetic of `to_info_space` stays within `i32` on this axis.
pub open spec fn to_info_fits(o: int, v: int, e: int) -> bool {
    &&& i32::MIN <= v - o <= i32::MAX
    &&& i32::MIN <= to_info_coord(o, v, e) <= i32::MAX
}

/// The logical point a cursor position reported by the host stands for.
pub open spec fn spec_from_info_space(d: DisplayInfo, x: int, y: int) -> (int, int) {
    if !is_scaled(d) || !in_guard(d, x, y) {
        (x, y)
    } else {
        (
            d.x + round_div((x - d.x) * SCALE_ONE, d.scale_milli as int),
            d.y + round_div((y - d.y) * SCALE_ONE, d.scale_milli as int),
        )
    }
}

/// The arithmetic of `from_info_space` stays within `i32`: the guard's far
/// edges are computed only once the point is past its near edges.
pub open spec fn from_info_fits(d: DisplayInfo, x: int, y: int) -> bool {
    &&& is_scaled(d) && x >= d.x && y >= d.y ==> i32::MIN <= d.x + d.width <= i32::MAX
    &&& is_scaled(d) && x >= d.x && y >= d.y && x < d.x + d.width ==> i32::MIN <= d.y
        + d.height <= i32::MAX
}

/// `round_div(n, d)` is `a` whenever `n` is within less than half of `d`
/// of `a * d`.
proof fn lemma_round_div_near(n: int, d: int, a: int)
    requires
        d > 0,
        2 * (n - a * d) < d,
        2 * (a * d - n) < d,
    ensures
        round_div(n, d) == a,
{
    if n >= 0 {
        assert(a * (2 * d) == 2 * (a * d)) by (nonlinear_arith);
        lemma_fundamental_div_mod_converse(2 * n + d, 2 * d, a, 2 * (n - a * d) + d);
    } else {
        let q = -a;
        assert(-2 * n + d == q * (2 * d) + (2 * (a * d - n) + d)) by (nonlinear_arith)
            requires
                q == -a,
        ;
        assert(0 <= 2 * (a * d - n) + d < 2 * d);
        lemma_fundamental_div_mod_converse(-2 * n + d, 2 * d, q, 2 * (a * d - n) + d);
    }
}

/// `round_div(n, d)` is within half of `d` of `n / d`.
proof fn lemma_round_div_close(n: int, d: int)
    requires
        d > 0,
    ensures
        2 * (n - round_div(n, d) * d) <= d,
        2 * (round_div(n, d) * d - n) <= d,
{
    let r = round_div(n, d);
    if n >= 0 {
        let x = 2 * n + d;
        lemma_fundamental_div_mod(x, 2 * d);
        lemma_mod_bound(x, 2 * d);
        assert((2 * d) * (x / (2 * d)) == 2 * (r * d)) by (nonlinear_arith)
            requires
                r == x / (2 * d),
        ;
    } else {
        let x = -2 * n + d;
        lemma_fundamental_div_mod(x, 2 * d);
        lemma_mod_bound(x, 2 * d);
        assert((2 * d) * (x / (2 * d)) == -2 * (r * d)) by (nonlinear_arith)
            requires
                r == -(x / (2 * d)),
        ;
    }
}

/// The scale the shim applies to `d`, in thousandths.
fn effective_scale_of(d: &DisplayInfo) -> (r: u32)
    ensures
        r == effective_scale(*d),
        r >= SCALE_ONE,
{
    if d.scale_milli > SCALE_ONE {
        d.scale_milli
    } else {
        SCALE_ONE
    }
}

/// `n / d` rounded halves away from zero.
fn round_div_exec(n: i128, d: i128) -> (r: i128)
    requires
        d > 0,
        d <= 0x1_0000_0000,
        -0x1_0000_0000_0000_0000_0000 <= n <= 0x1_0000_0000_0000_0000_0000,
    ensures
        r == round_div(n as int, d as int),
{
    if n >= 0 {
        proof {
            lemma_div_pos_is_pos(2 * n + d, 2 * d);
            lemma_div_decreases(2 * n + d, 2 * d);
        }
        (2 * n + d) / (2 * d)
    } else {
        proof {
            lemma_div_pos_is_pos(-2 * n + d, 2 * d);
            lemma_div_decreases(-2 * n + d, 2 * d);
        }
        -((-2 * n + d) / (2 * d))
    }
}

/// A float-to-`i32` cast: saturated at the `i32` bounds.
fn saturate(v: i128) -> (r: i32)
    ensures
        r == saturate_i32(v as int),
{
    if v > i32::MAX as i128 {
        i32::MAX
    } else if v < i32::MIN as i128 {
        i32::MIN
    } else {
        v as i32
    }
}

/// Whether `off / (e / 1000) < extent`, i.e. `off * e < extent * 1000`.
fn scaled_below(off: i64, e: u32, extent: i32) -> (r: bool)
    requires
        -0x1_0000_0000 <= off <= 0x1_0000_0000,
    ensures
        r == (off * e < extent * SCALE_ONE),
{
    proof {
        assert(-0x1_0000_0000 * 0x1_0000_0000 <= (off as int) * (e as int) <= 0x1_0000_0000
            * 0x1_0000_0000) by (nonlinear_arith)
            requires
                -0x1_0000_0000 <= off <= 0x1_0000_0000,
                0 <= e <= 0xffff_ffff,
        ;
        assert(-0x1_0000_0000_0000 <= (extent as int) * 1000 <= 0x1_0000_0000_0000);
    }
    (off as i128) * (e as i128) < (extent as i128) * 1000i128
}

/// Index of the display whose LOGICAL rect contains the logical point, or
/// `None` for a point in a gap between displays or off the desktop.
pub fn display_at_logical_point(displays: &[DisplayInfo], x: i32, y: i32) -> (r: Option<usize>)
    ensures
        r matches Some(i) ==> i < displays@.len() && in_logical_rect(displays@[i as int], x as int, y as int),
        r matches Some(i) ==> forall|j: int|
            0 <= j < i ==> !in_logical_rect(#[trigger] displays@[j], x as int, y as int),
        r is None ==> forall|j: int|
            0 <= j < displays@.len() ==> !in_logical_rect(#[trigger] displays@[j], x as int, y as int),
{
    let mut i: usize = 0;
    while i < displays.len()
        invariant
            i <= displays@.len(),
            forall|j: int| 0 <= j < i ==> !in_logical_rect(#[trigger] displays@[j], x as int, y as int),
        decreases displays@.len() - i,
    {
        let d = &displays[i];
        let e = effective_scale_of(d);
        if x >= d.x && y >= d.y && scaled_below(x as i64 - d.x as i64, e, d.width) && scaled_below(
            y as i64 - d.y as i64,
            e,
            d.height,
        ) {
            return Some(i);
        }
        i = i + 1;
    }
    None
}

/// One axis of `to_info_space` on a scaled display.
fn to_info_axis(o: i32, v: i32, e: u32) -> (r: i32)
    requires
        to_info_fits(o as int, v as int, e as int),
    ensures
        r == to_info_coord(o as int, v as int, e as int),
{
    let off = v - o;
    proof {
        assert(-0x8000_0000 * 0x1_0000_0000 <= (off as int) * (e as int) <= 0x8000_0000
            * 0x1_0000_0000) by (nonlinear_arith)
            requires
                -0x8000_0000 <= off <= 0x8000_0000,
                0 <= e <= 0xffff_ffff,
        ;
    }
    let scaled = round_div_exec(off as i128 * e as i128, SCALE_ONE as i128);
    o + saturate(scaled)
}

/// Convert a logical point on `d` into the info-space coordinate the shim
/// maps back to it.
pub fn to_info_space(d: &DisplayInfo, x: i32, y: i32) -> (r: (i32, i32))
    requires
        is_scaled(*d) ==> to_info_fits(d.x as int, x as int, d.scale_milli as int) && to_info_fits(
            d.y as int,
            y as int,
            d.scale_milli as int,
        ),
    ensures
        (r.0 as int, r.1 as int) == spec_to_info_space(*d, x as int, y as int),
{
    let s = effective_scale_of(d);
    if s == SCALE_ONE {
        return (x, y);
    }
    (to_info_axis(d.x, x, s), to_info_axis(d.y, y, s))
}

/// One axis of `from_info_space` on a scaled display, inside its guard.
fn from_info_axis(o: i32, v: i32, extent: i32, e: u32) -> (r: i32)
    requires
        e > SCALE_ONE,
        o <= v,
        v < o + extent,
    ensures
        r == o + round_div((v - o) * SCALE_ONE, e as int),
{
    let off = v - o;
    let back = round_div_exec(off as i128 * SCALE_ONE as i128, e as i128);
    proof {
        let n = (off as int) * (SCALE_ONE as int);
        let r = round_div(n, e as int);
        lemma_round_div_close(n, e as int);
        assert(0 <= r <= off) by (nonlinear_arith)
            requires
                2 * (n - r * e) <= e,
                2 * (r * e - n) <= e,
                n == off * 1000,
                e > 1000,
                off >= 0,
        ;
    }
    o + back as i32
}

/// Convert a cursor position the host reported back into logical points.
/// The host multiplies by the armed display's scale whenever its own pointer
/// sits on that display, so this inverts exactly when the shim would have
/// converted: a scaled display and a value inside its guard.
pub fn from_info_space(d: &DisplayInfo, x: i32, y: i32) -> (r: (i32, i32))
    requires
        from_info_fits(*d, x as int, y as int),
    ensures
        (r.0 as int, r.1 as int) == spec_from_info_space(*d, x as int, y as int),
{
    let s = effective_scale_of(d);
    if s == SCALE_ONE {
        return (x, y);
    }
    let inside = x >= d.x && y >= d.y && x < d.x + d.width && y < d.y + d.height;
    if !inside {
        return (x, y);
    }
    (from_info_axis(d.x, x, d.width, s), from_info_axis(d.y, y, d.height, s))
}

/// Whether `to_info_space(d, x, y)` stays within `i32`, i.e. whether its
/// precondition holds; callers that cannot prove it test it first.
pub fn to_info_space_in_range(d: &DisplayInfo, x: i32, y: i32) -> (r: bool)
    ensures
        r == (is_scaled(*d) ==> to_info_fits(d.x as int, x as int, d.scale_milli as int) && to_info_fits(
            d.y as int,
            y as int,
            d.scale_milli as int,
        )),
{
    let s = effective_scale_of(d);
    if s == SCALE_ONE {
        return true;
    }
    axis_in_range(d.x, x, s) && axis_in_range(d.y, y, s)
}

fn axis_in_range(o: i32, v: i32, e: u32) -> (r: bool)
    ensures
        r == to_info_fits(o as int, v as int, e as int),
{
    let off = v as i64 - o as i64;
    if off < i32::MIN as i64 || off > i32::MAX as i64 {
        return false;
    }
    proof {
        assert(-0x8000_0000 * 0x1_0000_0000 <= (off as int) * (e as int) <= 0x8000_0000
            * 0x1_0000_0000) by (nonlinear_arith)
            requires
                -0x8000_0000 <= off <= 0x8000_0000,
                0 <= e <= 0xffff_ffff,
        ;
    }
    let scaled = round_div_exec(off as i128 * e as i128, SCALE_ONE as i128);
    let total = o as i128 + saturate(scaled) as i128;
    i32::MIN as i128 <= total && total <= i32::MAX as i128
}

/// Whether `from_info_space(d, x, y)` stays within `i32`, i.e. whether its
/// precondition holds; callers that cannot prove it test it first.
pub fn from_info_space_in_range(d: &DisplayInfo, x: i32, y: i32) -> (r: bool)
    ensures
        r == from_info_fits(*d, x as int, y as int),
{
    if d.scale_milli <= SCALE_ONE || x < d.x || y < d.y {
        return true;
    }
    let right = d.x as i64 + d.width as i64;
    if right < i32::MIN as i64 || right > i32::MAX as i64 {
        return false;
    }
    if (x as i64) >= right {
        return true;
    }
    let bottom = d.y as i64 + d.height as i64;
    i32::MIN as i64 <= bottom && bottom <= i32::MAX as i64
}

/// Whether scaling the offset `off` by `e` thousandths and rounding to the
/// nearest integer did not round it down.
pub open spec fn scaled_without_rounding_down(off: int, e: int) -> bool {
    round_div(off * e, SCALE_ONE as int) * SCALE_ONE >= off * e
}

/// One axis of the round trip through the shim: with the sent coordinate
/// inside the guard, the shim gives the logical coordinate back exactly
/// when the scaled offset was not rounded down.
proof fn lemma_axis_through_shim(o: int, v: int, e: int, extent: int)
    requires
        e > SCALE_ONE,
        v >= o,
        o <= to_info_coord(o, v, e) < o + extent,
        extent <= i32::MAX,
    ensures
        (o + (to_info_coord(o, v, e) - o) * SCALE_ONE / e == v) <==> scaled_without_rounding_down(
            v - o,
            e,
        ),
{
    let a = v - o;
    let n = a * e;
    let r = round_div(n, 1000);
    assert(0 <= n) by (nonlinear_arith)
        requires
            a >= 0,
            e > 0,
            n == a * e,
    ;
    lemma_div_pos_is_pos(2 * n + 1000, 2000);
    assert(r >= 0);
    assert(saturate_i32(r) == r);
    lemma_round_div_close(n, 1000);
    let m = r * 1000;
    let q = m / e;
    lemma_fundamental_div_mod(m, e);
    lemma_mod_bound(m, e);
    if m >= n {
        lemma_fundamental_div_mod_converse(m, e, a, m - n);
        assert(q == a);
    } else {
        assert(q < a) by (nonlinear_arith)
            requires
                m == e * q + m % e,
                0 <= m % e,
                m < n,
                n == a * e,
                e > 0,
        ;
    }
}

/// Arming the display and sending its info-space coordinate lands on the
/// logical target: for a point in the display's logical rect whose
/// info-space coordinate lies inside the shim's guard, the shim maps it back
/// to the point exactly when neither scaled offset was rounded down (always,
/// on an unscaled display).
pub proof fn law_round_trip_through_the_shim(d: DisplayInfo, x: int, y: int)
    requires
        in_logical_rect(d, x, y),
        is_scaled(d) ==> in_guard(d, spec_to_info_space(d, x, y).0, spec_to_info_space(d, x, y).1),
    ensures
        ({
            let (wx, wy) = spec_to_info_space(d, x, y);
            host_shim(d, wx, wy) == (x, y) <==> (is_scaled(d) ==> scaled_without_rounding_down(
                x - d.x,
                d.scale_milli as int,
            ) && scaled_without_rounding_down(y - d.y, d.scale_milli as int))
        }),
{
    if is_scaled(d) {
        lemma_axis_through_shim(d.x as int, x, d.scale_milli as int, d.width as int);
        lemma_axis_through_shim(d.y as int, y, d.scale_milli as int, d.height as int);
    }
}

/// One axis on a display with a whole-number scale: the scaled offset is
/// exact, so the sent coordinate lies inside the guard and was not rounded
/// down.
proof fn lemma_axis_whole_scale(o: int, v: int, e: int, extent: int)
    requires
        e > SCALE_ONE,
        e % (SCALE_ONE as int) == 0,
        v >= o,
        (v - o) * e < extent * SCALE_ONE,
        extent <= i32::MAX,
    ensures
        o <= to_info_coord(o, v, e) < o + extent,
        scaled_without_rounding_down(v - o, e),
{
    let a = v - o;
    let k = e / 1000;
    lemma_fundamental_div_mod(e, 1000);
    let n = a * e;
    assert(n == (a * k) * 1000 && a * k >= 0) by (nonlinear_arith)
        requires
            e == 1000 * k,
            n == a * e,
            a >= 0,
            k >= 1,
    ;
    lemma_round_div_near(n, 1000, a * k);
    assert(a * k < extent);
    assert(saturate_i32(a * k) == a * k);
}

/// On a display whose scale is a whole number (or that is unscaled), every
/// point of its logical rect is sent inside the shim's guard and the shim
/// maps it back to the point.
pub proof fn law_whole_scales_round_trip(d: DisplayInfo, x: int, y: int)
    requires
        in_logical_rect(d, x, y),
        effective_scale(d) % (SCALE_ONE as int) == 0,
    ensures
        ({
            let (wx, wy) = spec_to_info_space(d, x, y);
            &&& is_scaled(d) ==> in_guard(d, wx, wy)
            &&& host_shim(d, wx, wy) == (x, y)
        }),
{
    if is_scaled(d) {
        lemma_axis_whole_scale(d.x as int, x, d.scale_milli as int, d.width as int);
        lemma_axis_whole_scale(d.y as int, y, d.scale_milli as int, d.height as int);
        law_round_trip_through_the_shim(d, x, y);
    }
}

/// One axis of reading back a sent coordinate.
proof fn lemma_axis_read_back(o: int, v: int, e: int, extent: int)
    requires
        e > SCALE_ONE,
        o <= to_info_coord(o, v, e) < o + extent,
        extent <= i32::MAX,
    ensures
        o + round_div((to_info_coord(o, v, e) - o) * SCALE_ONE, e) == v,
{
    let a = v - o;
    let r1 = round_div(a * e, 1000);
    lemma_round_div_close(a * e, 1000);
    assert(saturate_i32(r1) == r1);
    lemma_round_div_near(r1 * 1000, e, a);
}

/// Reading back what was sent is exact: whenever the info-space coordinate
/// of a logical point lands inside the display's guard (or the display is
/// unscaled), converting it back gives the point again.
pub proof fn law_from_info_space_inverts_to_info_space(d: DisplayInfo, x: int, y: int)
    requires
        is_scaled(d) ==> in_guard(d, spec_to_info_space(d, x, y).0, spec_to_info_space(d, x, y).1),
        d.width <= i32::MAX,
        d.height <= i32::MAX,
    ensures
        ({
            let (wx, wy) = spec_to_info_space(d, x, y);
            spec_from_info_space(d, wx, wy) == (x, y)
        }),
{
    if is_scaled(d) {
        lemma_axis_read_back(d.x as int, x, d.scale_milli as int, d.width as int);
        lemma_axis_read_back(d.y as int, y, d.scale_milli as int, d.height as int);
    }
}

} // verus!
