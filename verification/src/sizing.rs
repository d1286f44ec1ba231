//! How large a picture is decoded and how large and where the window opens.

use crate::single::Single;
use vstd::prelude::*;

verus! {

pub open spec fn min_of(a: nat, b: nat) -> nat {
    if a < b {
        a
    } else {
        b
    }
}

pub open spec fn at_least_one(n: nat) -> nat {
    if n == 0 {
        1
    } else {
        n
    }
}

/// The factor that brings `w` by `h` down to `max`: the smaller of `max / w` and
/// `max / h`, in single precision. A side of zero does not limit it.
pub open spec fn fit_scale(w: nat, h: nat, max: nat) -> Single {
    let for_width = Single::of_int(max).quotient(Single::of_int(w));
    let for_height = Single::of_int(max).quotient(Single::of_int(h));
    if w == 0 || (h != 0 && for_height.below(for_width)) {
        for_height
    } else {
        for_width
    }
}

/// One side under the factor: the nearest whole number of pixels, never above the
/// limit or the side itself, and one pixel at least.
pub open spec fn fit_side(side: nat, scale: Single, max: nat) -> nat {
    at_least_one(
        min_of(Single::of_int(side).product(scale).to_nearest(), min_of(side, max)),
    )
}

/// The size that fits `w` by `h` within `max`, if they do not fit already.
pub open spec fn fitted(w: nat, h: nat, max: nat) -> Option<(nat, nat)> {
    if w <= max && h <= max {
        None
    } else {
        let scale = fit_scale(w, h, max);
        Some((fit_side(w, scale, max), fit_side(h, scale, max)))
    }
}

fn scaled_side(side: u32, scale: Single, max: u32) -> (r: u32)
    requires
        scale.valid(),
        -56 <= scale.exponent <= 10,
        side != 0 && scale.mantissa != 0 ==> Single::of_int(side as nat).exponent
            + scale.exponent <= 5,
    ensures
        r == fit_side(side as nat, scale, max as nat),
{
    let product = Single::from_u32(side).times(scale);
    let nearest = product.round_to_u32();
    let top: u32 = if side < max {
        side
    } else {
        max
    };
    let kept: u32 = if nearest < top {
        nearest
    } else {
        top
    };
    if kept == 0 {
        1
    } else {
        kept
    }
}

/// Target dimensions that fit `(w, h)` within `max` preserving the aspect, or `None` if
/// they are within it already.
pub fn fit_dims(w: u32, h: u32, max: u32) -> (r: Option<(u32, u32)>)
    ensures
        r is Some <==> w > max || h > max,
        match (r, fitted(w as nat, h as nat, max as nat)) {
            (Some((nw, nh)), Some((sw, sh))) => nw == sw && nh == sh,
            (None, None) => true,
            _ => false,
        },
{
    if w <= max && h <= max {
        return None;
    }
    let limit = Single::from_u32(max);
    let scale: Single;
    if w == 0 {
        scale = limit.over(Single::from_u32(h));
    } else if h == 0 {
        scale = limit.over(Single::from_u32(w));
    } else {
        let for_width = limit.over(Single::from_u32(w));
        let for_height = limit.over(Single::from_u32(h));
        proof {
            crate::single::lemma_order(for_height, for_width);
        }
        scale =
        if for_height.is_below(for_width) {
            for_height
        } else {
            for_width
        };
    }
    Some((scaled_side(w, scale, max), scaled_side(h, scale, max)))
}

/// A monitor's size and the position of its top left corner, in physical pixels.
#[derive(Clone, Copy, Debug, PartialEq, Eq, Structural)]
pub struct Monitor {
    pub w: u32,
    pub h: u32,
    pub x: i32,
    pub y: i32,
}

/// Four fifths in single precision.
pub open spec fn four_fifths() -> Single {
    Single { mantissa: 13_421_773, exponent: -24i32 }
}

/// The largest size of the ratio `aspect_w / aspect_h` within four fifths of the
/// monitor, before rounding: the height decides where the box is wider than the ratio.
pub open spec fn boxed(aspect_w: nat, aspect_h: nat, mon_w: nat, mon_h: nat) -> (Single, Single) {
    let aspect = Single::of_int(aspect_w).quotient(Single::of_int(aspect_h));
    let box_w = Single::of_int(mon_w).product(four_fifths());
    let box_h = Single::of_int(mon_h).product(four_fifths());
    if mon_w == 0 || mon_h == 0 {
        (Single::zero(), Single::zero())
    } else if aspect.below(box_w.quotient(box_h)) {
        (box_h.product(aspect), box_h)
    } else {
        (box_w, box_w.quotient(aspect))
    }
}

/// The window size in whole pixels, one at least.
pub open spec fn window_size(aspect_w: nat, aspect_h: nat, mon_w: nat, mon_h: nat) -> (nat, nat) {
    let (w, h) = boxed(aspect_w, aspect_h, mon_w, mon_h);
    (
        at_least_one(min_of(w.to_nearest(), u32::MAX as nat)),
        at_least_one(min_of(h.to_nearest(), u32::MAX as nat)),
    )
}

/// Half of a difference, towards zero.
pub open spec fn half(difference: int) -> int {
    if difference < 0 {
        -((-difference) / 2)
    } else {
        difference / 2
    }
}

/// The corner that centers a length of `inner` on one of `outer` that starts at `from`.
pub open spec fn centered(from: int, outer: nat, inner: nat) -> int {
    from + half(outer - inner)
}

/// The window for a ratio can be placed on the monitor with coordinates that an `i32` holds.
pub open spec fn placeable(aspect_w: nat, aspect_h: nat, monitor: Monitor) -> bool {
    let (w, h) = window_size(aspect_w, aspect_h, monitor.w as nat, monitor.h as nat);
    &&& monitor.w <= i32::MAX
    &&& monitor.h <= i32::MAX
    &&& w <= i32::MAX
    &&& h <= i32::MAX
    &&& i32::MIN <= centered(monitor.x as int, monitor.w as nat, w) <= i32::MAX
    &&& i32::MIN <= centered(monitor.y as int, monitor.h as nat, h) <= i32::MAX
}

fn center(from: i32, outer: u32, inner: u32) -> (r: i64)
    ensures
        r == centered(from as int, outer as nat, inner as nat),
{
    if outer < inner {
        from as i64 - ((inner - outer) / 2) as i64
    } else {
        from as i64 + ((outer - inner) / 2) as i64
    }
}

/// The window size for a ratio on a monitor of the given size.
fn window_dims(aspect_w: u32, aspect_h: u32, mon_w: u32, mon_h: u32) -> (r: (u32, u32))
    requires
        aspect_h != 0,
    ensures
        (r.0 as nat, r.1 as nat) == window_size(
            aspect_w as nat,
            aspect_h as nat,
            mon_w as nat,
            mon_h as nat,
        ),
{
    let mut w: u32 = 0;
    let mut h: u32 = 0;
    if mon_w == 0 || mon_h == 0 {
        proof {
            vstd::arithmetic::power2::lemma2_to64();
        }
    } else {
        let ratio = Single { mantissa: 13_421_773, exponent: -24i32 };
        let aspect = Single::from_u32(aspect_w).over(Single::from_u32(aspect_h));
        let box_w = Single::from_u32(mon_w).times(ratio);
        let box_h = Single::from_u32(mon_h).times(ratio);
        let box_ratio = box_w.over(box_h);
        proof {
            crate::single::lemma_order(aspect, box_ratio);
        }
        if aspect.is_below(box_ratio) {
            w = box_h.times(aspect).round_to_u32();
            h = box_h.round_to_u32();
        } else {
            w = box_w.round_to_u32();
            h = box_w.over(aspect).round_to_u32();
        }
    }
    if w == 0 {
        w = 1;
    }
    if h == 0 {
        h = 1;
    }
    (w, h)
}

/// Whether the window for a ratio can be placed on the monitor with coordinates that an
/// `i32` holds.
pub fn is_placeable(aspect_w: u32, aspect_h: u32, monitor: Monitor) -> (r: bool)
    requires
        aspect_h != 0,
    ensures
        r == placeable(aspect_w as nat, aspect_h as nat, monitor),
{
    let (w, h) = window_dims(aspect_w, aspect_h, monitor.w, monitor.h);
    let x: i64 = center(monitor.x, monitor.w, w);
    let y: i64 = center(monitor.y, monitor.h, h);
    let (least, most): (i64, i64) = (i32::MIN as i64, i32::MAX as i64);
    monitor.w as i64 <= most && monitor.h as i64 <= most && w as i64 <= most && h as i64 <= most
        && least <= x && x <= most && least <= y && y <= most
}

/// Largest `(w, h)` of the ratio `aspect_w / aspect_h` fitting in four fifths of the
/// monitor, centered on it: `(w, h, x, y)` in physical pixels. Positions may be negative
/// where several monitors are in use.
pub fn fit_80_dims(
    aspect_w: u32,
    aspect_h: u32,
    mon_w: u32,
    mon_h: u32,
    mon_x: i32,
    mon_y: i32,
) -> (r: (u32, u32, i32, i32))
    requires
        aspect_h != 0,
        placeable(
            aspect_w as nat,
            aspect_h as nat,
            (Monitor { w: mon_w, h: mon_h, x: mon_x, y: mon_y }),
        ),
    ensures
        (r.0 as nat, r.1 as nat) == window_size(
            aspect_w as nat,
            aspect_h as nat,
            mon_w as nat,
            mon_h as nat,
        ),
        r.2 == centered(mon_x as int, mon_w as nat, r.0 as nat),
        r.3 == centered(mon_y as int, mon_h as nat, r.1 as nat),
{
    let (w, h) = window_dims(aspect_w, aspect_h, mon_w, mon_h);
    (w, h, center(mon_x, mon_w, w) as i32, center(mon_y, mon_h, h) as i32)
}

/// Where the window goes for a picture of the given size, or `None` if it stays as it
/// is: in fullscreen, maximized, for a picture without a height, or while the monitor is
/// not known.
pub fn fit_window_to_aspect(
    monitor: Option<Monitor>,
    maximized: bool,
    aspect_w: u32,
    aspect_h: u32,
    fullscreen: bool,
) -> (r: Option<(u32, u32, i32, i32)>)
    requires
        monitor matches Some(m) ==> !fullscreen && !maximized && aspect_h != 0 ==> placeable(
            aspect_w as nat,
            aspect_h as nat,
            m,
        ),
    ensures
        r is Some <==> !fullscreen && !maximized && aspect_h != 0 && monitor is Some,
        r matches Some((w, h, x, y)) ==> {
            let m = monitor->0;
            &&& (w as nat, h as nat) == window_size(
                aspect_w as nat,
                aspect_h as nat,
                m.w as nat,
                m.h as nat,
            )
            &&& x == centered(m.x as int, m.w as nat, w as nat)
            &&& y == centered(m.y as int, m.h as nat, h as nat)
        },
{
    if fullscreen || aspect_h == 0 || maximized {
        return None;
    }
    match monitor {
        None => None,
        Some(m) => Some(fit_80_dims(aspect_w, aspect_h, m.w, m.h, m.x, m.y)),
    }
}

} // verus!
