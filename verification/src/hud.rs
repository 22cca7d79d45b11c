//! HUD placement: where the floating status pill sits on its monitor.

use vstd::prelude::*;

verus! {

/// Gap between the pill and the bottom edge of the monitor, in physical pixels.
pub const BOTTOM_MARGIN: i32 = 64;

/// Integer halving rounded toward zero (Rust's `/ 2` on signed integers).
pub open spec fn half_toward_zero(d: int) -> int {
    if d >= 0 {
        d / 2
    } else {
        -((-d) / 2)
    }
}

pub open spec fn bottom_center_spec(origin: (int, int), screen: (int, int), win: (int, int), margin: int) -> (int, int) {
    let x = origin.0 + half_toward_zero(screen.0 - win.0);
    let y = origin.1 + screen.1 - win.1 - margin;
    (if x > origin.0 {
        x
    } else {
        origin.0
    }, if y > origin.1 {
        y
    } else {
        origin.1
    })
}

/// Centered along the bottom edge, `margin` above it, and never off the top or left
/// of the monitor.
pub fn bottom_center_pos(origin: (i32, i32), screen: (i32, i32), win: (i32, i32), margin: i32) -> (r: (i32, i32))
    requires
        i32::MIN <= screen.0 - win.0 <= i32::MAX,
        i32::MIN <= origin.0 + half_toward_zero(screen.0 - win.0) <= i32::MAX,
        i32::MIN <= origin.1 + screen.1 <= i32::MAX,
        i32::MIN <= origin.1 + screen.1 - win.1 <= i32::MAX,
        i32::MIN <= origin.1 + screen.1 - win.1 - margin <= i32::MAX,
    ensures
        (r.0 as int, r.1 as int) == bottom_center_spec(
            (origin.0 as int, origin.1 as int),
            (screen.0 as int, screen.1 as int),
            (win.0 as int, win.1 as int),
            margin as int,
        ),
{
    let (ox, oy) = origin;
    let (sw, sh) = screen;
    let (ww, wh) = win;
    let d: i64 = (sw as i64) - (ww as i64);
    let half: i64 = if d >= 0 {
        d / 2
    } else {
        -((-d) / 2)
    };
    let x: i32 = ((ox as i64) + half) as i32;
    let y: i32 = oy + sh - wh - margin;
    (if x > ox {
        x
    } else {
        ox
    }, if y > oy {
        y
    } else {
        oy
    })
}

} // verus!
