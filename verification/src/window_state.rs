//! Main-window geometry: which saved bounds are sensible, what to save (keeping the
//! restored geometry while maximized), which monitor a saved window goes back to, and
//! where to put it so it stays on screen. Reading and writing the store and talking
//! to the window system is the application's part.

use vstd::prelude::*;

verus! {

/// The store's schema version.
pub const SCHEMA_VERSION: u32 = 1;

/// Smallest sensible saved width.
pub const MIN_WIDTH: u32 = 720;

/// Smallest sensible saved height.
pub const MIN_HEIGHT: u32 = 520;

/// Largest sensible saved dimension.
pub const MAX_DIMENSION: u32 = 16000;

/// Saved main-window bounds.
#[derive(Clone, Copy, Debug, PartialEq, Eq, Structural)]
pub struct MainWindowState {
    pub x: i32,
    pub y: i32,
    pub width: u32,
    pub height: u32,
    pub maximized: bool,
}

impl MainWindowState {
    /// Bounds from a window's outer position and size.
    pub fn from_bounds(x: i32, y: i32, width: u32, height: u32, maximized: bool) -> (s: Self)
        ensures
            s == (MainWindowState { x, y, width, height, maximized }),
    {
        MainWindowState { x, y, width, height, maximized }
    }

    /// Whether the saved size is within the sensible range.
    pub fn has_valid_bounds(self) -> (b: bool)
        ensures
            b == (MIN_WIDTH <= self.width <= MAX_DIMENSION && MIN_HEIGHT <= self.height
                <= MAX_DIMENSION),
    {
        self.width >= MIN_WIDTH && self.height >= MIN_HEIGHT && self.width <= MAX_DIMENSION
            && self.height <= MAX_DIMENSION
    }
}

/// The persisted store: a schema version and the main window's bounds, if saved.
#[derive(Clone, Copy, Debug, PartialEq, Eq, Structural)]
pub struct WindowStateStore {
    pub schema_version: u32,
    pub main: Option<MainWindowState>,
}

impl Default for WindowStateStore {
    fn default() -> (s: Self)
        ensures
            s.schema_version == SCHEMA_VERSION,
            s.main is None,
    {
        WindowStateStore { schema_version: SCHEMA_VERSION, main: None }
    }
}

/// The schema version a store without one is read as.
pub fn default_schema_version() -> (v: u32)
    ensures
        v == SCHEMA_VERSION,
{
    SCHEMA_VERSION
}

pub open spec fn rects_intersect_spec(a: (int, int, int, int), b: (int, int, int, int)) -> bool {
    a.0 < b.0 + b.2 && a.0 + a.2 > b.0 && a.1 < b.1 + b.3 && a.1 + a.3 > b.1
}

/// Whether two (x, y, width, height) rectangles overlap (touching edges do not).
pub fn rects_intersect(a: (i64, i64, i64, i64), b: (i64, i64, i64, i64)) -> (r: bool)
    requires
        i64::MIN <= b.0 + b.2 <= i64::MAX,
        i64::MIN <= a.0 + a.2 <= i64::MAX,
        i64::MIN <= b.1 + b.3 <= i64::MAX,
        i64::MIN <= a.1 + a.3 <= i64::MAX,
    ensures
        r == rects_intersect_spec(
            (a.0 as int, a.1 as int, a.2 as int, a.3 as int),
            (b.0 as int, b.1 as int, b.2 as int, b.3 as int),
        ),
{
    let (ax, ay, aw, ah) = a;
    let (bx, by, bw, bh) = b;
    ax < bx + bw && ax + aw > bx && ay < by + bh && ay + ah > by
}

/// Whether saved bounds overlap a monitor at `origin` of size `size`.
pub fn bounds_intersect_monitor(state: MainWindowState, origin: (i32, i32), size: (u32, u32)) -> (r: bool)
    ensures
        r == rects_intersect_spec(
            (state.x as int, state.y as int, state.width as int, state.height as int),
            (origin.0 as int, origin.1 as int, size.0 as int, size.1 as int),
        ),
{
    rects_intersect(
        (state.x as i64, state.y as i64, state.width as i64, state.height as i64),
        (origin.0 as i64, origin.1 as i64, size.0 as i64, size.1 as i64),
    )
}

pub open spec fn clamp_int(v: int, lo: int, hi: int) -> int {
    if v < lo {
        lo
    } else if v > hi {
        hi
    } else {
        v
    }
}

/// The farthest a window of length `w` may start on a screen of length `s` at `o`.
pub open spec fn max_start(o: int, s: int, w: int) -> int {
    o + if s - w > 0 {
        s - w
    } else {
        0
    }
}

/// Clamp a window's position so it lies within the monitor (pinned to the monitor's
/// origin when the window is larger than the screen).
pub fn clamp_position_to_screen(
    position: (i32, i32),
    origin: (i32, i32),
    screen: (i32, i32),
    window: (i32, i32),
) -> (r: (i32, i32))
    requires
        i32::MIN <= screen.0 - window.0 <= i32::MAX,
        i32::MIN <= screen.1 - window.1 <= i32::MAX,
        max_start(origin.0 as int, screen.0 as int, window.0 as int) <= i32::MAX,
        max_start(origin.1 as int, screen.1 as int, window.1 as int) <= i32::MAX,
    ensures
        r.0 == clamp_int(
            position.0 as int,
            origin.0 as int,
            max_start(origin.0 as int, screen.0 as int, window.0 as int),
        ),
        r.1 == clamp_int(
            position.1 as int,
            origin.1 as int,
            max_start(origin.1 as int, screen.1 as int, window.1 as int),
        ),
{
    let (px, py) = position;
    let (ox, oy) = origin;
    let (sw, sh) = screen;
    let (ww, wh) = window;
    let dx = sw - ww;
    let dy = sh - wh;
    let max_x = ox + if dx > 0 {
        dx
    } else {
        0
    };
    let max_y = oy + if dy > 0 {
        dy
    } else {
        0
    };
    let x = if px < ox {
        ox
    } else if px > max_x {
        max_x
    } else {
        px
    };
    let y = if py < oy {
        oy
    } else if py > max_y {
        max_y
    } else {
        py
    };
    (x, y)
}

/// A clamped position always lies within the monitor's span (from its origin to the
/// farthest start), and a window already on screen is left where it is.
pub proof fn lemma_clamp_on_screen(p: int, o: int, s: int, w: int)
    ensures
        o <= clamp_int(p, o, max_start(o, s, w)) <= max_start(o, s, w),
        o <= p <= max_start(o, s, w) ==> clamp_int(p, o, max_start(o, s, w)) == p,
{
}


// ─────────────────────────────────────────────────────────────────────────────
// Saving and restoring the main window
// ─────────────────────────────────────────────────────────────────────────────

pub open spec fn valid_bounds_spec(s: MainWindowState) -> bool {
    MIN_WIDTH <= s.width <= MAX_DIMENSION && MIN_HEIGHT <= s.height <= MAX_DIMENSION
}

/// The saved bounds a store yields: its main-window entry, when that entry is sensible.
pub fn saved_main_state(store: &WindowStateStore) -> (r: Option<MainWindowState>)
    ensures
        r == match store.main {
            Some(m) => if valid_bounds_spec(m) {
                Some(m)
            } else {
                None
            },
            None => None,
        },
{
    match store.main {
        Some(m) => {
            if m.has_valid_bounds() {
                Some(m)
            } else {
                None
            }
        },
        None => None,
    }
}

/// What to save for the window's current bounds: while maximized, the previously
/// saved geometry is kept (only the maximized flag is new); bounds outside the
/// sensible range are not saved at all.
pub open spec fn bounds_to_save_spec(
    current: MainWindowState,
    previous: Option<MainWindowState>,
) -> Option<MainWindowState> {
    let next = if current.maximized {
        match previous {
            Some(p) => MainWindowState { x: p.x, y: p.y, width: p.width, height: p.height, ..current },
            None => current,
        }
    } else {
        current
    };
    if valid_bounds_spec(next) {
        Some(next)
    } else {
        None
    }
}

/// The bounds to persist for a window (see `bounds_to_save_spec`); `previous` is the
/// sensible saved entry, if any.
pub fn bounds_to_save(current: MainWindowState, previous: Option<MainWindowState>) -> (r: Option<MainWindowState>)
    ensures
        r == bounds_to_save_spec(current, previous),
{
    let mut next = current;
    if current.maximized {
        if let Some(p) = previous {
            next.x = p.x;
            next.y = p.y;
            next.width = p.width;
            next.height = p.height;
        }
    }
    if next.has_valid_bounds() {
        Some(next)
    } else {
        None
    }
}

/// The index of the first monitor (origin, size) that saved bounds overlap.
pub open spec fn first_overlapping(
    state: MainWindowState,
    monitors: Seq<((i32, i32), (u32, u32))>,
    i: int,
) -> Option<int>
    decreases monitors.len() - i,
{
    if i < 0 || i >= monitors.len() {
        None
    } else if rects_intersect_spec(
        (state.x as int, state.y as int, state.width as int, state.height as int),
        (monitors[i].0.0 as int, monitors[i].0.1 as int, monitors[i].1.0 as int, monitors[i].1.1 as int),
    ) {
        Some(i)
    } else {
        first_overlapping(state, monitors, i + 1)
    }
}

/// The monitor a restored window is placed on: the first one its saved bounds
/// overlap, else the first monitor; none when there are no monitors.
pub fn pick_monitor(state: MainWindowState, monitors: &[((i32, i32), (u32, u32))]) -> (r: Option<usize>)
    ensures
        r == match first_overlapping(state, monitors@, 0) {
            Some(i) => Some(i as usize),
            None => if monitors@.len() > 0 {
                Some(0usize)
            } else {
                None
            },
        },
{
    let mut i: usize = 0;
    while i < monitors.len()
        invariant
            i <= monitors.len(),
            first_overlapping(state, monitors@, 0) == first_overlapping(state, monitors@, i as int),
        decreases monitors.len() - i,
    {
        let (origin, size) = monitors[i];
        if bounds_intersect_monitor(state, origin, size) {
            return Some(i);
        }
        i = i + 1;
    }
    if monitors.len() > 0 {
        Some(0)
    } else {
        None
    }
}

} // verus!
