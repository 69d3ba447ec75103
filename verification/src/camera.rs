//! The 2D camera viewport.
//!
//! Zoom state is the natural logarithm of the linear scale, kept in
//! fixed-point milli-units, so one scroll tick changes it linearly with the
//! elapsed frame time and the linear scale changes exponentially. The host
//! application owns the transcendental step: it computes
//! `scale = exp(log_scale)` in its own floating-point code and hands the
//! resulting positive fixed-point scale back in for the screen-to-world
//! transform. Panning moves only the planar translation; the depth
//! component stays at a fixed constant that keeps the camera layered above
//! the background map.

use vstd::prelude::*;
use crate::MILLI;

verus! {

/// Zoom speed in log-scale milli-units per second (`2.0`).
pub const CAMERA_SPEED: i64 = 2000;

/// The fixed camera depth in milli-units (`999.0`); pan never changes it.
pub const CAMERA_DEPTH: i64 = 999_000;

/// Largest planar translation magnitude the camera accepts, in milli-units.
pub const TRANS_LIMIT: i64 = 1_000_000_000_000;

/// Largest log-scale magnitude the camera accepts, in milli-units.
pub const LOG_SCALE_LIMIT: i64 = 1_000_000_000_000_000_000;

/// Longest frame delta accepted, in milli-seconds-of-a-second: `10^9`
/// milli-units is a million seconds.
pub const DT_LIMIT: i64 = 1_000_000_000;

/// Largest screen coordinate or window size accepted, in milli-units.
pub const SCREEN_LIMIT: i64 = 1_000_000_000;

/// Bound on every world coordinate the screen-to-world transform returns.
pub const WORLD_LIMIT: i64 = 4_000_000_000_000;

/// The camera: planar translation, fixed depth, and log-scale zoom, all in
/// milli-units.
pub struct CameraState {
    pub x: i64,
    pub y: i64,
    pub z: i64,
    pub log_scale: i64,
}

/// One zoom tick's change of `log_scale`: the zoom speed times the frame
/// delta, in milli-units.
pub open spec fn zoom_step(dt: int) -> int {
    CAMERA_SPEED * dt / 1000
}

/// The log-scale after one zoom tick: scrolling down (`scroll == -1`)
/// raises it, scrolling up lowers it.
pub open spec fn zoomed(log: int, scroll: int, dt: int) -> int {
    if scroll == -1 {
        log + zoom_step(dt)
    } else {
        log - zoom_step(dt)
    }
}

/// The log-scale after a whole frame's scroll ticks, applied in order.
pub open spec fn scrolls_applied(log: int, scrolls: Seq<i64>, dt: int) -> int
    decreases scrolls.len(),
{
    if scrolls.len() == 0 {
        log
    } else {
        scrolls_applied(zoomed(log, scrolls[0] as int, dt), scrolls.drop_first(), dt)
    }
}

/// The log-scale after `n` zoom ticks of the same sign.
pub open spec fn iter_zoom(log: int, scroll: int, dt: int, n: nat) -> int
    decreases n,
{
    if n == 0 {
        log
    } else {
        zoomed(iter_zoom(log, scroll, dt, (n - 1) as nat), scroll, dt)
    }
}

/// A screen position recentered on the window's middle.
pub open spec fn centered(pos: int, size: int) -> int {
    pos - size / 2
}

/// Fixed-point division by a positive scale, truncating toward zero as the
/// executable division does.
pub open spec fn fx_div(a: int, s: int) -> int {
    if a >= 0 {
        a * 1000 / s
    } else {
        -((-a) * 1000 / s)
    }
}

/// One axis of the inverse camera transform: recenter on the window,
/// divide by the linear scale, then add the camera translation.
pub open spec fn screen_to_world_coord(pos: int, size: int, scale: int, trans: int) -> int {
    fx_div(centered(pos, size), scale) + trans
}

/// Fixed-point division of `a` by the positive scale `s`.
fn scale_div(a: i64, s: i64) -> (r: i64)
    requires
        1 <= s,
        -WORLD_LIMIT <= a <= WORLD_LIMIT,
    ensures
        r == fx_div(a as int, s as int),
        a >= 0 ==> 0 <= r <= a * 1000,
        a <= 0 ==> a * 1000 <= r <= 0,
{
    if a >= 0 {
        let q: u64 = ((a as u64) * 1000) / (s as u64);
        proof {
            assert(q <= (a as int) * 1000) by (nonlinear_arith)
                requires
                    q == (a as int) * 1000 / (s as int),
                    s >= 1,
                    a >= 0,
            ;
        }
        q as i64
    } else {
        let m: u64 = (-a) as u64;
        let q: u64 = (m * 1000) / (s as u64);
        proof {
            assert(q <= (m as int) * 1000) by (nonlinear_arith)
                requires
                    q == (m as int) * 1000 / (s as int),
                    s >= 1,
                    m >= 0,
            ;
        }
        -(q as i64)
    }
}

impl CameraState {
    /// The camera is well formed: depth fixed, translation and log-scale
    /// within their fixed-point working ranges.
    pub open spec fn wf(self) -> bool {
        &&& self.z == CAMERA_DEPTH
        &&& -TRANS_LIMIT <= self.x <= TRANS_LIMIT
        &&& -TRANS_LIMIT <= self.y <= TRANS_LIMIT
        &&& -LOG_SCALE_LIMIT <= self.log_scale <= LOG_SCALE_LIMIT
    }

    /// A camera at the world origin with the given starting log-scale.
    pub fn new(initial_log_scale: i64) -> (r: CameraState)
        requires
            -LOG_SCALE_LIMIT <= initial_log_scale <= LOG_SCALE_LIMIT,
        ensures
            r.wf(),
            r.x == 0,
            r.y == 0,
            r.z == CAMERA_DEPTH,
            r.log_scale == initial_log_scale,
    {
        CameraState { x: 0, y: 0, z: CAMERA_DEPTH, log_scale: initial_log_scale }
    }

    /// Apply one scroll tick: adjust the log-scale by the zoom speed times
    /// the frame delta, in the direction the scroll sign picks. The scale
    /// is not clamped; callers keep the log-scale inside its working
    /// range, which spans far past any scale a viewer can use.
    pub fn zoom(&mut self, scroll: i64, dt: i64)
        requires
            old(self).wf(),
            scroll == 1 || scroll == -1,
            0 <= dt <= DT_LIMIT,
            -LOG_SCALE_LIMIT <= zoomed(old(self).log_scale as int, scroll as int, dt as int)
                <= LOG_SCALE_LIMIT,
        ensures
            final(self).wf(),
            final(self).log_scale == zoomed(old(self).log_scale as int, scroll as int, dt as int),
            final(self).x == old(self).x,
            final(self).y == old(self).y,
            final(self).z == old(self).z,
    {
        let step_u: u64 = ((CAMERA_SPEED as u64) * (dt as u64)) / 1000;
        let step: i64 = step_u as i64;
        proof {
            assert(step_u <= 2_000_000_000_000) by (nonlinear_arith)
                requires
                    step_u == 2000 * (dt as int) / 1000,
                    0 <= dt <= DT_LIMIT,
            ;
            assert(step == zoom_step(dt as int));
        }
        if scroll == -1 {
            self.log_scale = self.log_scale + step;
        } else {
            self.log_scale = self.log_scale - step;
        }
    }

    /// While the drag input is held, recenter so the point under the
    /// cursor moves to the origin: the planar translation becomes the
    /// negated cursor world position; the depth stays fixed.
    pub fn pan_to_cursor(&mut self, cursor_x: i64, cursor_y: i64)
        requires
            old(self).wf(),
            -TRANS_LIMIT <= cursor_x <= TRANS_LIMIT,
            -TRANS_LIMIT <= cursor_y <= TRANS_LIMIT,
        ensures
            final(self).wf(),
            final(self).x == -cursor_x,
            final(self).y == -cursor_y,
            final(self).z == old(self).z,
            final(self).log_scale == old(self).log_scale,
    {
        self.x = -cursor_x;
        self.y = -cursor_y;
    }

    /// While the reset input is held, snap the planar translation to the
    /// world origin exactly, leaving the fixed depth and the zoom alone.
    pub fn reset_pan(&mut self)
        requires
            old(self).wf(),
        ensures
            final(self).wf(),
            final(self).x == 0,
            final(self).y == 0,
            final(self).z == old(self).z,
            final(self).log_scale == old(self).log_scale,
    {
        self.x = 0;
        self.y = 0;
    }

    /// Map a screen position to world coordinates under the current
    /// translation and the given positive linear scale (the host computes
    /// `scale = exp(log_scale)`).
    pub fn screen_to_world(&self, pos_x: i64, pos_y: i64, win_w: i64, win_h: i64, scale: i64) -> (r:
        (i64, i64))
        requires
            self.wf(),
            1 <= scale,
            0 <= win_w <= SCREEN_LIMIT,
            0 <= win_h <= SCREEN_LIMIT,
            -SCREEN_LIMIT <= pos_x <= SCREEN_LIMIT,
            -SCREEN_LIMIT <= pos_y <= SCREEN_LIMIT,
        ensures
            r.0 == screen_to_world_coord(pos_x as int, win_w as int, scale as int, self.x as int),
            r.1 == screen_to_world_coord(pos_y as int, win_h as int, scale as int, self.y as int),
            -WORLD_LIMIT <= r.0 <= WORLD_LIMIT,
            -WORLD_LIMIT <= r.1 <= WORLD_LIMIT,
    {
        let half_w: i64 = ((win_w as u64) / 2) as i64;
        let half_h: i64 = ((win_h as u64) / 2) as i64;
        let cx: i64 = pos_x - half_w;
        let cy: i64 = pos_y - half_h;
        let wx: i64 = scale_div(cx, scale) + self.x;
        let wy: i64 = scale_div(cy, scale) + self.y;
        (wx, wy)
    }
}

proof fn lemma_scrolls_applied_push(log: int, s: Seq<i64>, x: i64, dt: int)
    ensures
        scrolls_applied(log, s.push(x), dt) == zoomed(scrolls_applied(log, s, dt), x as int, dt),
    decreases s.len(),
{
    reveal_with_fuel(scrolls_applied, 3);
    if s.len() == 0 {
        assert(s.push(x)[0] == x);
        assert(s.push(x).drop_first() =~= Seq::<i64>::empty());
    } else {
        assert(s.push(x)[0] == s[0]);
        assert(s.push(x).drop_first() =~= s.drop_first().push(x));
        lemma_scrolls_applied_push(zoomed(log, s[0] as int, dt), s.drop_first(), x, dt);
    }
}

impl CameraState {
    /// Apply one frame's camera input, in the frame's fixed order: every
    /// scroll tick in event order, then a drag recenters on the cursor's
    /// world position, then a held reset snaps the pan back to the origin.
    pub fn apply_camera_input(
        &mut self,
        scrolls: &Vec<i64>,
        dt: i64,
        pan_held: bool,
        reset_held: bool,
        cursor_x: i64,
        cursor_y: i64,
    )
        requires
            old(self).wf(),
            forall|i: int| 0 <= i < scrolls@.len() ==> #[trigger] scrolls@[i] == 1 || scrolls@[i] == -1,
            0 <= dt <= DT_LIMIT,
            -TRANS_LIMIT <= cursor_x <= TRANS_LIMIT,
            -TRANS_LIMIT <= cursor_y <= TRANS_LIMIT,
            -LOG_SCALE_LIMIT <= old(self).log_scale - scrolls@.len() * zoom_step(dt as int),
            old(self).log_scale + scrolls@.len() * zoom_step(dt as int) <= LOG_SCALE_LIMIT,
        ensures
            final(self).wf(),
            final(self).log_scale == scrolls_applied(old(self).log_scale as int, scrolls@, dt as int),
            final(self).x == if reset_held {
                0int
            } else if pan_held {
                -cursor_x as int
            } else {
                old(self).x as int
            },
            final(self).y == if reset_held {
                0int
            } else if pan_held {
                -cursor_y as int
            } else {
                old(self).y as int
            },
            final(self).z == old(self).z,
    {
        let ghost log0 = self.log_scale as int;
        let ghost n = scrolls@.len() as int;
        let ghost step = zoom_step(dt as int);
        proof {
            assert(step >= 0) by (nonlinear_arith)
                requires
                    step == 2000 * (dt as int) / 1000,
                    dt >= 0,
            ;
            assert(scrolls@.take(0) =~= Seq::<i64>::empty());
        }
        let mut i: usize = 0;
        while i < scrolls.len()
            invariant
                i <= scrolls@.len(),
                n == scrolls@.len(),
                step == zoom_step(dt as int),
                step >= 0,
                forall|k: int| 0 <= k < scrolls@.len() ==> #[trigger] scrolls@[k] == 1 || scrolls@[k] == -1,
                0 <= dt <= DT_LIMIT,
                -LOG_SCALE_LIMIT <= log0 - n * step,
                log0 + n * step <= LOG_SCALE_LIMIT,
                self.log_scale == scrolls_applied(log0, scrolls@.take(i as int), dt as int),
                log0 - i * step <= self.log_scale <= log0 + i * step,
                self.x == old(self).x,
                self.y == old(self).y,
                self.z == old(self).z,
                self.wf(),
            decreases scrolls@.len() - i,
        {
            let s = scrolls[i];
            proof {
                assert((i + 1) * step == i * step + step) by (nonlinear_arith);
                assert(i * step + step <= n * step && -(n * step) <= -(i * step) - step)
                    by (nonlinear_arith)
                    requires
                        0 <= i as int + 1 <= n,
                        step >= 0,
                ;
            }
            self.zoom(s, dt);
            proof {
                assert(scrolls@.take(i + 1) =~= scrolls@.take(i as int).push(scrolls@[i as int]));
                lemma_scrolls_applied_push(log0, scrolls@.take(i as int), scrolls@[i as int],
                    dt as int);
            }
            i += 1;
        }
        proof {
            assert(scrolls@.take(i as int) =~= scrolls@);
        }
        if pan_held {
            self.pan_to_cursor(cursor_x, cursor_y);
        }
        if reset_held {
            self.reset_pan();
        }
    }
}

/// Per-frame keyboard control of the background map's depth layer, applied
/// in a fixed order within the frame: a held raise key lifts the layer by
/// one unit, a held reset key then snaps it back to zero, and a held lower
/// key finally drops it by one unit.
pub open spec fn adjusted_depth(z: int, raise: bool, reset: bool, lower: bool) -> int {
    let a = if raise {
        z + MILLI
    } else {
        z
    };
    let b = if reset {
        0int
    } else {
        a
    };
    if lower {
        b - MILLI
    } else {
        b
    }
}

/// Apply one frame's held keys to the background map's depth component.
pub fn adjust_map_depth(z: i64, raise: bool, reset: bool, lower: bool) -> (r: i64)
    requires
        -TRANS_LIMIT <= z <= TRANS_LIMIT,
    ensures
        r == adjusted_depth(z as int, raise, reset, lower),
        -TRANS_LIMIT - MILLI <= r <= TRANS_LIMIT + MILLI,
{
    let mut d = z;
    if raise {
        d = d + MILLI;
    }
    if reset {
        d = 0;
    }
    if lower {
        d = d - MILLI;
    }
    d
}

/// Zoom-monotonicity law: with a positive frame delta, successive scroll
/// ticks of the same sign move the log-scale strictly monotonically —
/// strictly up for downward scrolls, strictly down for upward ones. The
/// linear scale `exp(log_scale)` therefore moves strictly monotonically
/// too, and stays positive, in the host's floating-point step.
pub proof fn lemma_zoom_monotonic(log: int, dt: int, n: nat)
    requires
        1 <= dt,
    ensures
        iter_zoom(log, -1, dt, n + 1) > iter_zoom(log, -1, dt, n),
        iter_zoom(log, 1, dt, n + 1) < iter_zoom(log, 1, dt, n),
{
    assert(zoom_step(dt) >= 2) by (nonlinear_arith)
        requires
            dt >= 1,
    ;
    assert(iter_zoom(log, -1, dt, n + 1) == zoomed(iter_zoom(log, -1, dt, n), -1, dt));
    assert(iter_zoom(log, 1, dt, n + 1) == zoomed(iter_zoom(log, 1, dt, n), 1, dt));
}

/// Cursor-transform law: with the camera at zero pan and a positive scale,
/// the window center maps to the world origin exactly, and a horizontal
/// screen offset of `d` maps to the world offset `d / scale` (in
/// fixed-point, truncated toward zero).
pub proof fn lemma_cursor_transform_consistency(win_w: int, win_h: int, scale: int, d: int)
    requires
        1 <= scale,
        0 <= win_w,
        0 <= win_h,
    ensures
        screen_to_world_coord(win_w / 2, win_w, scale, 0) == 0,
        screen_to_world_coord(win_h / 2, win_h, scale, 0) == 0,
        screen_to_world_coord(win_w / 2 + d, win_w, scale, 0) == fx_div(d, scale),
{
    assert(centered(win_w / 2, win_w) == 0);
    assert(0int * 1000 / scale == 0) by (nonlinear_arith)
        requires
            scale >= 1,
    ;
    assert(fx_div(0, scale) == 0);
    assert(centered(win_w / 2 + d, win_w) == d);
}

} // verus!
