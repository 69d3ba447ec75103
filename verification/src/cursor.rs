//! Cursor tracking.
//!
//! Once per frame the tracker absorbs the raw pointer events: the last
//! absolute move position seen this frame becomes the stored cursor
//! position, and every relative motion delta is added to a running delta
//! accumulator. The accumulator is never reset by the tracker itself — it
//! grows across frames, and nothing downstream reads it back — so only a
//! machine-range bound is required of it. The cursor's world position is
//! recomputed separately from the camera transform whenever the host
//! reports the cursor inside the window.

use vstd::prelude::*;
use crate::camera::{CameraState, SCREEN_LIMIT, WORLD_LIMIT, screen_to_world_coord};

verus! {

/// Largest magnitude of one pointer event's coordinates, in milli-units.
pub const MOVE_LIMIT: i64 = 1_000_000_000;

/// Most pointer events absorbed in one frame.
pub const EVENTS_LIMIT: usize = 100_000;

/// Largest delta-accumulator magnitude a frame may start from; one frame's
/// events then cannot overflow the accumulator.
pub const DELTA_LIMIT: i64 = 9_000_000_000_000_000_000;

/// The cursor: last raw screen position, running motion delta, and last
/// computed world position, all in milli-units.
pub struct CursorState {
    pub cursor_x: i64,
    pub cursor_y: i64,
    pub delta_x: i64,
    pub delta_y: i64,
    pub world_x: i64,
    pub world_y: i64,
}

/// Sum of the horizontal components of a frame's motion deltas.
pub open spec fn sum_dx(deltas: Seq<(i64, i64)>) -> int
    decreases deltas.len(),
{
    if deltas.len() == 0 {
        0
    } else {
        sum_dx(deltas.drop_last()) + deltas.last().0
    }
}

/// Sum of the vertical components of a frame's motion deltas.
pub open spec fn sum_dy(deltas: Seq<(i64, i64)>) -> int
    decreases deltas.len(),
{
    if deltas.len() == 0 {
        0
    } else {
        sum_dy(deltas.drop_last()) + deltas.last().1
    }
}

impl CursorState {
    /// Screen position and world position stay within their working
    /// ranges; the raw delta accumulator is bounded only by its overflow
    /// guard.
    pub open spec fn wf(self) -> bool {
        &&& -MOVE_LIMIT <= self.cursor_x <= MOVE_LIMIT
        &&& -MOVE_LIMIT <= self.cursor_y <= MOVE_LIMIT
        &&& -WORLD_LIMIT <= self.world_x <= WORLD_LIMIT
        &&& -WORLD_LIMIT <= self.world_y <= WORLD_LIMIT
    }

    /// A tracker with everything at the origin.
    pub fn new() -> (r: CursorState)
        ensures
            r.wf(),
            r.cursor_x == 0,
            r.cursor_y == 0,
            r.delta_x == 0,
            r.delta_y == 0,
            r.world_x == 0,
            r.world_y == 0,
    {
        CursorState { cursor_x: 0, cursor_y: 0, delta_x: 0, delta_y: 0, world_x: 0, world_y: 0 }
    }

    /// Absorb one frame's pointer events: the last absolute move wins, and
    /// every relative delta is added to the running accumulator.
    pub fn apply_pointer_events(&mut self, moves: &Vec<(i64, i64)>, deltas: &Vec<(i64, i64)>)
        requires
            old(self).wf(),
            -DELTA_LIMIT <= old(self).delta_x <= DELTA_LIMIT,
            -DELTA_LIMIT <= old(self).delta_y <= DELTA_LIMIT,
            moves@.len() <= EVENTS_LIMIT,
            deltas@.len() <= EVENTS_LIMIT,
            forall|i: int|
                0 <= i < moves@.len() ==> -MOVE_LIMIT <= (#[trigger] moves@[i]).0 <= MOVE_LIMIT
                    && -MOVE_LIMIT <= moves@[i].1 <= MOVE_LIMIT,
            forall|i: int|
                0 <= i < deltas@.len() ==> -MOVE_LIMIT <= (#[trigger] deltas@[i]).0 <= MOVE_LIMIT
                    && -MOVE_LIMIT <= deltas@[i].1 <= MOVE_LIMIT,
        ensures
            final(self).wf(),
            moves@.len() > 0 ==> final(self).cursor_x == moves@.last().0 && final(self).cursor_y
                == moves@.last().1,
            moves@.len() == 0 ==> final(self).cursor_x == old(self).cursor_x
                && final(self).cursor_y == old(self).cursor_y,
            final(self).delta_x == old(self).delta_x + sum_dx(deltas@),
            final(self).delta_y == old(self).delta_y + sum_dy(deltas@),
            final(self).world_x == old(self).world_x,
            final(self).world_y == old(self).world_y,
    {
        if moves.len() > 0 {
            let m = moves[moves.len() - 1];
            self.cursor_x = m.0;
            self.cursor_y = m.1;
        }
        let ghost d0x = self.delta_x as int;
        let ghost d0y = self.delta_y as int;
        let mut i: usize = 0;
        proof {
            assert(deltas@.take(0) =~= Seq::<(i64, i64)>::empty());
        }
        while i < deltas.len()
            invariant
                i <= deltas@.len(),
                deltas@.len() <= EVENTS_LIMIT,
                forall|k: int|
                    0 <= k < deltas@.len() ==> -MOVE_LIMIT <= (#[trigger] deltas@[k]).0
                        <= MOVE_LIMIT && -MOVE_LIMIT <= deltas@[k].1 <= MOVE_LIMIT,
                -DELTA_LIMIT <= d0x <= DELTA_LIMIT,
                -DELTA_LIMIT <= d0y <= DELTA_LIMIT,
                self.delta_x == d0x + sum_dx(deltas@.take(i as int)),
                self.delta_y == d0y + sum_dy(deltas@.take(i as int)),
                d0x - i * MOVE_LIMIT <= self.delta_x <= d0x + i * MOVE_LIMIT,
                d0y - i * MOVE_LIMIT <= self.delta_y <= d0y + i * MOVE_LIMIT,
                moves@.len() > 0 ==> self.cursor_x == moves@.last().0 && self.cursor_y
                    == moves@.last().1,
                moves@.len() == 0 ==> self.cursor_x == old(self).cursor_x
                    && self.cursor_y == old(self).cursor_y,
                self.world_x == old(self).world_x,
                self.world_y == old(self).world_y,
                self.wf(),
            decreases deltas@.len() - i,
        {
            let d = deltas[i];
            proof {
                assert((i + 1) * MOVE_LIMIT == i * MOVE_LIMIT + MOVE_LIMIT) by (nonlinear_arith);
                assert(i * MOVE_LIMIT + MOVE_LIMIT <= EVENTS_LIMIT * MOVE_LIMIT)
                    by (nonlinear_arith)
                    requires
                        0 <= i as int + 1 <= EVENTS_LIMIT as int,
                ;
                assert(deltas@.take(i + 1).drop_last() =~= deltas@.take(i as int));
                assert(deltas@.take(i + 1).last() == deltas@[i as int]);
            }
            self.delta_x = self.delta_x + d.0;
            self.delta_y = self.delta_y + d.1;
            i += 1;
        }
        proof {
            assert(deltas@.take(i as int) =~= deltas@);
        }
    }

    /// Recompute the cursor's world position from the camera when the host
    /// reports a cursor position inside the window; leave it untouched
    /// when there is none.
    pub fn update_world(
        &mut self,
        pos: Option<(i64, i64)>,
        cam: &CameraState,
        win_w: i64,
        win_h: i64,
        scale: i64,
    )
        requires
            old(self).wf(),
            cam.wf(),
            1 <= scale,
            0 <= win_w <= SCREEN_LIMIT,
            0 <= win_h <= SCREEN_LIMIT,
            pos matches Some(p) ==> -SCREEN_LIMIT <= p.0 <= SCREEN_LIMIT && -SCREEN_LIMIT <= p.1
                <= SCREEN_LIMIT,
        ensures
            final(self).wf(),
            pos matches Some(p) ==> final(self).world_x == screen_to_world_coord(
                p.0 as int,
                win_w as int,
                scale as int,
                cam.x as int,
            ) && final(self).world_y == screen_to_world_coord(
                p.1 as int,
                win_h as int,
                scale as int,
                cam.y as int,
            ),
            pos is None ==> final(self).world_x == old(self).world_x
                && final(self).world_y == old(self).world_y,
            final(self).cursor_x == old(self).cursor_x,
            final(self).cursor_y == old(self).cursor_y,
            final(self).delta_x == old(self).delta_x,
            final(self).delta_y == old(self).delta_y,
    {
        match pos {
            Some((px, py)) => {
                let w = cam.screen_to_world(px, py, win_w, win_h, scale);
                self.world_x = w.0;
                self.world_y = w.1;
            },
            None => {},
        }
    }
}

} // verus!
