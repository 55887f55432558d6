//! The agent (slime): a position and a velocity, moved by Euler integration
//! over a wrapped grid and steered by three forward-facing trail probes.

use crate::fixed::{fmul_spec, lemma_fmul_spec_bounds, COORD_BOUND, TIME_BOUND};
use crate::trail::{wrap1, wrap_pre, Trail};
use crate::vec2::{rot_left_x, rot_left_y, rot_right_x, rot_right_y, Vec2};
use vstd::prelude::*;

verus! {

/// An agent: free-ranging position plus velocity, both fixed-point. Wrapping
/// is applied at lookup time and at motion time, not storage-side.
#[derive(Debug, PartialEq, Eq, Structural, Clone, Copy)]
pub struct Slime {
    pub pos: Vec2,
    pub vel: Vec2,
}

/// Which of the three probes the steering rule selects.
#[derive(Debug, PartialEq, Eq, Structural, Clone, Copy)]
pub enum Probe {
    Forward,
    Left,
    Right,
}

/// The steering decision over the three sensed intensities: forward wins all
/// ties, and left beats right on a tie between left and right.
pub open spec fn steer_choice(f: int, l: int, r: int) -> Probe {
    if f >= l {
        if f >= r {
            Probe::Forward
        } else {
            Probe::Right
        }
    } else {
        if l >= r {
            Probe::Left
        } else {
            Probe::Right
        }
    }
}

/// x coordinate of the forward probe: one velocity ahead of the agent.
pub open spec fn probe_f_x(s: Slime) -> int {
    s.pos.x + s.vel.x
}

/// y coordinate of the forward probe.
pub open spec fn probe_f_y(s: Slime) -> int {
    s.pos.y + s.vel.y
}

/// x coordinate of the left probe: one left-rotated velocity ahead.
pub open spec fn probe_l_x(s: Slime) -> int {
    s.pos.x + rot_left_x(s.vel)
}

/// y coordinate of the left probe.
pub open spec fn probe_l_y(s: Slime) -> int {
    s.pos.y + rot_left_y(s.vel)
}

/// x coordinate of the right probe: one right-rotated velocity ahead.
pub open spec fn probe_r_x(s: Slime) -> int {
    s.pos.x + rot_right_x(s.vel)
}

/// y coordinate of the right probe.
pub open spec fn probe_r_y(s: Slime) -> int {
    s.pos.y + rot_right_y(s.vel)
}

/// The intensity the forward probe senses.
pub open spec fn f_val(s: Slime, t: Trail) -> int {
    t.value_at(probe_f_x(s), probe_f_y(s))
}

/// The intensity the left probe senses.
pub open spec fn l_val(s: Slime, t: Trail) -> int {
    t.value_at(probe_l_x(s), probe_l_y(s))
}

/// The intensity the right probe senses.
pub open spec fn r_val(s: Slime, t: Trail) -> int {
    t.value_at(probe_r_x(s), probe_r_y(s))
}

/// The agent's state is in range and all three probe positions lie within a
/// single wrapping pass of `t`: the precondition for sensing and steering.
pub open spec fn can_sense(s: Slime, t: Trail) -> bool {
    &&& s.pos.in_bounds()
    &&& s.vel.in_bounds()
    &&& wrap_pre(probe_f_x(s), t.span())
    &&& wrap_pre(probe_f_y(s), t.span())
    &&& wrap_pre(probe_l_x(s), t.span())
    &&& wrap_pre(probe_l_y(s), t.span())
    &&& wrap_pre(probe_r_x(s), t.span())
    &&& wrap_pre(probe_r_y(s), t.span())
}

/// x component of the velocity the steering rule yields for `s` on `t`.
pub open spec fn steered_vel_x(s: Slime, t: Trail) -> int {
    match steer_choice(f_val(s, t), l_val(s, t), r_val(s, t)) {
        Probe::Forward => s.vel.x as int,
        Probe::Left => rot_left_x(s.vel),
        Probe::Right => rot_right_x(s.vel),
    }
}

/// y component of the velocity the steering rule yields for `s` on `t`.
pub open spec fn steered_vel_y(s: Slime, t: Trail) -> int {
    match steer_choice(f_val(s, t), l_val(s, t), r_val(s, t)) {
        Probe::Forward => s.vel.y as int,
        Probe::Left => rot_left_y(s.vel),
        Probe::Right => rot_right_y(s.vel),
    }
}

/// Where a move of `time` lands the agent on the x axis, after wrapping.
pub open spec fn moved_x(s: Slime, time: i64, span: int) -> int {
    wrap1(s.pos.x + fmul_spec(s.vel.x as int, time as int), span)
}

/// Where a move of `time` lands the agent on the y axis, after wrapping.
pub open spec fn moved_y(s: Slime, time: i64, span: int) -> int {
    wrap1(s.pos.y + fmul_spec(s.vel.y as int, time as int), span)
}

/// The agent's state is in range and one `time`-long step stays within a
/// single wrapping pass of the grid (per-tick displacement below one grid
/// width): the precondition for motion.
pub open spec fn can_move(s: Slime, time: i64, span: int) -> bool {
    &&& s.pos.in_bounds()
    &&& s.vel.in_bounds()
    &&& -TIME_BOUND <= time <= TIME_BOUND
    &&& wrap_pre(s.pos.x + fmul_spec(s.vel.x as int, time as int), span)
    &&& wrap_pre(s.pos.y + fmul_spec(s.vel.y as int, time as int), span)
}

impl Slime {
    /// An agent at the origin with zero velocity.
    pub fn new() -> (s: Slime)
        ensures
            s.pos.x == 0 && s.pos.y == 0,
            s.vel.x == 0 && s.vel.y == 0,
    {
        Slime { pos: Vec2 { x: 0, y: 0 }, vel: Vec2 { x: 0, y: 0 } }
    }

    /// The same agent placed at `(x, y)`.
    pub fn at(&self, x: i64, y: i64) -> (s: Slime)
        ensures
            s.pos.x == x && s.pos.y == y,
            s.vel == self.vel,
    {
        Slime { pos: Vec2 { x, y }, vel: self.vel }
    }

    /// The same agent with velocity `(vx, vy)`.
    pub fn going(&self, vx: i64, vy: i64) -> (s: Slime)
        ensures
            s.pos == self.pos,
            s.vel.x == vx && s.vel.y == vy,
    {
        Slime { pos: self.pos, vel: Vec2 { x: vx, y: vy } }
    }

    /// One Euler step: the new position is `pos + vel * time`, wrapped into
    /// `[0, span)` on each axis; the velocity is unchanged.
    pub fn updated(&self, time: i64, trail: &Trail) -> (s: Slime)
        requires
            trail.wf(),
            can_move(*self, time, trail.span()),
        ensures
            s.vel == self.vel,
            s.pos.x == moved_x(*self, time, trail.span()),
            s.pos.y == moved_y(*self, time, trail.span()),
            0 <= s.pos.x < trail.span(),
            0 <= s.pos.y < trail.span(),
    {
        proof {
            lemma_fmul_spec_bounds(
                self.vel.x as int,
                time as int,
                COORD_BOUND as int,
                TIME_BOUND as int,
            );
            lemma_fmul_spec_bounds(
                self.vel.y as int,
                time as int,
                COORD_BOUND as int,
                TIME_BOUND as int,
            );
        }
        let d = self.vel.scaled(time);
        let p = self.pos.plus(d);
        let new_pos = trail.get_pos_wrapped(p);
        Slime { pos: new_pos, vel: self.vel }
    }

    /// One steering decision: sense the trail one velocity ahead, one
    /// left-rotated velocity ahead and one right-rotated velocity ahead, and
    /// keep, turn left or turn right by the fixed tie-break rule. The
    /// position is unchanged; the new velocity is a rotation of the old, so
    /// its magnitude is preserved up to fixed-point rounding.
    pub fn steered(&self, trail: &Trail) -> (s: Slime)
        requires
            trail.wf(),
            can_sense(*self, *trail),
        ensures
            s.pos == self.pos,
            s.vel.x == steered_vel_x(*self, *trail),
            s.vel.y == steered_vel_y(*self, *trail),
    {
        let l_vel = self.vel.rotated_left();
        let r_vel = self.vel.rotated_right();

        let f_v = trail.get_val_wrapped(self.pos.plus(self.vel));
        let l_v = trail.get_val_wrapped(self.pos.plus(l_vel));
        let r_v = trail.get_val_wrapped(self.pos.plus(r_vel));

        let vel = if f_v >= l_v {
            if f_v >= r_v {
                self.vel
            } else {
                r_vel
            }
        } else {
            if l_v >= r_v {
                l_vel
            } else {
                r_vel
            }
        };

        Slime { pos: self.pos, vel }
    }
}

/// Law (steering tie-breaks): when the three probes sense equal intensity the
/// forward probe wins and the velocity is kept; more generally forward wins
/// every tie it is part of, and on a strict left/right tie the left probe
/// wins.
pub proof fn lemma_steer_tie_break(f: int, l: int, r: int)
    ensures
        f == l && f == r ==> steer_choice(f, l, r) == Probe::Forward,
        f >= l && f >= r ==> steer_choice(f, l, r) == Probe::Forward,
        l > f && l == r ==> steer_choice(f, l, r) == Probe::Left,
{
}

} // verus!
