//! Enemy actors and their chase arithmetic. An enemy owns a position, a
//! logical clock advanced by its own action time, a fixed-point movement
//! intent carried between turns, and a stay counter that grows while the
//! enemy is stuck and scales a random wander perturbation.

use vstd::prelude::*;
use vstd::math::abs;

use crate::fixmath::{
    normalize_fp, normalize_spec, sgn, wander_scale, wander_scale_spec, wander_term,
    wander_term_spec, FP,
};
use crate::pos::Pos;

verus! {

/// Squared distance at or under which the enemy is in attack range (a
/// threshold of 1.0 cells, squared).
pub const ATTACK_DISTANCE2: i64 = 1;

/// Squared distance under which the enemy spots the player and gives chase
/// (a threshold of 8.0 cells, squared).
pub const SPOT_DISTANCE2: i64 = 64;

/// A rat's action time: half the player's move time, so a rat acts twice as
/// often as the player.
pub const RAT_ACTION_TIME: u64 = 500;

#[derive(Clone, Copy)]
pub struct Enemy {
    pub draw_char: char,
    pub action_time: u64,
    pub pos: Pos,
    pub clock: u64,
    pub move_intent: (i64, i64),
    pub staying_steps: u32,
}

pub struct EnemyBuilder {
    pub draw_char: char,
    pub pos: Pos,
    pub action_time: u64,
}

impl EnemyBuilder {
    /// A rat: glyph 'r', acting twice as often as the player.
    pub fn rat() -> (b: EnemyBuilder)
        ensures
            b.draw_char == 'r',
            b.pos == (Pos { x: 0, y: 0 }),
            b.action_time == RAT_ACTION_TIME,
    {
        EnemyBuilder { draw_char: 'r', pos: Pos { x: 0, y: 0 }, action_time: RAT_ACTION_TIME }
    }

    pub fn pos(self, pos: Pos) -> (b: EnemyBuilder)
        ensures
            b.pos == pos,
            b.draw_char == self.draw_char,
            b.action_time == self.action_time,
    {
        EnemyBuilder { pos, ..self }
    }

    pub fn build(self) -> (e: Enemy)
        ensures
            e.draw_char == self.draw_char,
            e.pos == self.pos,
            e.action_time == self.action_time,
            e.clock == 0,
            e.move_intent == (0i64, 0i64),
            e.staying_steps == 0,
    {
        Enemy {
            draw_char: self.draw_char,
            action_time: self.action_time,
            pos: self.pos,
            clock: 0,
            move_intent: (0, 0),
            staying_steps: 0,
        }
    }
}

impl Enemy {
    /// An enemy stands at an in-range position, takes at least one time unit
    /// per action, and carries a movement-intent residual of at most one
    /// cell per axis.
    pub open spec fn wf(self) -> bool {
        &&& self.pos.in_range()
        &&& self.action_time >= 1
        &&& -FP <= self.move_intent.0 <= FP
        &&& -FP <= self.move_intent.1 <= FP
    }

    pub fn new(draw_char: char, action_time: u64, pos: Pos) -> (e: Enemy)
        ensures
            e.draw_char == draw_char,
            e.action_time == action_time,
            e.pos == pos,
            e.clock == 0,
            e.move_intent == (0i64, 0i64),
            e.staying_steps == 0,
    {
        Enemy { draw_char, action_time, pos, clock: 0, move_intent: (0, 0), staying_steps: 0 }
    }

    pub fn pos(&self) -> (p: Pos)
        ensures
            p == self.pos,
    {
        self.pos
    }

    pub fn clock(&self) -> (c: u64)
        ensures
            c == self.clock,
    {
        self.clock
    }

    /// The chase computation of one enemy turn: add the unit vector toward
    /// the player and a wander perturbation scaled by the stay counter to
    /// the carried intent, normalise, then turn the larger-magnitude axis of
    /// the intent into a single unit step, decrementing that axis's residual
    /// by one whole cell. Yields the new intent residual and the cell the
    /// enemy wants to move to.
    pub open spec fn chase_spec(self, player_pos: Pos, rx: int, ry: int) -> ((int, int), (
        int,
        int,
    )) {
        let dx = player_pos.x - self.pos.x;
        let dy = player_pos.y - self.pos.y;
        let n = normalize_spec(dx, dy);
        let w = wander_scale_spec(self.staying_steps as nat);
        let ix = self.move_intent.0 + n.0 + wander_term_spec(w, rx);
        let iy = self.move_intent.1 + n.1 + wander_term_spec(w, ry);
        let m = normalize_spec(ix, iy);
        if abs(m.0) >= abs(m.1) {
            ((m.0 - sgn(m.0) * FP, m.1), (self.pos.x + sgn(m.0), self.pos.y as int))
        } else {
            ((m.0, m.1 - sgn(m.1) * FP), (self.pos.x as int, self.pos.y + sgn(m.1)))
        }
    }

    /// The chase computation always yields an intent residual of at most
    /// one cell per axis and a target at most one axis-aligned step away.
    pub proof fn lemma_chase_spec_bounds(self, player_pos: Pos, rx: int, ry: int)
        ensures
            -FP <= self.chase_spec(player_pos, rx, ry).0.0 <= FP,
            -FP <= self.chase_spec(player_pos, rx, ry).0.1 <= FP,
            self.pos.x - 1 <= self.chase_spec(player_pos, rx, ry).1.0 <= self.pos.x + 1,
            self.pos.y - 1 <= self.chase_spec(player_pos, rx, ry).1.1 <= self.pos.y + 1,
            self.chase_spec(player_pos, rx, ry).1.0 == self.pos.x || self.chase_spec(
                player_pos, rx, ry).1.1 == self.pos.y,
    {
        let dx = player_pos.x - self.pos.x;
        let dy = player_pos.y - self.pos.y;
        let n = normalize_spec(dx, dy);
        let w = wander_scale_spec(self.staying_steps as nat);
        let ix = self.move_intent.0 + n.0 + wander_term_spec(w, rx);
        let iy = self.move_intent.1 + n.1 + wander_term_spec(w, ry);
        let m = normalize_spec(ix, iy);
        crate::fixmath::lemma_normalize_bounds(ix, iy);
        if abs(m.0) >= abs(m.1) {
            assert(-FP <= m.0 - sgn(m.0) * FP <= FP);
        } else {
            assert(-FP <= m.1 - sgn(m.1) * FP <= FP);
        }
    }

    /// The chase computation at run time: the new intent residual and the
    /// desired target cell, exactly as `chase_spec` says.
    pub fn chase_step(&self, player_pos: Pos, rx: i64, ry: i64) -> (r: ((i64, i64), Pos))
        requires
            self.wf(),
            player_pos.in_range(),
            0 <= rx <= FP,
            0 <= ry <= FP,
        ensures
            (r.0.0 as int, r.0.1 as int) == self.chase_spec(player_pos, rx as int, ry as int).0,
            (r.1.x as int, r.1.y as int) == self.chase_spec(player_pos, rx as int, ry as int).1,
            -FP <= r.0.0 <= FP,
            -FP <= r.0.1 <= FP,
            self.pos.x - 1 <= r.1.x <= self.pos.x + 1,
            self.pos.y - 1 <= r.1.y <= self.pos.y + 1,
            r.1.x == self.pos.x || r.1.y == self.pos.y,
    {
        let dx: i64 = player_pos.x as i64 - self.pos.x as i64;
        let dy: i64 = player_pos.y as i64 - self.pos.y as i64;
        let n = normalize_fp(dx, dy);
        let w = wander_scale(self.staying_steps);
        let tx = wander_term(w, rx);
        let ty = wander_term(w, ry);
        let ix: i64 = self.move_intent.0 + n.0 + tx;
        let iy: i64 = self.move_intent.1 + n.1 + ty;
        let m = normalize_fp(ix, iy);
        let ax: i64 = if m.0 >= 0 {
            m.0
        } else {
            -m.0
        };
        let ay: i64 = if m.1 >= 0 {
            m.1
        } else {
            -m.1
        };
        if ax >= ay {
            let s: i64 = if m.0 > 0 {
                1
            } else if m.0 < 0 {
                -1
            } else {
                0
            };
            let target = Pos { x: self.pos.x + (s as i32), y: self.pos.y };
            ((m.0 - s * FP, m.1), target)
        } else {
            let s: i64 = if m.1 > 0 {
                1
            } else if m.1 < 0 {
                -1
            } else {
                0
            };
            let target = Pos { x: self.pos.x, y: self.pos.y + (s as i32) };
            ((m.0, m.1 - s * FP), target)
        }
    }
}

} // verus!
