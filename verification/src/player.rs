//! The player actor: a position, a logical clock and a view radius. The
//! player consumes at most one buffered directional input per turn; a move
//! into a wall, or a missing input, leaves the turn pending and the clock
//! untouched, so the player never loses time waiting.

use vstd::prelude::*;

use crate::field::{Field, MAX_FIELD_SIDE};
use crate::pos::{Dir, Pos};
use crate::state::StepperStatus;

verus! {

/// How much the player's clock advances on a completed move.
pub const MOVE_TIME: u64 = 1000;

pub struct Player {
    pub pos: Pos,
    pub clock: u64,
    pub view_radius: i32,
}

impl Player {
    /// A player stands at an in-range position with a view radius the
    /// visibility engine accepts.
    pub open spec fn wf(self) -> bool {
        &&& self.pos.in_range()
        &&& 0 <= self.view_radius <= MAX_FIELD_SIDE
    }

    pub fn new(pos: Pos, view_radius: i32) -> (p: Player)
        ensures
            p.pos == pos,
            p.clock == 0,
            p.view_radius == view_radius,
    {
        Player { pos, clock: 0, view_radius }
    }

    pub fn pos(&self) -> (p: Pos)
        ensures
            p == self.pos,
    {
        self.pos
    }

    pub fn clock(&self) -> (c: u64)
        ensures
            c == self.clock,
    {
        self.clock
    }

    /// What one scheduled player turn does, given the buffered input, if
    /// any: with no input, or with a wall at the destination, nothing
    /// changes and the turn stays pending; otherwise the player moves one
    /// cell and its clock advances by exactly `MOVE_TIME`.
    pub open spec fn turn_spec(old_p: Player, new_p: Player, field: Field, input: Option<Dir>,
        status: StepperStatus) -> bool {
        match input {
            Option::Some(d) => {
                let dest = old_p.pos.stepped_spec(d);
                if field.wall_at(dest.x as int, dest.y as int) {
                    status == StepperStatus::Pending && new_p == old_p
                } else {
                    &&& status == StepperStatus::Finished
                    &&& new_p == (Player {
                        pos: dest,
                        clock: (old_p.clock + MOVE_TIME) as u64,
                        view_radius: old_p.view_radius,
                    })
                }
            }
            Option::None => status == StepperStatus::Pending && new_p == old_p,
        }
    }

    /// One scheduled player turn.
    pub fn process(&mut self, field: &Field, input: Option<Dir>) -> (status: StepperStatus)
        requires
            field.wf(),
            old(self).pos.in_range(),
            old(self).clock + MOVE_TIME <= u64::MAX,
        ensures
            Player::turn_spec(*old(self), *final(self), *field, input, status),
            status == StepperStatus::Finished ==> !field.wall_at(
                final(self).pos.x as int, final(self).pos.y as int),
            status == StepperStatus::Pending ==> *final(self) == *old(self),
    {
        match input {
            Option::None => StepperStatus::Pending,
            Option::Some(d) => {
                let dest = self.pos.stepped(d);
                if field.is_wall(dest.x, dest.y) {
                    StepperStatus::Pending
                } else {
                    self.pos = dest;
                    self.clock = self.clock + MOVE_TIME;
                    StepperStatus::Finished
                }
            }
        }
    }
}

} // verus!
