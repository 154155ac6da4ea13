//! Movement validation: direction commands, the movement error, the pure
//! position-transition function, and the `Moveable` capability trait.
//!
//! The validation rule: `Forward { step }` is accepted exactly when the
//! step lies in `0..=3`; larger steps and negative steps are rejected with
//! `TooFar`. `Backwards`, `Left` and `Right` always move exactly one unit
//! and never fail.

use crate::position::Position;
use vstd::prelude::*;

verus! {

/// The direction in which a `Moveable` entity can move.
#[derive(Debug, Clone, Copy, PartialEq, Eq, Structural)]
pub enum Direction {
    /// Move forward by a specific number of steps along the y axis.
    Forward { step: i32 },
    /// Move one unit backward (y decreases).
    Backwards,
    /// Move one unit to the left (x decreases).
    Left,
    /// Move one unit to the right (x increases).
    Right,
}

/// An error produced when a movement command is rejected.
#[derive(Debug, Clone, Copy, PartialEq, Eq, Structural)]
pub enum MovementError {
    TooFar,
}

/// Positions from which every movement command stays within `i32`.
pub open spec fn pos_can_move(p: Position) -> bool {
    &&& i32::MIN < p.x < i32::MAX
    &&& i32::MIN < p.y
    &&& p.y + 3 <= i32::MAX
}

/// Whether a direction command passes validation: a forward step is
/// accepted exactly when it lies in `0..=3`; the unit moves always are.
pub open spec fn move_allowed(direction: Direction) -> bool {
    match direction {
        Direction::Forward { step } => 0 <= step <= 3,
        _ => true,
    }
}

/// The position a successful move ends at.
pub open spec fn moved_position(p: Position, direction: Direction) -> Position {
    match direction {
        Direction::Forward { step } => Position { x: p.x, y: (p.y + step) as i32 },
        Direction::Backwards => Position { x: p.x, y: (p.y - 1) as i32 },
        Direction::Left => Position { x: (p.x - 1) as i32, y: p.y },
        Direction::Right => Position { x: (p.x + 1) as i32, y: p.y },
    }
}

/// The whole movement state machine as one function of the inputs.
pub open spec fn move_spec(p: Position, direction: Direction) -> Result<Position, MovementError> {
    if move_allowed(direction) {
        Ok(moved_position(p, direction))
    } else {
        Err(MovementError::TooFar)
    }
}

/// Pure movement validation and transition: either the new position or a
/// `TooFar` rejection, with no hidden state.
pub fn apply_move(p: Position, direction: Direction) -> (r: Result<Position, MovementError>)
    requires
        pos_can_move(p),
    ensures
        r == move_spec(p, direction),
{
    match direction {
        Direction::Forward { step } => {
            if 0 <= step && step <= 3 {
                Ok(Position { x: p.x, y: p.y + step })
            } else {
                Err(MovementError::TooFar)
            }
        },
        Direction::Backwards => Ok(Position { x: p.x, y: p.y - 1 }),
        Direction::Left => Ok(Position { x: p.x - 1, y: p.y }),
        Direction::Right => Ok(Position { x: p.x + 1, y: p.y }),
    }
}

/// Anything that can be driven by direction commands. The contract pins
/// down exactly how the implementor's position reacts to each command.
pub trait Moveable {
    spec fn current_position(&self) -> Position;

    fn move_robot(&mut self, direction: Direction) -> (r: Result<(), MovementError>)
        requires
            pos_can_move(old(self).current_position()),
        ensures
            match r {
                Ok(()) => move_allowed(direction) && final(self).current_position()
                    == moved_position(old(self).current_position(), direction),
                Err(e) => !move_allowed(direction) && e == MovementError::TooFar
                    && final(self).current_position() == old(self).current_position(),
            },
    ;
}

/// Law: each of `Left`, `Right` and `Backwards` always succeeds, changes
/// exactly one coordinate by exactly one unit in its documented sign, and
/// leaves the other coordinate unchanged.
pub proof fn lemma_unit_moves_always_succeed(p: Position, direction: Direction)
    requires
        pos_can_move(p),
        direction is Left || direction is Right || direction is Backwards,
    ensures
        move_spec(p, direction) is Ok,
        ({
            let q = move_spec(p, direction)->Ok_0;
            match direction {
                Direction::Left => q.x == p.x - 1 && q.y == p.y,
                Direction::Right => q.x == p.x + 1 && q.y == p.y,
                Direction::Backwards => q.x == p.x && q.y == p.y - 1,
                Direction::Forward { .. } => true,
            }
        }),
{
}

/// Law: a forward step in `0..=3` succeeds, y increases by exactly the
/// step, and x is unchanged.
pub proof fn lemma_forward_small_succeeds(p: Position, step: i32)
    requires
        pos_can_move(p),
        0 <= step <= 3,
    ensures
        move_spec(p, Direction::Forward { step }) is Ok,
        move_spec(p, Direction::Forward { step })->Ok_0.y == p.y + step,
        move_spec(p, Direction::Forward { step })->Ok_0.x == p.x,
{
}

/// Law: a forward step of 4 or more, or a negative forward step, is
/// rejected with `TooFar`; no new position is produced, and the mutating
/// wrappers leave the position unchanged on such an error.
pub proof fn lemma_forward_out_of_range_fails(p: Position, step: i32)
    requires
        step > 3 || step < 0,
    ensures
        move_spec(p, Direction::Forward { step }) == Err::<Position, MovementError>(
            MovementError::TooFar,
        ),
{
}

} // verus!
