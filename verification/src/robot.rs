//! A named, independently positioned mobile entity.

use crate::moveable::{
    apply_move, move_allowed, moved_position, pos_can_move, Direction, Moveable,
    MovementError,
};
use crate::position::Position;
use vstd::prelude::*;

verus! {

/// A robot with a name, a 2D position and a charge level (0 to 255).
#[derive(Debug)]
pub struct Robot {
    pub name: String,
    pub position: Position,
    pub state_of_charge: u8,
}

impl Robot {
    /// A new robot at the default position (0, 0), fully charged.
    pub fn new(name: String) -> (r: Self)
        ensures
            r.name == name,
            r.position == (Position { x: 0, y: 0 }),
            r.state_of_charge == 255,
    {
        Robot { name, position: Position { x: 0, y: 0 }, state_of_charge: 255 }
    }

    /// Validated movement: on success the position advances exactly as the
    /// movement state machine says; on rejection it is left untouched.
    /// The name and the charge never change.
    pub fn move_robot(&mut self, direction: Direction) -> (r: Result<(), MovementError>)
        requires
            pos_can_move(old(self).position),
        ensures
            final(self).name == old(self).name,
            final(self).state_of_charge == old(self).state_of_charge,
            match r {
                Ok(()) => move_allowed(direction) && final(self).position == moved_position(
                    old(self).position,
                    direction,
                ),
                Err(e) => !move_allowed(direction) && e == MovementError::TooFar
                    && final(self).position == old(self).position,
            },
    {
        match apply_move(self.position, direction) {
            Ok(p) => {
                self.position = p;
                Ok(())
            },
            Err(e) => Err(e),
        }
    }

    /// A stable, human-readable rendering of name and current position,
    /// used for logs and UI, not for persistence.
    ///
    /// Relies on std's `format!` macro to interpolate the fields.
    #[verifier::external_body]
    pub fn text(&self) -> String {
        format!("(Robot name: {} Position: {}, {})", self.name, self.position.x, self.position.y)
    }

    /// The greeting: hands back the robot's rendering and counts the call.
    /// Printing is the caller's business.
    pub fn hello(&self, count: &mut i32) -> (r: String)
        requires
            *old(count) < i32::MAX,
        ensures
            *final(count) == *old(count) + 1,
    {
        *count += 1;
        self.text()
    }
}

impl Moveable for Robot {
    open spec fn current_position(&self) -> Position {
        self.position
    }

    fn move_robot(&mut self, direction: Direction) -> (r: Result<(), MovementError>) {
        match apply_move(self.position, direction) {
            Ok(p) => {
                self.position = p;
                Ok(())
            },
            Err(e) => Err(e),
        }
    }
}

} // verus!
