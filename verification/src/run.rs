//! Demonstration sequences: a sample run of robot movements, and the
//! construction of a fresh demo world when no snapshot is available.

use crate::moveable::{moved_position, pos_can_move, Direction};
use crate::position::Position;
use crate::robot::Robot;
use crate::world::{lemma_first_robot_index_is, tile_at, Tile, World};
use vstd::prelude::*;

verus! {

/// Runs the sample sequence of robot movements: two rejected forward
/// steps, an accepted one, then one move in each remaining direction and a
/// second move right, ending at (1, 1).
pub fn run() -> (r: Robot)
    ensures
        r.name@ == "wall-e"@,
        r.position == (Position { x: 1, y: 1 }),
        r.state_of_charge == 255,
{
    let mut robot = Robot::new("wall-e".to_owned());
    let _ = robot.move_robot(Direction::Forward { step: 4 });
    let _ = robot.move_robot(Direction::Forward { step: 5 });
    let _ = robot.move_robot(Direction::Forward { step: 2 });
    let _ = robot.move_robot(Direction::Left);
    let _ = robot.move_robot(Direction::Backwards);
    let _ = robot.move_robot(Direction::Right);
    let _ = robot.move_robot(Direction::Right);
    robot
}

/// Builds the fresh demo world: one wall tile at the origin, the given
/// robot transplanted in, a robot named karl appended, and karl (that is,
/// the first robot of that name) moved two steps forward.
pub fn setup_world(height: u32, width: u32, robot: Robot) -> (w: World)
    requires
        pos_can_move(robot.position),
    ensures
        w.wf(),
        w.height == height,
        w.width == width,
        tile_at(w.tiles@, Position { x: 0, y: 0 }) == Some(Tile::Wall),
        forall|q: Position|
            q != (Position { x: 0, y: 0 }) ==> tile_at(w.tiles@, q) is None,
        w.robots@.len() == 2,
        w.robots@[0].name == robot.name,
        w.robots@[0].state_of_charge == robot.state_of_charge,
        w.robots@[1].name@ == "karl"@,
        w.robots@[1].state_of_charge == 255,
        robot.name@ == "karl"@ ==> w.robots@[0].position == moved_position(
            robot.position,
            Direction::Forward { step: 2 },
        ) && w.robots@[1].position == (Position { x: 0, y: 0 }),
        robot.name@ != "karl"@ ==> w.robots@[0].position == robot.position
            && w.robots@[1].position == (Position { x: 0, y: 2 }),
{
    let ghost robot0 = robot;
    let mut w = World::new(height, width);
    w.add_tile(Position { x: 0, y: 0 }, Tile::Wall);
    w.add_robot_existing(robot);
    w.add_robot_new("karl".to_owned());
    proof {
        if robot0.name@ == "karl"@ {
            lemma_first_robot_index_is(w.robots@, "karl"@, 0);
        } else {
            lemma_first_robot_index_is(w.robots@, "karl"@, 1);
        }
    }
    let _ = w.move_robot("karl", Direction::Forward { step: 2 });
    w
}

} // verus!
