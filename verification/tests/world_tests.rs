use robot_world::control::add_outer_wall;
use robot_world::moveable::Direction;
use robot_world::position::Position;
use robot_world::robot::Robot;
use robot_world::run::{run, setup_world};
use robot_world::world::{Tile, World};

// Scenario: a walled 20x40 world; karl walks forward two steps, then a
// too-far command is swallowed and leaves him where he was.
#[test]
fn walled_world_scenario() {
    let mut world = World::new(20, 40);
    for x in 0..40 {
        world.add_tile(Position { x, y: 0 }, Tile::Wall);
        world.add_tile(Position { x, y: 19 }, Tile::Wall);
    }
    for y in 1..19 {
        world.add_tile(Position { x: 0, y }, Tile::Wall);
        world.add_tile(Position { x: 39, y }, Tile::Wall);
    }
    world.add_robot_new("karl".to_string());
    assert!(world.move_robot("karl", Direction::Forward { step: 2 }).is_ok());
    let p = world.get_robot_position("karl").unwrap();
    assert_eq!((p.x, p.y), (0, 2));
    // The rejection is swallowed: the call reports success, karl stays put.
    assert!(world.move_robot("karl", Direction::Forward { step: 5 }).is_ok());
    let p = world.get_robot_position("karl").unwrap();
    assert_eq!((p.x, p.y), (0, 2));
}

#[test]
fn add_tile_overwrites_existing_key() {
    let mut world = World::new(5, 5);
    world.add_tile(Position { x: 1, y: 2 }, Tile::Wall);
    world.add_tile(Position { x: 3, y: 3 }, Tile::Empty);
    world.add_tile(Position { x: 1, y: 2 }, Tile::ChargePad);
    assert_eq!(world.get_tile(Position { x: 1, y: 2 }), Some(Tile::ChargePad));
    assert_eq!(world.get_tile(Position { x: 3, y: 3 }), Some(Tile::Empty));
    assert_eq!(world.get_tile(Position { x: 0, y: 0 }), None);
    assert_eq!(world.tiles.len(), 2);
}

#[test]
fn get_robot_position_absent_name() {
    let mut world = World::new(5, 5);
    assert_eq!(world.get_robot_position("nobody"), None);
    world.add_robot_new("rusty".to_string());
    assert_eq!(world.get_robot_position("nobody"), None);
    let p = world.get_robot_position("rusty").unwrap();
    assert_eq!((p.x, p.y), (0, 0));
}

#[test]
fn move_robot_absent_name_is_silent_success() {
    let mut world = World::new(5, 5);
    world.add_robot_new("rusty".to_string());
    assert!(world.move_robot("ghost", Direction::Right).is_ok());
    let p = world.get_robot_position("rusty").unwrap();
    assert_eq!((p.x, p.y), (0, 0));
}

#[test]
fn add_robot_existing_and_parts() {
    let mut world = World::new(5, 5);
    let mut robot = Robot::new("alpha".to_string());
    robot.position = Position { x: 2, y: 3 };
    world.add_robot_existing(robot);
    world.add_robot("beta".to_string(), Position { x: 4, y: 4 }, 17);
    let p = world.get_robot_position("alpha").unwrap();
    assert_eq!((p.x, p.y), (2, 3));
    let p = world.get_robot_position("beta").unwrap();
    assert_eq!((p.x, p.y), (4, 4));
    assert_eq!(world.robots[1].state_of_charge, 17);
}

#[test]
fn update_robot_overwrites_first_match_only() {
    let mut world = World::new(5, 5);
    world.add_robot_new("twin".to_string());
    world.add_robot_new("twin".to_string());
    world.update_robot("twin", Position { x: 1, y: 1 }, 9);
    assert_eq!((world.robots[0].position.x, world.robots[0].position.y), (1, 1));
    assert_eq!(world.robots[0].state_of_charge, 9);
    // the second robot of the same name is untouched
    assert_eq!((world.robots[1].position.x, world.robots[1].position.y), (0, 0));
    assert_eq!(world.robots[1].state_of_charge, 255);
    // an absent name is a no-op
    world.update_robot("ghost", Position { x: 4, y: 4 }, 1);
    assert_eq!(world.robots.len(), 2);
}

#[test]
fn outer_wall_covers_border_only() {
    let mut world = World::new(4, 3);
    add_outer_wall(&mut world, 3, 4, Tile::Wall);
    for x in 0..3 {
        assert_eq!(world.get_tile(Position { x, y: 0 }), Some(Tile::Wall));
        assert_eq!(world.get_tile(Position { x, y: 3 }), Some(Tile::Wall));
    }
    for y in 1..3 {
        assert_eq!(world.get_tile(Position { x: 0, y }), Some(Tile::Wall));
        assert_eq!(world.get_tile(Position { x: 2, y }), Some(Tile::Wall));
    }
    assert_eq!(world.get_tile(Position { x: 1, y: 1 }), None);
    assert_eq!(world.get_tile(Position { x: 1, y: 2 }), None);
}

#[test]
fn run_demo_sequence() {
    let robot = run();
    assert_eq!(robot.name, "wall-e");
    assert_eq!((robot.position.x, robot.position.y), (1, 1));
    assert_eq!(robot.state_of_charge, 255);
}

#[test]
fn setup_world_places_karl() {
    let robot = Robot::new("rusty".to_string());
    let world = setup_world(20, 40, robot);
    assert_eq!(world.height, 20);
    assert_eq!(world.width, 40);
    assert_eq!(world.get_tile(Position { x: 0, y: 0 }), Some(Tile::Wall));
    assert_eq!(world.robots.len(), 2);
    let p = world.get_robot_position("rusty").unwrap();
    assert_eq!((p.x, p.y), (0, 0));
    let p = world.get_robot_position("karl").unwrap();
    assert_eq!((p.x, p.y), (0, 2));
}
