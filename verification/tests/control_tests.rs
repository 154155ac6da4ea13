use robot_world::adapter::{
    adapter_add_robot, adapter_add_tile, adapter_get_robot, adapter_height, adapter_width,
    parse_tile_kind, AdapterError,
};
use robot_world::control::{clamped_move, handle_movement, render_world, Command};
use robot_world::position::Position;
use robot_world::robot::Robot;
use robot_world::world::{Tile, World};

#[test]
fn clamped_moves_inside_grid() {
    let p = Position { x: 5, y: 5 };
    let q = clamped_move(p, Command::MoveUp, 40, 20);
    assert_eq!((q.x, q.y), (5, 4));
    let q = clamped_move(p, Command::MoveDown, 40, 20);
    assert_eq!((q.x, q.y), (5, 6));
    let q = clamped_move(p, Command::MoveLeft, 40, 20);
    assert_eq!((q.x, q.y), (4, 5));
    let q = clamped_move(p, Command::MoveRight, 40, 20);
    assert_eq!((q.x, q.y), (6, 5));
}

#[test]
fn clamped_moves_at_borders_stay_put() {
    let origin = Position { x: 0, y: 0 };
    let q = clamped_move(origin, Command::MoveUp, 40, 20);
    assert_eq!((q.x, q.y), (0, 0));
    let q = clamped_move(origin, Command::MoveLeft, 40, 20);
    assert_eq!((q.x, q.y), (0, 0));
    let corner = Position { x: 39, y: 19 };
    let q = clamped_move(corner, Command::MoveDown, 40, 20);
    assert_eq!((q.x, q.y), (39, 19));
    let q = clamped_move(corner, Command::MoveRight, 40, 20);
    assert_eq!((q.x, q.y), (39, 19));
}

#[test]
fn handle_movement_syncs_world() {
    let mut world = World::new(20, 40);
    let mut rusty = Robot::new("Rusty".to_string());
    rusty.position = Position { x: 5, y: 5 };
    world.add_robot("Rusty".to_string(), rusty.position, rusty.state_of_charge);
    handle_movement(&mut world, &mut rusty, Command::MoveUp, 40, 20);
    assert_eq!((rusty.position.x, rusty.position.y), (5, 4));
    let p = world.get_robot_position("Rusty").unwrap();
    assert_eq!((p.x, p.y), (5, 4));
}

#[test]
fn render_prioritizes_robot_over_tile() {
    let mut world = World::new(2, 3);
    world.add_tile(Position { x: 0, y: 0 }, Tile::Wall);
    world.add_tile(Position { x: 1, y: 0 }, Tile::ChargePad);
    world.add_tile(Position { x: 2, y: 1 }, Tile::Empty);
    world.add_robot("rusty".to_string(), Position { x: 0, y: 0 }, 255);
    let grid: String = render_world(&world, 3, 2).iter().collect();
    // the robot covers the wall under it; an Empty tile renders as blank
    assert_eq!(grid, "RC \n   \n");
}

#[test]
fn render_ignores_out_of_range_entities() {
    let mut world = World::new(2, 2);
    world.add_tile(Position { x: 7, y: 7 }, Tile::Wall);
    world.add_robot("far".to_string(), Position { x: -1, y: 0 }, 255);
    let grid: String = render_world(&world, 2, 2).iter().collect();
    assert_eq!(grid, "  \n  \n");
}

#[test]
fn tile_kind_tokens() {
    assert_eq!(parse_tile_kind("Empty"), Ok(Tile::Empty));
    assert_eq!(parse_tile_kind("Wall"), Ok(Tile::Wall));
    assert_eq!(parse_tile_kind("ChargePad"), Ok(Tile::ChargePad));
    assert_eq!(parse_tile_kind("Lava"), Err(AdapterError::InvalidArgument));
    assert_eq!(parse_tile_kind(""), Err(AdapterError::InvalidArgument));
    assert_eq!(parse_tile_kind("wall"), Err(AdapterError::InvalidArgument));
}

#[test]
fn adapter_add_tile_validates_token() {
    let mut world = World::new(5, 5);
    assert_eq!(adapter_add_tile(&mut world, "Wall", 1, 2), Ok(()));
    assert_eq!(world.get_tile(Position { x: 1, y: 2 }), Some(Tile::Wall));
    assert_eq!(
        adapter_add_tile(&mut world, "Swamp", 3, 3),
        Err(AdapterError::InvalidArgument)
    );
    assert_eq!(world.get_tile(Position { x: 3, y: 3 }), None);
    assert_eq!(world.tiles.len(), 1);
}

#[test]
fn adapter_get_robot_answers() {
    let mut world = World::new(5, 5);
    assert_eq!(adapter_get_robot(&world, "rusty"), Err(AdapterError::NotFound));
    adapter_add_robot(&mut world, "rusty".to_string());
    assert_eq!(adapter_get_robot(&world, "rusty"), Ok((0, 0)));
}

#[test]
fn adapter_properties_read_dimensions() {
    let world = World::new(20, 40);
    assert_eq!(adapter_height(&world), 20);
    assert_eq!(adapter_width(&world), 40);
}

#[test]
fn cli_holds_configuration() {
    let cli = robot_world::cli::Cli::new("rusty".to_string(), 20, 40);
    assert_eq!(cli.name, "rusty");
    assert_eq!(cli.height, 20);
    assert_eq!(cli.width, 40);
}
