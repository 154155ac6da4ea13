use robot_world::position::Position;
use robot_world::robot::Robot;
use robot_world::snapshot::{parse_world, serialize_world};
use robot_world::world::{Tile, World};

// Round trip: a world built from add_tile/add_robot calls survives
// serialization and deserialization with identical height, width, tile
// pairs and robot list (name, position, charge), in order.
#[test]
fn snapshot_round_trip() {
    let mut world = World::new(20, 40);
    world.add_tile(Position { x: 0, y: 0 }, Tile::Wall);
    world.add_tile(Position { x: -3, y: 7 }, Tile::ChargePad);
    world.add_tile(Position { x: 5, y: 5 }, Tile::Empty);
    world.add_tile(Position { x: 0, y: 0 }, Tile::Empty); // overwrite
    let mut rusty = Robot::new("rusty".to_string());
    rusty.position = Position { x: 5, y: 5 };
    rusty.state_of_charge = 128;
    world.add_robot_existing(rusty);
    world.add_robot_new("karl".to_string());
    world.add_robot("weltgeist-\u{00e4}\u{00f6}\u{1f916}".to_string(), Position { x: -1, y: 9 }, 0);

    let doc = serialize_world(&world);
    let restored = parse_world(&doc).expect("a just-serialized world parses back");

    assert_eq!(restored.height, world.height);
    assert_eq!(restored.width, world.width);
    assert_eq!(restored.tiles.len(), world.tiles.len());
    for (a, b) in restored.tiles.iter().zip(world.tiles.iter()) {
        assert_eq!(a.0, b.0);
        assert_eq!(a.1, b.1);
    }
    assert_eq!(restored.robots.len(), world.robots.len());
    for (a, b) in restored.robots.iter().zip(world.robots.iter()) {
        assert_eq!(a.name, b.name);
        assert_eq!(a.position, b.position);
        assert_eq!(a.state_of_charge, b.state_of_charge);
    }
}

#[test]
fn snapshot_round_trip_empty_world() {
    let world = World::new(0, 0);
    let doc = serialize_world(&world);
    let restored = parse_world(&doc).unwrap();
    assert_eq!(restored.height, 0);
    assert_eq!(restored.width, 0);
    assert!(restored.tiles.is_empty());
    assert!(restored.robots.is_empty());
}

#[test]
fn snapshot_document_is_textual() {
    let mut world = World::new(1, 2);
    world.add_tile(Position { x: 0, y: 0 }, Tile::Wall);
    let doc = serialize_world(&world);
    // height, width, one tile at the offset encoding of zero, no robots
    let text: String = doc.iter().collect();
    assert_eq!(
        text,
        "00000001000000020000000000000001800000008000000\
         0W0000000000000000"
    );
}

#[test]
fn parse_rejects_malformed_documents() {
    assert!(parse_world(&Vec::new()).is_none());
    let junk: Vec<char> = "not a snapshot".chars().collect();
    assert!(parse_world(&junk).is_none());
    // a valid document with a trailing character is rejected
    let world = World::new(3, 3);
    let mut doc = serialize_world(&world);
    doc.push('x');
    assert!(parse_world(&doc).is_none());
    // a truncated document is rejected
    let mut doc2 = serialize_world(&world);
    doc2.pop();
    assert!(parse_world(&doc2).is_none());
}

#[test]
fn parse_rejects_bad_tile_marker() {
    let mut world = World::new(3, 3);
    world.add_tile(Position { x: 0, y: 0 }, Tile::Wall);
    let doc = serialize_world(&world);
    let mut text: String = doc.iter().collect();
    // the tile marker is the last character of the tile entry
    let marker_at = 8 + 8 + 16 + 8 + 8;
    text.replace_range(marker_at..marker_at + 1, "Q");
    let doc2: Vec<char> = text.chars().collect();
    assert!(parse_world(&doc2).is_none());
}
