//! Pure decision logic behind the remote interface: token validation,
//! lookup answers and the world operations each request maps to. The
//! transport, the locking and the signal emission live outside the
//! library; every operation here is a plain function on the world.

use crate::position::Position;
use crate::text::str_eq;
use crate::world::{first_robot_index, has_robot, tile_at, upsert_tiles, Tile, World};
use vstd::prelude::*;

verus! {

/// A failure surfaced to a remote caller.
#[derive(Debug, Clone, Copy, PartialEq, Eq, Structural)]
pub enum AdapterError {
    /// A lookup failed: no robot carries the requested name.
    NotFound,
    /// A malformed input, e.g. an unrecognized tile kind token.
    InvalidArgument,
}

/// The tile kind a token names, if any: exactly the three spellings
/// `Empty`, `Wall` and `ChargePad` are recognized.
pub open spec fn tile_kind_of(token: Seq<char>) -> Option<Tile> {
    if token == "Empty"@ {
        Some(Tile::Empty)
    } else if token == "Wall"@ {
        Some(Tile::Wall)
    } else if token == "ChargePad"@ {
        Some(Tile::ChargePad)
    } else {
        None
    }
}

/// Validates a tile kind token; a malformed token is rejected, never
/// silently defaulted.
pub fn parse_tile_kind(token: &str) -> (r: Result<Tile, AdapterError>)
    ensures
        match r {
            Ok(t) => tile_kind_of(token@) == Some(t),
            Err(e) => tile_kind_of(token@) is None && e == AdapterError::InvalidArgument,
        },
{
    if str_eq(token, "Empty") {
        Ok(Tile::Empty)
    } else if str_eq(token, "Wall") {
        Ok(Tile::Wall)
    } else if str_eq(token, "ChargePad") {
        Ok(Tile::ChargePad)
    } else {
        Err(AdapterError::InvalidArgument)
    }
}

/// The add-robot command: appends a robot with the given name at the
/// default position (fire-and-forget, no response payload).
pub fn adapter_add_robot(world: &mut World, name: String)
    ensures
        final(world).height == old(world).height,
        final(world).width == old(world).width,
        final(world).tiles@ == old(world).tiles@,
        final(world).robots@.len() == old(world).robots@.len() + 1,
        final(world).robots@.last().name == name,
        final(world).robots@.last().position == (Position { x: 0, y: 0 }),
        final(world).robots@.drop_last() == old(world).robots@,
{
    world.add_robot_new(name);
}

/// The add-tile command: a recognized token upserts its tile at (x, y); an
/// unrecognized token is rejected with `InvalidArgument` and the world is
/// left unchanged.
pub fn adapter_add_tile(world: &mut World, token: &str, x: i32, y: i32) -> (r: Result<
    (),
    AdapterError,
>)
    requires
        old(world).wf(),
    ensures
        final(world).wf(),
        final(world).height == old(world).height,
        final(world).width == old(world).width,
        final(world).robots@ == old(world).robots@,
        match r {
            Ok(()) => tile_kind_of(token@) is Some && final(world).tiles@ == upsert_tiles(
                old(world).tiles@,
                Position { x, y },
                tile_kind_of(token@)->Some_0,
            ),
            Err(e) => e == AdapterError::InvalidArgument && tile_kind_of(token@) is None
                && final(world).tiles@ == old(world).tiles@,
        },
{
    match parse_tile_kind(token) {
        Ok(tile) => {
            world.add_tile(Position { x, y }, tile);
            Ok(())
        },
        Err(e) => Err(e),
    }
}

/// The get-robot query: the first matching robot's coordinates, or an
/// explicit `NotFound` failure when the name is absent.
pub fn adapter_get_robot(world: &World, name: &str) -> (r: Result<(i32, i32), AdapterError>)
    ensures
        match r {
            Ok(xy) => has_robot(world.robots@, name@) && ({
                let p = world.robots@[first_robot_index(world.robots@, name@)].position;
                xy == (p.x, p.y)
            }),
            Err(e) => e == AdapterError::NotFound && !has_robot(world.robots@, name@),
        },
{
    match world.get_robot_position(name) {
        Some(p) => Ok((p.x, p.y)),
        None => Err(AdapterError::NotFound),
    }
}

/// The height property, computed from the current world snapshot.
pub fn adapter_height(world: &World) -> (r: u32)
    ensures
        r == world.height,
{
    world.height
}

/// The width property, computed from the current world snapshot.
pub fn adapter_width(world: &World) -> (r: u32)
    ensures
        r == world.width,
{
    world.width
}

} // verus!
