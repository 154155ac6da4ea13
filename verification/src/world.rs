//! The aggregate root: the tile map and the robot collection for one
//! simulation instance. All mutation passes through it.

use crate::moveable::{move_allowed, moved_position, pos_can_move, Direction, MovementError};
use crate::position::Position;
use crate::robot::Robot;
use crate::text::str_eq;
use vstd::prelude::*;

verus! {

/// Static terrain classification attached to a position.
#[derive(Debug, Clone, Copy, PartialEq, Eq, Structural)]
pub enum Tile {
    Empty,
    Wall,
    ChargePad,
}

/// The world: immutable dimensions, a position-keyed tile map (kept as an
/// association list with unique keys; last write wins on insert at an
/// existing key), and the robots in insertion order.
///
/// Height and width bound the logical grid but are not enforced on tile
/// insertion or robot placement: out-of-range positions are representable
/// and readers tolerate them.
#[derive(Debug)]
pub struct World {
    pub height: u32,
    pub width: u32,
    pub tiles: Vec<(Position, Tile)>,
    pub robots: Vec<Robot>,
}

/// The tile map's key-uniqueness invariant.
pub open spec fn tiles_wf(tiles: Seq<(Position, Tile)>) -> bool {
    forall|i: int, j: int| 0 <= i < j < tiles.len() ==> tiles[i].0 != tiles[j].0
}

/// Whether some entry carries the given key.
pub open spec fn has_tile(tiles: Seq<(Position, Tile)>, p: Position) -> bool {
    exists|i: int| 0 <= i < tiles.len() && tiles[i].0 == p
}

/// The index of the entry with the given key (unique under `tiles_wf`).
pub open spec fn tile_index(tiles: Seq<(Position, Tile)>, p: Position) -> int {
    choose|i: int| 0 <= i < tiles.len() && tiles[i].0 == p
}

/// Tile lookup as a partial map.
pub open spec fn tile_at(tiles: Seq<(Position, Tile)>, p: Position) -> Option<Tile> {
    if has_tile(tiles, p) {
        Some(tiles[tile_index(tiles, p)].1)
    } else {
        None
    }
}

/// The tile map after an insert: overwrite the entry with the same key if
/// one exists, otherwise append.
pub open spec fn upsert_tiles(
    tiles: Seq<(Position, Tile)>,
    p: Position,
    t: Tile,
) -> Seq<(Position, Tile)> {
    if has_tile(tiles, p) {
        tiles.update(tile_index(tiles, p), (p, t))
    } else {
        tiles.push((p, t))
    }
}

/// Under `tiles_wf`, any matching index is the matching index.
pub proof fn lemma_tile_index_is(tiles: Seq<(Position, Tile)>, p: Position, i: int)
    requires
        tiles_wf(tiles),
        0 <= i < tiles.len(),
        tiles[i].0 == p,
    ensures
        has_tile(tiles, p),
        tile_index(tiles, p) == i,
{
    assert(has_tile(tiles, p));
    let j = tile_index(tiles, p);
    if i < j {
        assert(tiles[i].0 != tiles[j].0);
    } else if j < i {
        assert(tiles[j].0 != tiles[i].0);
    }
}

/// An upsert keeps the key-uniqueness invariant and acts as a map insert:
/// the inserted key now holds the new tile, every other key is unchanged.
pub proof fn lemma_upsert_tiles(tiles: Seq<(Position, Tile)>, p: Position, t: Tile)
    requires
        tiles_wf(tiles),
    ensures
        tiles_wf(upsert_tiles(tiles, p, t)),
        tile_at(upsert_tiles(tiles, p, t), p) == Some(t),
        forall|q: Position| q != p ==> tile_at(upsert_tiles(tiles, p, t), q) == tile_at(tiles, q),
{
    let new = upsert_tiles(tiles, p, t);
    if has_tile(tiles, p) {
        let i = tile_index(tiles, p);
        assert(0 <= i < tiles.len() && tiles[i].0 == p);
        assert forall|a: int, b: int| 0 <= a < b < new.len() implies new[a].0 != new[b].0 by {
            assert(tiles[a].0 != tiles[b].0);
        }
        lemma_tile_index_is(new, p, i);
        assert forall|q: Position| q != p implies tile_at(new, q) == tile_at(tiles, q) by {
            assert forall|k: int| 0 <= k < new.len() implies new[k].0 == q <==> tiles[k].0 == q by {
                if k == i {
                    assert(new[k].0 == p && tiles[k].0 == p);
                }
            }
            if has_tile(tiles, q) {
                let k = tile_index(tiles, q);
                assert(new[k].0 == q);
                lemma_tile_index_is(new, q, k);
                assert(k != i);
            } else {
                assert(!has_tile(new, q));
            }
        }
    } else {
        let n = tiles.len() as int;
        assert(new[n].0 == p);
        assert forall|a: int, b: int| 0 <= a < b < new.len() implies new[a].0 != new[b].0 by {
            if b < n {
                assert(tiles[a].0 != tiles[b].0);
            } else {
                assert(new[b].0 == p);
                assert(tiles[a].0 != p);
            }
        }
        lemma_tile_index_is(new, p, n);
        assert forall|q: Position| q != p implies tile_at(new, q) == tile_at(tiles, q) by {
            if has_tile(tiles, q) {
                let k = tile_index(tiles, q);
                assert(new[k].0 == q);
                lemma_tile_index_is(new, q, k);
            } else {
                if has_tile(new, q) {
                    let k = tile_index(new, q);
                    assert(0 <= k < new.len() && new[k].0 == q);
                    assert(k == n);
                }
            }
        }
    }
}

/// Whether some robot carries the given name.
pub open spec fn has_robot(robots: Seq<Robot>, name: Seq<char>) -> bool {
    exists|i: int| 0 <= i < robots.len() && robots[i].name@ == name
}

/// The index of the first robot with the given name; robots are addressed
/// by name only, so the first match is the one every operation acts on.
pub open spec fn first_robot_index(robots: Seq<Robot>, name: Seq<char>) -> int {
    choose|i: int|
        0 <= i < robots.len() && robots[i].name@ == name && (forall|j: int|
            0 <= j < i ==> robots[j].name@ != name)
}

/// A first match both exists and is pinned down by any index that matches
/// with a match-free prefix.
pub proof fn lemma_first_robot_index_is(robots: Seq<Robot>, name: Seq<char>, i: int)
    requires
        0 <= i < robots.len(),
        robots[i].name@ == name,
        forall|j: int| 0 <= j < i ==> robots[j].name@ != name,
    ensures
        has_robot(robots, name),
        first_robot_index(robots, name) == i,
{
    assert(has_robot(robots, name));
    let k = first_robot_index(robots, name);
    assert(0 <= k < robots.len() && robots[k].name@ == name && (forall|j: int|
        0 <= j < k ==> robots[j].name@ != name));
    if k < i {
        assert(robots[k].name@ != name);
    } else if i < k {
        assert(robots[i].name@ != name);
    }
}

/// How the robot collection changes when the first robot with a given name
/// is overwritten with a position and a charge: a no-op when the name is
/// absent; otherwise only that robot changes, and its name is kept.
pub open spec fn robots_updated(
    old_robots: Seq<Robot>,
    new_robots: Seq<Robot>,
    name: Seq<char>,
    position: Position,
    charge: u8,
) -> bool {
    if !has_robot(old_robots, name) {
        new_robots == old_robots
    } else {
        let i = first_robot_index(old_robots, name);
        &&& new_robots.len() == old_robots.len()
        &&& forall|j: int| 0 <= j < old_robots.len() && j != i ==> new_robots[j] == old_robots[j]
        &&& new_robots[i].name == old_robots[i].name
        &&& new_robots[i].position == position
        &&& new_robots[i].state_of_charge == charge
    }
}

impl World {
    /// The tile map's invariant: keys are unique.
    pub open spec fn wf(&self) -> bool {
        tiles_wf(self.tiles@)
    }

    /// An empty world of the given dimensions.
    pub fn new(height: u32, width: u32) -> (w: Self)
        ensures
            w.height == height,
            w.width == width,
            w.tiles@ == Seq::<(Position, Tile)>::empty(),
            w.robots@ == Seq::<Robot>::empty(),
            w.wf(),
    {
        Self { height, width, tiles: Vec::new(), robots: Vec::new() }
    }

    /// Upsert into the tile map: overwrites any existing tile at that
    /// position, appends otherwise.
    #[verifier::loop_isolation(false)]
    pub fn add_tile(&mut self, position: Position, tile: Tile)
        requires
            old(self).wf(),
        ensures
            final(self).wf(),
            final(self).height == old(self).height,
            final(self).width == old(self).width,
            final(self).robots@ == old(self).robots@,
            final(self).tiles@ == upsert_tiles(old(self).tiles@, position, tile),
            tile_at(final(self).tiles@, position) == Some(tile),
            forall|q: Position|
                q != position ==> tile_at(final(self).tiles@, q) == tile_at(old(self).tiles@, q),
    {
        proof {
            lemma_upsert_tiles(old(self).tiles@, position, tile);
        }
        let n = self.tiles.len();
        let mut i: usize = 0;
        while i < n
            invariant
                *self == *old(self),
                n == self.tiles@.len(),
                i <= n,
                forall|j: int| 0 <= j < i ==> self.tiles@[j].0 != position,
            decreases n - i,
        {
            if self.tiles[i].0 == position {
                proof {
                    lemma_tile_index_is(self.tiles@, position, i as int);
                }
                self.tiles.set(i, (position, tile));
                return ;
            }
            i += 1;
        }
        assert(!has_tile(self.tiles@, position));
        self.tiles.push((position, tile));
    }

    /// The tile at a position, if any.
    #[verifier::loop_isolation(false)]
    pub fn get_tile(&self, position: Position) -> (r: Option<Tile>)
        requires
            self.wf(),
        ensures
            r == tile_at(self.tiles@, position),
    {
        let n = self.tiles.len();
        let mut i: usize = 0;
        while i < n
            invariant
                self.wf(),
                n == self.tiles@.len(),
                i <= n,
                forall|j: int| 0 <= j < i ==> self.tiles@[j].0 != position,
            decreases n - i,
        {
            if self.tiles[i].0 == position {
                proof {
                    lemma_tile_index_is(self.tiles@, position, i as int);
                }
                return Some(self.tiles[i].1);
            }
            i += 1;
        }
        assert(!has_tile(self.tiles@, position));
        None
    }

    /// Appends a new robot with the given name at the default position.
    pub fn add_robot_new(&mut self, name: String)
        ensures
            final(self).height == old(self).height,
            final(self).width == old(self).width,
            final(self).tiles@ == old(self).tiles@,
            final(self).robots@ == old(self).robots@.push(
                (Robot { name, position: Position { x: 0, y: 0 }, state_of_charge: 255 }),
            ),
    {
        let robot = Robot::new(name);
        self.robots.push(robot);
    }

    /// Appends a pre-built robot.
    pub fn add_robot_existing(&mut self, robot: Robot)
        ensures
            final(self).height == old(self).height,
            final(self).width == old(self).width,
            final(self).tiles@ == old(self).tiles@,
            final(self).robots@ == old(self).robots@.push(robot),
    {
        self.robots.push(robot);
    }

    /// Appends a robot built from its parts.
    pub fn add_robot(&mut self, name: String, position: Position, state_of_charge: u8)
        ensures
            final(self).height == old(self).height,
            final(self).width == old(self).width,
            final(self).tiles@ == old(self).tiles@,
            final(self).robots@ == old(self).robots@.push(
                (Robot { name, position, state_of_charge }),
            ),
    {
        self.robots.push(Robot { name, position, state_of_charge });
    }

    /// The position of the first robot with the given name; `None` when no
    /// robot carries it (absence is not an error).
    #[verifier::loop_isolation(false)]
    pub fn get_robot_position(&self, name: &str) -> (r: Option<Position>)
        ensures
            r is Some <==> has_robot(self.robots@, name@),
            has_robot(self.robots@, name@) ==> r == Some(
                self.robots@[first_robot_index(self.robots@, name@)].position,
            ),
    {
        let n = self.robots.len();
        let mut i: usize = 0;
        while i < n
            invariant
                n == self.robots@.len(),
                i <= n,
                forall|j: int| 0 <= j < i ==> self.robots@[j].name@ != name@,
            decreases n - i,
        {
            if str_eq(self.robots[i].name.as_str(), name) {
                proof {
                    lemma_first_robot_index_is(self.robots@, name@, i as int);
                }
                return Some(self.robots[i].position);
            }
            i += 1;
        }
        assert(!has_robot(self.robots@, name@));
        None
    }

    /// Forwards a movement command to the first robot with the given name.
    /// A rejected movement, or an absent name, is a silent no-op: the call
    /// still reports overall success.
    #[verifier::loop_isolation(false)]
    pub fn move_robot(&mut self, name: &str, direction: Direction) -> (r: Result<
        (),
        MovementError,
    >)
        requires
            has_robot(old(self).robots@, name@) ==> pos_can_move(
                old(self).robots@[first_robot_index(old(self).robots@, name@)].position,
            ),
        ensures
            r is Ok,
            final(self).height == old(self).height,
            final(self).width == old(self).width,
            final(self).tiles@ == old(self).tiles@,
            ({
                let robots = old(self).robots@;
                if has_robot(robots, name@) {
                    let i = first_robot_index(robots, name@);
                    let p = robots[i].position;
                    let target = if move_allowed(direction) {
                        moved_position(p, direction)
                    } else {
                        p
                    };
                    robots_updated(robots, final(self).robots@, name@, target, robots[i].state_of_charge)
                } else {
                    final(self).robots@ == robots
                }
            }),
    {
        let n = self.robots.len();
        let mut i: usize = 0;
        while i < n
            invariant
                *self == *old(self),
                n == self.robots@.len(),
                i <= n,
                forall|j: int| 0 <= j < i ==> self.robots@[j].name@ != name@,
            decreases n - i,
        {
            if str_eq(self.robots[i].name.as_str(), name) {
                proof {
                    lemma_first_robot_index_is(self.robots@, name@, i as int);
                }
                let mut robot = Robot {
                    name: self.robots[i].name.clone(),
                    position: self.robots[i].position,
                    state_of_charge: self.robots[i].state_of_charge,
                };
                let _ = robot.move_robot(direction);
                self.robots.set(i, robot);
                return Ok(());
            }
            i += 1;
        }
        assert(!has_robot(self.robots@, name@));
        Ok(())
    }

    /// Unconditionally overwrites the first matching robot's position and
    /// charge; a no-op when the name is absent.
    #[verifier::loop_isolation(false)]
    pub fn update_robot(&mut self, name: &str, position: Position, state_of_charge: u8)
        ensures
            final(self).height == old(self).height,
            final(self).width == old(self).width,
            final(self).tiles@ == old(self).tiles@,
            robots_updated(old(self).robots@, final(self).robots@, name@, position, state_of_charge),
    {
        let n = self.robots.len();
        let mut i: usize = 0;
        while i < n
            invariant
                *self == *old(self),
                n == self.robots@.len(),
                i <= n,
                forall|j: int| 0 <= j < i ==> self.robots@[j].name@ != name@,
            decreases n - i,
        {
            if str_eq(self.robots[i].name.as_str(), name) {
                proof {
                    lemma_first_robot_index_is(self.robots@, name@, i as int);
                }
                let robot = Robot {
                    name: self.robots[i].name.clone(),
                    position,
                    state_of_charge,
                };
                self.robots.set(i, robot);
                return ;
            }
            i += 1;
        }
        assert(!has_robot(self.robots@, name@));
    }
}

} // verus!
