//! Pure decision logic behind the interactive control loop: the movement
//! commands a key press maps to, bounds-clamped movement, synchronising a
//! tracked robot into the world, walling the border, and rendering a
//! consistent snapshot of the grid as text.

use crate::position::Position;
use crate::robot::Robot;
use crate::world::{robots_updated, tile_at, Tile, World};
use vstd::prelude::*;

verus! {

/// A movement command issued from the interactive surface.
#[derive(Debug, Clone, Copy, PartialEq, Eq, Structural)]
pub enum Command {
    MoveUp,
    MoveDown,
    MoveLeft,
    MoveRight,
}

/// The interactive loop's movement rule: one cell per command, clamped to
/// the grid `[0, width - 1] x [0, height - 1]`; a move off the grid is
/// simply not taken. This is deliberately simpler than the `TooFar`
/// validation used by `Moveable`.
pub open spec fn clamped_position(p: Position, command: Command, width: i32, height: i32) -> Position {
    match command {
        Command::MoveUp => if p.y > 0 {
            Position { x: p.x, y: (p.y - 1) as i32 }
        } else {
            p
        },
        Command::MoveDown => if p.y < height - 1 {
            Position { x: p.x, y: (p.y + 1) as i32 }
        } else {
            p
        },
        Command::MoveLeft => if p.x > 0 {
            Position { x: (p.x - 1) as i32, y: p.y }
        } else {
            p
        },
        Command::MoveRight => if p.x < width - 1 {
            Position { x: (p.x + 1) as i32, y: p.y }
        } else {
            p
        },
    }
}

/// Applies the clamped movement rule; never fails.
pub fn clamped_move(p: Position, command: Command, width: i32, height: i32) -> (r: Position)
    requires
        i32::MIN < width,
        i32::MIN < height,
    ensures
        r == clamped_position(p, command, width, height),
{
    match command {
        Command::MoveUp => if p.y > 0 {
            Position { x: p.x, y: p.y - 1 }
        } else {
            p
        },
        Command::MoveDown => if p.y < height - 1 {
            Position { x: p.x, y: p.y + 1 }
        } else {
            p
        },
        Command::MoveLeft => if p.x > 0 {
            Position { x: p.x - 1, y: p.y }
        } else {
            p
        },
        Command::MoveRight => if p.x < width - 1 {
            Position { x: p.x + 1, y: p.y }
        } else {
            p
        },
    }
}

/// One interactive movement: clamps the tracked robot's position and
/// synchronises the change into the world's record of that robot.
pub fn handle_movement(
    world: &mut World,
    robot: &mut Robot,
    command: Command,
    width: i32,
    height: i32,
)
    requires
        i32::MIN < width,
        i32::MIN < height,
    ensures
        final(robot).name == old(robot).name,
        final(robot).state_of_charge == old(robot).state_of_charge,
        final(robot).position == clamped_position(old(robot).position, command, width, height),
        final(world).height == old(world).height,
        final(world).width == old(world).width,
        final(world).tiles@ == old(world).tiles@,
        robots_updated(
            old(world).robots@,
            final(world).robots@,
            old(robot).name@,
            clamped_position(old(robot).position, command, width, height),
            old(robot).state_of_charge,
        ),
{
    let p = clamped_move(robot.position, command, width, height);
    robot.position = p;
    world.update_robot(robot.name.as_str(), p, robot.state_of_charge);
}

/// Whether a position lies on the outer border of a `width x height` grid:
/// the top and bottom rows, and the first and last columns of the rows in
/// between.
pub open spec fn on_border(p: Position, width: int, height: int) -> bool {
    (0 <= p.x < width && (p.y == 0 || p.y == height - 1)) || (1 <= p.y < height - 1 && (p.x == 0
        || p.x == width - 1))
}

/// Surrounds the grid with the given tile: afterwards every border
/// position holds it and every other position is unchanged.
#[verifier::loop_isolation(false)]
pub fn add_outer_wall(world: &mut World, width: i32, height: i32, wall_tile: Tile)
    requires
        old(world).wf(),
        i32::MIN < width,
        i32::MIN < height,
    ensures
        final(world).wf(),
        final(world).height == old(world).height,
        final(world).width == old(world).width,
        final(world).robots@ == old(world).robots@,
        forall|q: Position|
            on_border(q, width as int, height as int) ==> tile_at(final(world).tiles@, q) == Some(
                wall_tile,
            ),
        forall|q: Position|
            !on_border(q, width as int, height as int) ==> tile_at(final(world).tiles@, q)
                == tile_at(old(world).tiles@, q),
{
    let mut x: i32 = 0;
    while x < width
        invariant
            world.wf(),
            world.height == old(world).height,
            world.width == old(world).width,
            world.robots@ == old(world).robots@,
            0 <= x,
            x <= width || x == 0,
            forall|q: Position|
                (0 <= q.x < x && (q.y == 0 || q.y == height - 1)) ==> tile_at(world.tiles@, q)
                    == Some(wall_tile),
            forall|q: Position|
                !(0 <= q.x < x && (q.y == 0 || q.y == height - 1)) ==> tile_at(world.tiles@, q)
                    == tile_at(old(world).tiles@, q),
        decreases width - x,
    {
        world.add_tile(Position { x, y: 0 }, wall_tile);
        world.add_tile(Position { x, y: height - 1 }, wall_tile);
        x += 1;
    }
    let mut y: i32 = 1;
    while y < height - 1
        invariant
            world.wf(),
            world.height == old(world).height,
            world.width == old(world).width,
            world.robots@ == old(world).robots@,
            1 <= y,
            y <= height - 1 || y == 1,
            forall|q: Position|
                (0 <= q.x < width && (q.y == 0 || q.y == height - 1)) ==> tile_at(world.tiles@, q)
                    == Some(wall_tile),
            forall|q: Position|
                (1 <= q.y < y && (q.x == 0 || q.x == width - 1)) ==> tile_at(world.tiles@, q)
                    == Some(wall_tile),
            forall|q: Position|
                !(0 <= q.x < width && (q.y == 0 || q.y == height - 1)) && !(1 <= q.y < y && (q.x
                    == 0 || q.x == width - 1)) ==> tile_at(world.tiles@, q) == tile_at(
                    old(world).tiles@,
                    q,
                ),
        decreases height - 1 - y,
    {
        world.add_tile(Position { x: 0, y }, wall_tile);
        world.add_tile(Position { x: width - 1, y }, wall_tile);
        y += 1;
    }
}

/// Whether some robot stands at the given position.
pub open spec fn robot_at(robots: Seq<Robot>, p: Position) -> bool {
    exists|i: int| 0 <= i < robots.len() && robots[i].position == p
}

fn robot_at_exec(world: &World, p: Position) -> (r: bool)
    ensures
        r == robot_at(world.robots@, p),
{
    let n = world.robots.len();
    let mut i: usize = 0;
    while i < n
        invariant
            n == world.robots@.len(),
            i <= n,
            forall|j: int| 0 <= j < i ==> world.robots@[j].position != p,
        decreases n - i,
    {
        if world.robots[i].position.x == p.x && world.robots[i].position.y == p.y {
            assert(world.robots@[i as int].position == p);
            return true;
        }
        i += 1;
    }
    false
}

/// What one grid cell shows: a robot takes priority over a tile, a wall or
/// charge pad tile over empty space; anything else renders as blank.
pub open spec fn cell_char(world: World, x: int, y: int) -> char {
    if robot_at(world.robots@, Position { x: x as i32, y: y as i32 }) {
        'R'
    } else {
        match tile_at(world.tiles@, Position { x: x as i32, y: y as i32 }) {
            Some(Tile::Wall) => 'W',
            Some(Tile::ChargePad) => 'C',
            _ => ' ',
        }
    }
}

/// The first `x` cells of row `y`, leftmost first.
pub open spec fn render_cells(world: World, y: int, x: int) -> Seq<char>
    decreases x,
{
    if x <= 0 {
        Seq::empty()
    } else {
        render_cells(world, y, x - 1).push(cell_char(world, x - 1, y))
    }
}

/// Row `y` of the grid: `width` cells and a terminating newline.
pub open spec fn render_row(world: World, width: int, y: int) -> Seq<char> {
    render_cells(world, y, width).push('\n')
}

/// The first `h` rows of the grid, top row first.
pub open spec fn render_rows(world: World, width: int, h: int) -> Seq<char>
    decreases h,
{
    if h <= 0 {
        Seq::empty()
    } else {
        render_rows(world, width, h - 1) + render_row(world, width, h - 1)
    }
}

proof fn lemma_render_cells_len(world: World, y: int, x: int)
    requires
        0 <= x,
    ensures
        render_cells(world, y, x).len() == x,
    decreases x,
{
    if x > 0 {
        lemma_render_cells_len(world, y, x - 1);
    }
}

proof fn lemma_render_cells_index(world: World, y: int, x: int, k: int)
    requires
        0 <= k < x,
    ensures
        render_cells(world, y, x).len() >= x,
        render_cells(world, y, x)[k] == cell_char(world, k, y),
    decreases x,
{
    lemma_render_cells_len(world, y, x);
    if k < x - 1 {
        lemma_render_cells_index(world, y, x - 1, k);
    } else {
        lemma_render_cells_len(world, y, x - 1);
    }
}

pub proof fn lemma_render_rows_len(world: World, width: int, h: int)
    requires
        0 <= width,
        0 <= h,
    ensures
        render_rows(world, width, h).len() == h * (width + 1),
    decreases h,
{
    if h > 0 {
        lemma_render_rows_len(world, width, h - 1);
        lemma_render_cells_len(world, h - 1, width);
        assert(render_rows(world, width, h) == render_rows(world, width, h - 1) + render_row(
            world,
            width,
            h - 1,
        ));
        assert(render_row(world, width, h - 1).len() == width + 1);
        assert(h * (width + 1) == (h - 1) * (width + 1) + (width + 1)) by (nonlinear_arith);
    } else {
        assert(h == 0);
        assert(h * (width + 1) == 0) by (nonlinear_arith)
            requires
                h == 0,
        ;
    }
}

/// The rendered text holds exactly one character per grid cell: the cell
/// at column `col` of row `row` stands at offset `row * (width + 1) + col`,
/// and offset `width` of each row holds the newline.
pub proof fn lemma_render_rows_index(world: World, width: int, h: int, row: int, col: int)
    requires
        0 <= width,
        0 <= row < h,
        0 <= col <= width,
    ensures
        render_rows(world, width, h).len() == h * (width + 1),
        render_rows(world, width, h)[row * (width + 1) + col] == if col == width {
            '\n'
        } else {
            cell_char(world, col, row)
        },
    decreases h,
{
    lemma_render_rows_len(world, width, h);
    lemma_render_rows_len(world, width, h - 1);
    lemma_render_cells_len(world, h - 1, width);
    if row == h - 1 {
        assert(row * (width + 1) + col - (h - 1) * (width + 1) == col);
        if col < width {
            lemma_render_cells_index(world, h - 1, width, col);
        }
    } else {
        lemma_render_rows_index(world, width, h - 1, row, col);
        vstd::arithmetic::mul::lemma_mul_inequality(row + 1, h - 1, width + 1);
        assert((row + 1) * (width + 1) == row * (width + 1) + (width + 1)) by (nonlinear_arith);
    }
}

/// A full textual snapshot of the grid, rows `0..height` each holding
/// columns `0..width` and ending in a newline.
#[verifier::loop_isolation(false)]
pub fn render_world(world: &World, width: i32, height: i32) -> (r: Vec<char>)
    requires
        world.wf(),
    ensures
        r@ == render_rows(*world, width as int, height as int),
{
    let mut out: Vec<char> = Vec::new();
    let mut y: i32 = 0;
    if height <= 0 {
        return out;
    }
    while y < height
        invariant
            0 <= y <= height,
            out@ =~= render_rows(*world, width as int, y as int),
        decreases height - y,
    {
        let mut x: i32 = 0;
        while x < width
            invariant
                0 <= y < height,
                0 <= x,
                x <= width || x == 0,
                out@ =~= render_rows(*world, width as int, y as int) + render_cells(
                    *world,
                    y as int,
                    x as int,
                ),
            decreases width - x,
        {
            let p = Position { x, y };
            let c: char = if robot_at_exec(world, p) {
                'R'
            } else {
                match world.get_tile(p) {
                    Some(Tile::Wall) => 'W',
                    Some(Tile::ChargePad) => 'C',
                    _ => ' ',
                }
            };
            out.push(c);
            x += 1;
        }
        out.push('\n');
        proof {
            assert(render_cells(*world, y as int, width as int) =~= render_cells(
                *world,
                y as int,
                x as int,
            ));
            assert(out@ =~= render_rows(*world, width as int, y as int + 1));
        }
        y += 1;
    }
    out
}

} // verus!
