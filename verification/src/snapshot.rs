//! The persistence codec: a lossless textual snapshot of a world.
//!
//! The document is plain text over a fixed alphabet: every number is a
//! fixed-width big-endian hexadecimal field, every robot name is written
//! as a character count followed by one field per character, and every
//! tile is one marker character. Layout, in order: height (8 digits),
//! width (8), tile count (16), per tile x, y (8 each, offset-encoded) and
//! its marker; robot count (16), per robot its name length (16), its name,
//! x, y (8 each) and its charge (2).
//!
//! Deserializing a just-serialized world reproduces it exactly; the
//! round-trip theorem is `lemma_snapshot_round_trip`.

use crate::position::Position;
use crate::robot::Robot;
use crate::text::{char_from_u32, string_from_chars, valid_scalar};
use crate::world::{has_tile, tiles_wf, upsert_tiles, Tile, World};
use vstd::arithmetic::div_mod::{lemma_fundamental_div_mod, lemma_mod_bound};
use vstd::prelude::*;
use vstd::string::StrSliceExecFns;

verus! {

/// The hexadecimal digit character for a value in `0..16`.
pub open spec fn hex_char(d: int) -> char {
    if d == 0 {
        '0'
    } else if d == 1 {
        '1'
    } else if d == 2 {
        '2'
    } else if d == 3 {
        '3'
    } else if d == 4 {
        '4'
    } else if d == 5 {
        '5'
    } else if d == 6 {
        '6'
    } else if d == 7 {
        '7'
    } else if d == 8 {
        '8'
    } else if d == 9 {
        '9'
    } else if d == 10 {
        'a'
    } else if d == 11 {
        'b'
    } else if d == 12 {
        'c'
    } else if d == 13 {
        'd'
    } else if d == 14 {
        'e'
    } else {
        'f'
    }
}

/// The value of a hexadecimal digit character; -1 for any other character.
pub open spec fn hex_val(c: char) -> int {
    if c == '0' {
        0
    } else if c == '1' {
        1
    } else if c == '2' {
        2
    } else if c == '3' {
        3
    } else if c == '4' {
        4
    } else if c == '5' {
        5
    } else if c == '6' {
        6
    } else if c == '7' {
        7
    } else if c == '8' {
        8
    } else if c == '9' {
        9
    } else if c == 'a' {
        10
    } else if c == 'b' {
        11
    } else if c == 'c' {
        12
    } else if c == 'd' {
        13
    } else if c == 'e' {
        14
    } else if c == 'f' {
        15
    } else {
        -1
    }
}

pub open spec fn is_hex_digit(c: char) -> bool {
    0 <= hex_val(c)
}

pub open spec fn pow16(n: nat) -> int
    decreases n,
{
    if n == 0 {
        1
    } else {
        16 * pow16((n - 1) as nat)
    }
}

proof fn lemma_pow16_16()
    ensures
        pow16(16) == 0x1_0000_0000_0000_0000,
{
    reveal_with_fuel(pow16, 17);
}

proof fn lemma_pow16_pos(n: nat)
    ensures
        pow16(n) >= 1,
    decreases n,
{
    if n > 0 {
        lemma_pow16_pos((n - 1) as nat);
    }
}

proof fn lemma_pow16_mono(a: nat, b: nat)
    requires
        a <= b,
    ensures
        pow16(a) <= pow16(b),
    decreases b,
{
    if a < b {
        lemma_pow16_mono(a, (b - 1) as nat);
        lemma_pow16_pos((b - 1) as nat);
    }
}

proof fn lemma_hex_char_val(d: int)
    requires
        0 <= d < 16,
    ensures
        hex_val(hex_char(d)) == d,
        is_hex_digit(hex_char(d)),
{
}

/// Division by 16, packaged for the digit proofs.
proof fn lemma_div16(v: int, p: int)
    requires
        0 <= v,
        v < 16 * p,
    ensures
        0 <= v / 16 < p,
        0 <= v % 16 < 16,
        v == 16 * (v / 16) + v % 16,
{
    lemma_fundamental_div_mod(v, 16);
    lemma_mod_bound(v, 16);
    let q = v / 16;
    let r = v % 16;
    assert(0 <= q && q < p) by (nonlinear_arith)
        requires
            0 <= v,
            v < 16 * p,
            v == 16 * q + r,
            0 <= r < 16,
    ;
}

/// A value written as `n` hexadecimal digits, most significant first.
pub open spec fn hex_seq(v: int, n: nat) -> Seq<char>
    decreases n,
{
    if n == 0 {
        Seq::empty()
    } else {
        hex_seq(v / 16, (n - 1) as nat).push(hex_char(v % 16))
    }
}

pub proof fn lemma_hex_seq_len(v: int, n: nat)
    ensures
        hex_seq(v, n).len() == n,
    decreases n,
{
    if n > 0 {
        lemma_hex_seq_len(v / 16, (n - 1) as nat);
    }
}

/// Reading `n` hexadecimal digits at offset `i`: the value and the offset
/// after them, or `None` if the text does not hold `n` digits there.
pub open spec fn parse_hex(s: Seq<char>, i: int, n: nat) -> Option<(int, int)>
    decreases n,
{
    if n == 0 {
        if 0 <= i <= s.len() {
            Some((0, i))
        } else {
            None
        }
    } else {
        match parse_hex(s, i, (n - 1) as nat) {
            Option::None => None,
            Option::Some((hi, j)) => if j < s.len() && is_hex_digit(s[j]) {
                Some((hi * 16 + hex_val(s[j]), j + 1))
            } else {
                None
            },
        }
    }
}

pub proof fn lemma_parse_hex_props(s: Seq<char>, i: int, n: nat)
    requires
        parse_hex(s, i, n) is Some,
    ensures
        ({
            let (v, j) = parse_hex(s, i, n)->Some_0;
            &&& 0 <= v < pow16(n)
            &&& j == i + n
            &&& 0 <= i
            &&& j <= s.len()
        }),
    decreases n,
{
    if n > 0 {
        let m = (n - 1) as nat;
        lemma_parse_hex_props(s, i, m);
        let (hi, j) = parse_hex(s, i, m)->Some_0;
        let d = hex_val(s[j]);
        assert(hi * 16 + d < pow16(n) && 0 <= hi * 16 + d) by (nonlinear_arith)
            requires
                0 <= hi < pow16(m),
                0 <= d < 16,
                pow16(n) == 16 * pow16(m),
        ;
    }
}

proof fn lemma_parse_hex_base_none(s: Seq<char>, i: int, n: nat)
    requires
        !(0 <= i <= s.len()),
    ensures
        parse_hex(s, i, n) is None,
    decreases n,
{
    if n > 0 {
        lemma_parse_hex_base_none(s, i, (n - 1) as nat);
    }
}

proof fn lemma_parse_hex_none_up(s: Seq<char>, i: int, m: nat, n: nat)
    requires
        m <= n,
        parse_hex(s, i, m) is None,
    ensures
        parse_hex(s, i, n) is None,
    decreases n,
{
    if m < n {
        lemma_parse_hex_none_up(s, i, m, (n - 1) as nat);
    }
}

/// Round trip at the digit level: parsing the hex field written for `v`
/// yields `v` and stops right after the field.
pub proof fn lemma_parse_hex_seq(s: Seq<char>, i: int, v: int, n: nat)
    requires
        0 <= v < pow16(n),
        0 <= i,
        i + n <= s.len(),
        s.subrange(i, i + n) == hex_seq(v, n),
    ensures
        parse_hex(s, i, n) == Some((v, i + n as int)),
    decreases n,
{
    if n == 0 {
    } else {
        let m = (n - 1) as nat;
        lemma_div16(v, pow16(m));
        lemma_hex_seq_len(v / 16, m);
        assert(s.subrange(i, i + m as int) =~= hex_seq(v / 16, m)) by {
            assert forall|k: int|
                0 <= k < m implies s.subrange(i, i + m as int)[k] == #[trigger] hex_seq(
                v / 16,
                m,
            )[k] by {
                assert(s.subrange(i, i + n as int)[k] == hex_seq(v, n)[k]);
            }
        }
        lemma_parse_hex_seq(s, i, v / 16, m);
        assert(s[i + m] == hex_char(v % 16)) by {
            assert(s.subrange(i, i + n as int)[m as int] == hex_seq(v, n)[m as int]);
        }
        lemma_hex_char_val(v % 16);
    }
}

fn hex_char_exec(d: u64) -> (c: char)
    requires
        d < 16,
    ensures
        c == hex_char(d as int),
{
    if d == 0 {
        '0'
    } else if d == 1 {
        '1'
    } else if d == 2 {
        '2'
    } else if d == 3 {
        '3'
    } else if d == 4 {
        '4'
    } else if d == 5 {
        '5'
    } else if d == 6 {
        '6'
    } else if d == 7 {
        '7'
    } else if d == 8 {
        '8'
    } else if d == 9 {
        '9'
    } else if d == 10 {
        'a'
    } else if d == 11 {
        'b'
    } else if d == 12 {
        'c'
    } else if d == 13 {
        'd'
    } else if d == 14 {
        'e'
    } else {
        'f'
    }
}

fn hex_val_exec(c: char) -> (r: Option<u8>)
    ensures
        match r {
            Some(d) => hex_val(c) == d as int && d < 16,
            None => hex_val(c) == -1,
        },
{
    if c == '0' {
        Some(0)
    } else if c == '1' {
        Some(1)
    } else if c == '2' {
        Some(2)
    } else if c == '3' {
        Some(3)
    } else if c == '4' {
        Some(4)
    } else if c == '5' {
        Some(5)
    } else if c == '6' {
        Some(6)
    } else if c == '7' {
        Some(7)
    } else if c == '8' {
        Some(8)
    } else if c == '9' {
        Some(9)
    } else if c == 'a' {
        Some(10)
    } else if c == 'b' {
        Some(11)
    } else if c == 'c' {
        Some(12)
    } else if c == 'd' {
        Some(13)
    } else if c == 'e' {
        Some(14)
    } else if c == 'f' {
        Some(15)
    } else {
        None
    }
}

/// Appends the `n`-digit hex field for `v`.
fn push_hex(out: &mut Vec<char>, v: u64, n: usize)
    requires
        (v as int) < pow16(n as nat),
    ensures
        final(out)@ == old(out)@ + hex_seq(v as int, n as nat),
    decreases n,
{
    if n == 0 {
        proof {
            assert(out@ =~= old(out)@ + hex_seq(v as int, 0));
        }
    } else {
        proof {
            lemma_div16(v as int, pow16((n - 1) as nat));
        }
        push_hex(out, v / 16, n - 1);
        let c = hex_char_exec(v % 16);
        out.push(c);
        proof {
            assert(out@ =~= old(out)@ + hex_seq(v as int, n as nat));
        }
    }
}

/// Reads an `n`-digit hex field at offset `i`, exactly as the
/// specification-level parser does.
fn parse_hex_exec(s: &Vec<char>, i: usize, n: usize) -> (r: Option<(u64, usize)>)
    requires
        n <= 16,
    ensures
        match r {
            Some(vj) => parse_hex(s@, i as int, n as nat) == Some(((vj.0 as int), (vj.1 as int)))
                && vj.1 == i + n,
            None => parse_hex(s@, i as int, n as nat) is None,
        },
{
    if i > s.len() {
        proof {
            lemma_parse_hex_base_none(s@, i as int, n as nat);
        }
        return None;
    }
    let mut acc: u64 = 0;
    let mut k: usize = 0;
    while k < n
        invariant
            i <= s@.len(),
            k <= n,
            n <= 16,
            i + k <= s@.len(),
            parse_hex(s@, i as int, k as nat) == Some(((acc as int), (i + k) as int)),
            (acc as int) < pow16(k as nat),
        decreases n - k,
    {
        if s.len() - i <= k {
            proof {
                assert(parse_hex(s@, i as int, (k + 1) as nat) is None);
                lemma_parse_hex_none_up(s@, i as int, (k + 1) as nat, n as nat);
            }
            return None;
        }
        let j = i + k;
        match hex_val_exec(s[j]) {
            Some(d) => {
                proof {
                    lemma_pow16_mono((k + 1) as nat, 16);
                    lemma_pow16_16();
                    assert((acc as int) * 16 + d < pow16((k + 1) as nat)) by (nonlinear_arith)
                        requires
                            0 <= (acc as int) < pow16(k as nat),
                            0 <= d < 16,
                            pow16((k + 1) as nat) == 16 * pow16(k as nat),
                    ;
                }
                acc = acc * 16 + (d as u64);
                k += 1;
            },
            None => {
                proof {
                    assert(parse_hex(s@, i as int, (k + 1) as nat) is None);
                    lemma_parse_hex_none_up(s@, i as int, (k + 1) as nat, n as nat);
                }
                return None;
            },
        }
    }
    Some((acc, i + n))
}

/// The mathematical content of a robot: what a snapshot must preserve.
pub struct RobotModel {
    pub name: Seq<char>,
    pub position: Position,
    pub state_of_charge: u8,
}

/// The mathematical content of a world: what a snapshot must preserve.
pub struct WorldModel {
    pub height: u32,
    pub width: u32,
    pub tiles: Seq<(Position, Tile)>,
    pub robots: Seq<RobotModel>,
}

pub open spec fn robot_model(r: Robot) -> RobotModel {
    RobotModel { name: r.name@, position: r.position, state_of_charge: r.state_of_charge }
}

pub open spec fn world_model(w: World) -> WorldModel {
    WorldModel {
        height: w.height,
        width: w.width,
        tiles: w.tiles@,
        robots: Seq::new(w.robots@.len(), |i: int| robot_model(w.robots@[i])),
    }
}

pub open spec fn ser_u32(v: u32) -> Seq<char> {
    hex_seq(v as int, 8)
}

pub open spec fn ser_u64(v: u64) -> Seq<char> {
    hex_seq(v as int, 16)
}

pub open spec fn ser_u8(v: u8) -> Seq<char> {
    hex_seq(v as int, 2)
}

/// Signed coordinates are stored offset by 2^31, so every field is a
/// nonnegative hex number.
pub open spec fn enc_i32(v: i32) -> int {
    v + 0x8000_0000
}

pub open spec fn ser_i32(v: i32) -> Seq<char> {
    hex_seq(enc_i32(v), 8)
}

/// The marker character for a tile kind.
pub open spec fn tile_char(t: Tile) -> char {
    match t {
        Tile::Empty => 'E',
        Tile::Wall => 'W',
        Tile::ChargePad => 'C',
    }
}

pub open spec fn ser_tile_entry(e: (Position, Tile)) -> Seq<char> {
    ser_i32(e.0.x) + ser_i32(e.0.y) + seq![tile_char(e.1)]
}

pub open spec fn ser_tiles(tiles: Seq<(Position, Tile)>) -> Seq<char>
    decreases tiles.len(),
{
    if tiles.len() == 0 {
        Seq::empty()
    } else {
        ser_tiles(tiles.drop_last()) + ser_tile_entry(tiles.last())
    }
}

pub open spec fn ser_name(name: Seq<char>) -> Seq<char>
    decreases name.len(),
{
    if name.len() == 0 {
        Seq::empty()
    } else {
        ser_name(name.drop_last()) + ser_u32(name.last() as u32)
    }
}

pub open spec fn ser_robot(r: RobotModel) -> Seq<char> {
    ser_u64(r.name.len() as u64) + ser_name(r.name) + ser_i32(r.position.x) + ser_i32(
        r.position.y,
    ) + ser_u8(r.state_of_charge)
}

pub open spec fn ser_robots(robots: Seq<RobotModel>) -> Seq<char>
    decreases robots.len(),
{
    if robots.len() == 0 {
        Seq::empty()
    } else {
        ser_robots(robots.drop_last()) + ser_robot(robots.last())
    }
}

/// The whole snapshot document for a world.
pub open spec fn ser_world(m: WorldModel) -> Seq<char> {
    ser_u32(m.height) + ser_u32(m.width) + ser_u64(m.tiles.len() as u64) + ser_tiles(m.tiles)
        + ser_u64(m.robots.len() as u64) + ser_robots(m.robots)
}

pub open spec fn parse_u32(s: Seq<char>, i: int) -> Option<(u32, int)> {
    match parse_hex(s, i, 8) {
        Option::None => None,
        Option::Some((v, j)) => Some((v as u32, j)),
    }
}

pub open spec fn parse_u64(s: Seq<char>, i: int) -> Option<(u64, int)> {
    match parse_hex(s, i, 16) {
        Option::None => None,
        Option::Some((v, j)) => Some((v as u64, j)),
    }
}

pub open spec fn parse_u8(s: Seq<char>, i: int) -> Option<(u8, int)> {
    match parse_hex(s, i, 2) {
        Option::None => None,
        Option::Some((v, j)) => Some((v as u8, j)),
    }
}

pub open spec fn parse_i32(s: Seq<char>, i: int) -> Option<(i32, int)> {
    match parse_hex(s, i, 8) {
        Option::None => None,
        Option::Some((v, j)) => Some(((v - 0x8000_0000) as i32, j)),
    }
}

pub open spec fn parse_tile_char(c: char) -> Option<Tile> {
    if c == 'E' {
        Some(Tile::Empty)
    } else if c == 'W' {
        Some(Tile::Wall)
    } else if c == 'C' {
        Some(Tile::ChargePad)
    } else {
        None
    }
}

pub open spec fn parse_tile_entry(s: Seq<char>, i: int) -> Option<((Position, Tile), int)> {
    match parse_i32(s, i) {
        Option::None => None,
        Option::Some((x, j)) => match parse_i32(s, j) {
            Option::None => None,
            Option::Some((y, j2)) => if j2 < s.len() {
                match parse_tile_char(s[j2]) {
                    Option::None => None,
                    Option::Some(t) => Some(((Position { x, y }, t), j2 + 1)),
                }
            } else {
                None
            },
        },
    }
}

/// Parsing `cnt` tile entries builds the tile map by upserts, so the
/// result always satisfies the key-uniqueness invariant.
pub open spec fn parse_tiles(s: Seq<char>, i: int, cnt: int) -> Option<
    (Seq<(Position, Tile)>, int),
>
    decreases cnt,
{
    if cnt <= 0 {
        Some((Seq::empty(), i))
    } else {
        match parse_tiles(s, i, cnt - 1) {
            Option::None => None,
            Option::Some((ts, j)) => match parse_tile_entry(s, j) {
                Option::None => None,
                Option::Some((e, j2)) => Some((upsert_tiles(ts, e.0, e.1), j2)),
            },
        }
    }
}

pub open spec fn parse_name(s: Seq<char>, i: int, cnt: int) -> Option<(Seq<char>, int)>
    decreases cnt,
{
    if cnt <= 0 {
        Some((Seq::empty(), i))
    } else {
        match parse_name(s, i, cnt - 1) {
            Option::None => None,
            Option::Some((nm, j)) => match parse_hex(s, j, 8) {
                Option::None => None,
                Option::Some((v, j2)) => if valid_scalar(v) {
                    Some((nm.push(v as char), j2))
                } else {
                    None
                },
            },
        }
    }
}

pub open spec fn parse_robot(s: Seq<char>, i: int) -> Option<(RobotModel, int)> {
    match parse_u64(s, i) {
        Option::None => None,
        Option::Some((len, j)) => match parse_name(s, j, len as int) {
            Option::None => None,
            Option::Some((nm, j2)) => match parse_i32(s, j2) {
                Option::None => None,
                Option::Some((x, j3)) => match parse_i32(s, j3) {
                    Option::None => None,
                    Option::Some((y, j4)) => match parse_u8(s, j4) {
                        Option::None => None,
                        Option::Some((c, j5)) => Some(
                            (
                                RobotModel {
                                    name: nm,
                                    position: Position { x, y },
                                    state_of_charge: c,
                                },
                                j5,
                            ),
                        ),
                    },
                },
            },
        },
    }
}

pub open spec fn parse_robots(s: Seq<char>, i: int, cnt: int) -> Option<(Seq<RobotModel>, int)>
    decreases cnt,
{
    if cnt <= 0 {
        Some((Seq::empty(), i))
    } else {
        match parse_robots(s, i, cnt - 1) {
            Option::None => None,
            Option::Some((rs, j)) => match parse_robot(s, j) {
                Option::None => None,
                Option::Some((r, j2)) => Some((rs.push(r), j2)),
            },
        }
    }
}

/// The whole document, which must be consumed exactly.
pub open spec fn parse_world_model(s: Seq<char>) -> Option<WorldModel> {
    match parse_u32(s, 0) {
        Option::None => None,
        Option::Some((height, i1)) => match parse_u32(s, i1) {
            Option::None => None,
            Option::Some((width, i2)) => match parse_u64(s, i2) {
                Option::None => None,
                Option::Some((ntiles, i3)) => match parse_tiles(s, i3, ntiles as int) {
                    Option::None => None,
                    Option::Some((tiles, i4)) => match parse_u64(s, i4) {
                        Option::None => None,
                        Option::Some((nrobots, i5)) => match parse_robots(s, i5, nrobots as int) {
                            Option::None => None,
                            Option::Some((robots, i6)) => if i6 == s.len() {
                                Some(WorldModel { height, width, tiles, robots })
                            } else {
                                None
                            },
                        },
                    },
                },
            },
        },
    }
}

proof fn lemma_subrange_split(s: Seq<char>, i: int, a: Seq<char>, b: Seq<char>)
    requires
        0 <= i,
        i + a.len() + b.len() <= s.len(),
        s.subrange(i, i + a.len() + b.len()) == a + b,
    ensures
        s.subrange(i, i + a.len()) == a,
        s.subrange(i + a.len(), i + a.len() + b.len()) == b,
{
    assert(s.subrange(i, i + a.len()) =~= a) by {
        assert forall|k: int| 0 <= k < a.len() implies s.subrange(i, i + a.len())[k] == a[k] by {
            assert(s.subrange(i, i + a.len() + b.len())[k] == (a + b)[k]);
        }
    }
    assert(s.subrange(i + a.len(), i + a.len() + b.len()) =~= b) by {
        assert forall|k: int|
            0 <= k < b.len() implies s.subrange(i + a.len(), i + a.len() + b.len())[k] == b[k] by {
            assert(s.subrange(i, i + a.len() + b.len())[a.len() + k] == (a + b)[a.len() + k]);
            assert(s.subrange(i + a.len(), i + a.len() + b.len())[k] == s[i + a.len() + k]);
            assert(s.subrange(i, i + a.len() + b.len())[a.len() + k] == s[i + a.len() + k]);
            assert((a + b)[a.len() + k] == b[k]);
        }
    }
}

proof fn lemma_pow16_8()
    ensures
        pow16(8) == 0x1_0000_0000,
        pow16(2) == 0x100,
{
    reveal_with_fuel(pow16, 9);
}

proof fn lemma_parse_u32_ser(s: Seq<char>, i: int, v: u32)
    requires
        0 <= i,
        i + 8 <= s.len(),
        s.subrange(i, i + 8) == ser_u32(v),
    ensures
        parse_u32(s, i) == Some((v, i + 8)),
{
    lemma_pow16_8();
    lemma_parse_hex_seq(s, i, v as int, 8);
}

proof fn lemma_parse_u64_ser(s: Seq<char>, i: int, v: u64)
    requires
        0 <= i,
        i + 16 <= s.len(),
        s.subrange(i, i + 16) == ser_u64(v),
    ensures
        parse_u64(s, i) == Some((v, i + 16)),
{
    lemma_pow16_16();
    lemma_parse_hex_seq(s, i, v as int, 16);
}

proof fn lemma_parse_u8_ser(s: Seq<char>, i: int, v: u8)
    requires
        0 <= i,
        i + 2 <= s.len(),
        s.subrange(i, i + 2) == ser_u8(v),
    ensures
        parse_u8(s, i) == Some((v, i + 2)),
{
    lemma_pow16_8();
    lemma_parse_hex_seq(s, i, v as int, 2);
}

proof fn lemma_parse_i32_ser(s: Seq<char>, i: int, v: i32)
    requires
        0 <= i,
        i + 8 <= s.len(),
        s.subrange(i, i + 8) == ser_i32(v),
    ensures
        parse_i32(s, i) == Some((v, i + 8)),
{
    lemma_pow16_8();
    lemma_parse_hex_seq(s, i, enc_i32(v), 8);
}

proof fn lemma_parse_tile_entry_ser(s: Seq<char>, i: int, e: (Position, Tile))
    requires
        0 <= i,
        i + 17 <= s.len(),
        s.subrange(i, i + 17) == ser_tile_entry(e),
    ensures
        parse_tile_entry(s, i) == Some((e, i + 17)),
        ser_tile_entry(e).len() == 17,
{
    lemma_hex_seq_len(enc_i32(e.0.x), 8);
    lemma_hex_seq_len(enc_i32(e.0.y), 8);
    assert(ser_tile_entry(e).len() == 17);
    lemma_subrange_split(s, i, ser_i32(e.0.x) + ser_i32(e.0.y), seq![tile_char(e.1)]);
    lemma_subrange_split(s, i, ser_i32(e.0.x), ser_i32(e.0.y));
    lemma_parse_i32_ser(s, i, e.0.x);
    lemma_parse_i32_ser(s, i + 8, e.0.y);
    assert(s[i + 16] == tile_char(e.1)) by {
        assert(s.subrange(i + 16, i + 17)[0] == seq![tile_char(e.1)][0]);
    }
    assert(e == (e.0, e.1));
}

proof fn lemma_parse_tiles_ser(s: Seq<char>, i: int, tiles: Seq<(Position, Tile)>)
    requires
        tiles_wf(tiles),
        0 <= i,
        i + ser_tiles(tiles).len() <= s.len(),
        s.subrange(i, i + ser_tiles(tiles).len()) == ser_tiles(tiles),
    ensures
        parse_tiles(s, i, tiles.len() as int) == Some((tiles, i + ser_tiles(tiles).len())),
    decreases tiles.len(),
{
    if tiles.len() == 0 {
        assert(tiles =~= Seq::<(Position, Tile)>::empty());
    } else {
        let pre = tiles.drop_last();
        let e = tiles.last();
        assert(tiles_wf(pre)) by {
            assert forall|a: int, b: int| 0 <= a < b < pre.len() implies pre[a].0 != pre[b].0 by {
                assert(tiles[a].0 != tiles[b].0);
            }
        }
        lemma_hex_seq_len(enc_i32(e.0.x), 8);
        lemma_hex_seq_len(enc_i32(e.0.y), 8);
        lemma_subrange_split(s, i, ser_tiles(pre), ser_tile_entry(e));
        lemma_parse_tiles_ser(s, i, pre);
        let j = i + ser_tiles(pre).len();
        lemma_parse_tile_entry_ser(s, j, e);
        assert(!has_tile(pre, e.0)) by {
            assert forall|k: int| 0 <= k < pre.len() implies pre[k].0 != e.0 by {
                assert(tiles[k].0 != tiles[tiles.len() - 1].0);
            }
        }
        assert(upsert_tiles(pre, e.0, e.1) =~= tiles) by {
            assert(e == (e.0, e.1));
        }
    }
}

/// Whether every character of a name is its own Unicode scalar value; a
/// sequence obtained from an actual string always is.
pub open spec fn scalar_chars(name: Seq<char>) -> bool {
    forall|k: int| 0 <= k < name.len() ==> valid_scalar(#[trigger] name[k] as int)
}

proof fn lemma_parse_name_ser(s: Seq<char>, i: int, name: Seq<char>)
    requires
        scalar_chars(name),
        0 <= i,
        i + ser_name(name).len() <= s.len(),
        s.subrange(i, i + ser_name(name).len()) == ser_name(name),
    ensures
        parse_name(s, i, name.len() as int) == Some((name, i + ser_name(name).len())),
    decreases name.len(),
{
    if name.len() == 0 {
        assert(name =~= Seq::<char>::empty());
    } else {
        let pre = name.drop_last();
        let c = name.last();
        assert(valid_scalar(c as int));
        assert(scalar_chars(pre)) by {
            assert forall|k: int| 0 <= k < pre.len() implies valid_scalar(
                #[trigger] pre[k] as int,
            ) by {
                assert(valid_scalar(name[k] as int));
            }
        }
        lemma_hex_seq_len(c as u32 as int, 8);
        lemma_subrange_split(s, i, ser_name(pre), ser_u32(c as u32));
        lemma_parse_name_ser(s, i, pre);
        let j = i + ser_name(pre).len();
        lemma_pow16_8();
        lemma_parse_hex_seq(s, j, c as u32 as int, 8);
        assert(c as u32 as int == c as int);
        assert(valid_scalar(c as u32 as int));
        assert((c as u32 as int) as char == c);
        assert(pre.push(c) =~= name);
    }
}

proof fn lemma_ser_name_len(name: Seq<char>)
    ensures
        ser_name(name).len() == 8 * name.len(),
    decreases name.len(),
{
    if name.len() > 0 {
        lemma_ser_name_len(name.drop_last());
        lemma_hex_seq_len(name.last() as u32 as int, 8);
    }
}

proof fn lemma_parse_robot_ser(s: Seq<char>, i: int, r: RobotModel)
    requires
        scalar_chars(r.name),
        r.name.len() < pow16(16),
        0 <= i,
        i + ser_robot(r).len() <= s.len(),
        s.subrange(i, i + ser_robot(r).len()) == ser_robot(r),
    ensures
        parse_robot(s, i) == Some((r, i + ser_robot(r).len())),
{
    lemma_pow16_16();
    lemma_hex_seq_len(r.name.len() as u64 as int, 16);
    lemma_ser_name_len(r.name);
    lemma_hex_seq_len(enc_i32(r.position.x), 8);
    lemma_hex_seq_len(enc_i32(r.position.y), 8);
    lemma_hex_seq_len(r.state_of_charge as int, 2);
    let p1 = ser_u64(r.name.len() as u64);
    let p2 = ser_name(r.name);
    let p3 = ser_i32(r.position.x);
    let p4 = ser_i32(r.position.y);
    let p5 = ser_u8(r.state_of_charge);
    lemma_subrange_split(s, i, p1 + p2 + p3 + p4, p5);
    lemma_subrange_split(s, i, p1 + p2 + p3, p4);
    lemma_subrange_split(s, i, p1 + p2, p3);
    lemma_subrange_split(s, i, p1, p2);
    lemma_parse_u64_ser(s, i, r.name.len() as u64);
    assert(r.name.len() as u64 as int == r.name.len() as int);
    lemma_parse_name_ser(s, i + 16, r.name);
    lemma_parse_i32_ser(s, i + 16 + 8 * r.name.len(), r.position.x);
    lemma_parse_i32_ser(s, i + 16 + 8 * r.name.len() + 8, r.position.y);
    lemma_parse_u8_ser(s, i + 16 + 8 * r.name.len() + 16, r.state_of_charge);
    assert(r == (RobotModel {
        name: r.name,
        position: Position { x: r.position.x, y: r.position.y },
        state_of_charge: r.state_of_charge,
    }));
}

proof fn lemma_parse_robots_ser(s: Seq<char>, i: int, robots: Seq<RobotModel>)
    requires
        forall|k: int| 0 <= k < robots.len() ==> #[trigger] robots[k].name.len() < pow16(16),
        forall|k: int| 0 <= k < robots.len() ==> scalar_chars(#[trigger] robots[k].name),
        0 <= i,
        i + ser_robots(robots).len() <= s.len(),
        s.subrange(i, i + ser_robots(robots).len()) == ser_robots(robots),
    ensures
        parse_robots(s, i, robots.len() as int) == Some((robots, i + ser_robots(robots).len())),
    decreases robots.len(),
{
    if robots.len() == 0 {
        assert(robots =~= Seq::<RobotModel>::empty());
    } else {
        let pre = robots.drop_last();
        let r = robots.last();
        lemma_subrange_split(s, i, ser_robots(pre), ser_robot(r));
        lemma_parse_robots_ser(s, i, pre);
        let j = i + ser_robots(pre).len();
        assert(robots[robots.len() - 1].name.len() < pow16(16));
        assert(scalar_chars(robots[robots.len() - 1].name));
        lemma_parse_robot_ser(s, j, r);
        assert(pre.push(r) =~= robots);
    }
}

/// Whether a model fits the snapshot format's count fields; every model of
/// an actual `World` does, since its collections live in memory.
pub open spec fn model_bounded(m: WorldModel) -> bool {
    &&& m.tiles.len() < pow16(16)
    &&& m.robots.len() < pow16(16)
    &&& forall|k: int| 0 <= k < m.robots.len() ==> #[trigger] m.robots[k].name.len() < pow16(16)
    &&& forall|k: int| 0 <= k < m.robots.len() ==> scalar_chars(#[trigger] m.robots[k].name)
}

/// Law: deserializing a just-serialized world reproduces it exactly: the
/// same height and width, the same tile pairs, and the same robots (name,
/// position, charge) in the same order.
pub proof fn lemma_snapshot_round_trip(m: WorldModel)
    requires
        tiles_wf(m.tiles),
        model_bounded(m),
    ensures
        parse_world_model(ser_world(m)) == Some(m),
{
    lemma_pow16_16();
    let s = ser_world(m);
    let p1 = ser_u32(m.height);
    let p2 = ser_u32(m.width);
    let p3 = ser_u64(m.tiles.len() as u64);
    let p4 = ser_tiles(m.tiles);
    let p5 = ser_u64(m.robots.len() as u64);
    let p6 = ser_robots(m.robots);
    lemma_hex_seq_len(m.height as int, 8);
    lemma_hex_seq_len(m.width as int, 8);
    lemma_hex_seq_len(m.tiles.len() as u64 as int, 16);
    lemma_hex_seq_len(m.robots.len() as u64 as int, 16);
    assert(s.subrange(0, s.len() as int) =~= s);
    lemma_subrange_split(s, 0, p1 + p2 + p3 + p4 + p5, p6);
    lemma_subrange_split(s, 0, p1 + p2 + p3 + p4, p5);
    lemma_subrange_split(s, 0, p1 + p2 + p3, p4);
    lemma_subrange_split(s, 0, p1 + p2, p3);
    lemma_subrange_split(s, 0, p1, p2);
    lemma_parse_u32_ser(s, 0, m.height);
    lemma_parse_u32_ser(s, 8, m.width);
    lemma_parse_u64_ser(s, 16, m.tiles.len() as u64);
    assert(m.tiles.len() as u64 as int == m.tiles.len() as int);
    lemma_parse_tiles_ser(s, 32, m.tiles);
    let i4 = 32 + p4.len() as int;
    lemma_parse_u64_ser(s, i4, m.robots.len() as u64);
    assert(m.robots.len() as u64 as int == m.robots.len() as int);
    lemma_parse_robots_ser(s, i4 + 16, m.robots);
    assert(m == (WorldModel { height: m.height, width: m.width, tiles: m.tiles, robots: m.robots }));
}

/// The round-trip law in the world's own terms: any world whose tile map
/// keeps its invariant — as every world built from `add_tile` and
/// `add_robot` calls does — comes back identical from its snapshot.
pub proof fn lemma_world_snapshot_round_trip(w: World)
    requires
        w.wf(),
        model_bounded(world_model(w)),
    ensures
        parse_world_model(ser_world(world_model(w))) == Some(world_model(w)),
{
    lemma_snapshot_round_trip(world_model(w));
}

proof fn lemma_pow16_usize()
    ensures
        usize::MAX < pow16(16),
        u32::MAX < pow16(8),
{
    lemma_pow16_16();
    reveal_with_fuel(pow16, 9);
}

fn push_i32(out: &mut Vec<char>, v: i32)
    ensures
        final(out)@ == old(out)@ + ser_i32(v),
{
    proof {
        lemma_pow16_usize();
    }
    let e: i64 = (v as i64) + 0x8000_0000i64;
    push_hex(out, e as u64, 8);
}

fn tile_char_exec(t: Tile) -> (c: char)
    ensures
        c == tile_char(t),
{
    match t {
        Tile::Empty => 'E',
        Tile::Wall => 'W',
        Tile::ChargePad => 'C',
    }
}

/// Writes the snapshot document for a world. The document is exactly what
/// the specification-level serializer says, and every world held in memory
/// fits the format's count fields.
pub fn serialize_world(w: &World) -> (out: Vec<char>)
    ensures
        out@ == ser_world(world_model(*w)),
        model_bounded(world_model(*w)),
        tiles_wf(world_model(*w).tiles) == w.wf(),
{
    proof {
        lemma_pow16_usize();
        lemma_pow16_16();
    }
    let ghost m = world_model(*w);
    let mut out: Vec<char> = Vec::new();
    push_hex(&mut out, w.height as u64, 8);
    push_hex(&mut out, w.width as u64, 8);
    push_hex(&mut out, w.tiles.len() as u64, 16);
    let ghost hdr = ser_u32(m.height) + ser_u32(m.width) + ser_u64(m.tiles.len() as u64);
    proof {
        assert(out@ =~= hdr);
    }
    let n = w.tiles.len();
    let mut i: usize = 0;
    while i < n
        invariant
            n == w.tiles@.len(),
            i <= n,
            m == world_model(*w),
            hdr == ser_u32(m.height) + ser_u32(m.width) + ser_u64(m.tiles.len() as u64),
            out@ == hdr + ser_tiles(m.tiles.take(i as int)),
        decreases n - i,
    {
        let (p, t) = w.tiles[i];
        push_i32(&mut out, p.x);
        push_i32(&mut out, p.y);
        out.push(tile_char_exec(t));
        proof {
            assert(m.tiles.take(i + 1).drop_last() =~= m.tiles.take(i as int));
            assert(m.tiles.take(i + 1).last() == m.tiles[i as int]);
            assert(out@ =~= hdr + ser_tiles(m.tiles.take(i + 1)));
        }
        i += 1;
    }
    proof {
        assert(m.tiles.take(n as int) =~= m.tiles);
    }
    push_hex(&mut out, w.robots.len() as u64, 16);
    let ghost hdr2 = hdr + ser_tiles(m.tiles) + ser_u64(m.robots.len() as u64);
    proof {
        assert(out@ =~= hdr2 + ser_robots(m.robots.take(0)));
    }
    let rn = w.robots.len();
    let mut k: usize = 0;
    while k < rn
        invariant
            rn == w.robots@.len(),
            k <= rn,
            m == world_model(*w),
            hdr2 == hdr + ser_tiles(m.tiles) + ser_u64(m.robots.len() as u64),
            out@ == hdr2 + ser_robots(m.robots.take(k as int)),
            forall|r: int|
                0 <= r < k ==> scalar_chars(#[trigger] m.robots[r].name) && m.robots[r].name.len()
                    < pow16(16),
        decreases rn - k,
    {
        proof {
            lemma_pow16_usize();
        }
        let ghost base0 = out@;
        let nm = w.robots[k].name.as_str();
        let nlen = nm.unicode_len();
        push_hex(&mut out, nlen as u64, 16);
        let ghost rname = m.robots[k as int].name;
        proof {
            assert(rname == nm@);
            assert(out@ =~= base0 + ser_u64(rname.len() as u64) + ser_name(rname.take(0)));
        }
        let ghost base1 = base0 + ser_u64(rname.len() as u64);
        let mut j: usize = 0;
        while j < nlen
            invariant
                nlen == nm@.len(),
                j <= nlen,
                rname == nm@,
                out@ == base1 + ser_name(rname.take(j as int)),
                forall|c: int| 0 <= c < j ==> valid_scalar(#[trigger] rname[c] as int),
            decreases nlen - j,
        {
            let c = nm.get_char(j);
            proof {
                lemma_pow16_usize();
                assert((c as u64 as int) < pow16(8)) by {
                    assert(c as u64 as int == c as int);
                }
            }
            push_hex(&mut out, c as u64, 8);
            proof {
                assert(rname.take(j + 1).drop_last() =~= rname.take(j as int));
                assert(rname.take(j + 1).last() == rname[j as int]);
                assert(c == rname[j as int]);
                assert(c as u64 as int == rname[j as int] as u32 as int);
                assert(hex_seq(c as u64 as int, 8) == ser_u32(rname[j as int] as u32));
                assert(out@ =~= base1 + ser_name(rname.take(j + 1)));
                assert(valid_scalar(rname[j as int] as int)) by {
                    assert(c as int == rname[j as int] as int);
                }
            }
            j += 1;
        }
        proof {
            assert(rname.take(nlen as int) =~= rname);
            assert(scalar_chars(rname));
        }
        push_i32(&mut out, w.robots[k].position.x);
        push_i32(&mut out, w.robots[k].position.y);
        proof {
            assert((w.robots[k as int].state_of_charge as u64 as int) < pow16(2)) by {
                lemma_pow16_8();
            }
        }
        push_hex(&mut out, w.robots[k].state_of_charge as u64, 2);
        proof {
            assert(m.robots.take(k + 1).drop_last() =~= m.robots.take(k as int));
            assert(m.robots.take(k + 1).last() == m.robots[k as int]);
            assert(m.robots[k as int] == robot_model(w.robots@[k as int]));
            assert(out@ =~= base0 + ser_robot(m.robots[k as int]));
            assert(out@ =~= hdr2 + ser_robots(m.robots.take(k + 1)));
        }
        k += 1;
    }
    proof {
        assert(m.robots.take(rn as int) =~= m.robots);
        assert(out@ =~= ser_world(m));
        assert(model_bounded(m)) by {
            lemma_pow16_usize();
        }
    }
    out
}

fn parse_u32_exec(s: &Vec<char>, i: usize) -> (r: Option<(u32, usize)>)
    ensures
        match r {
            Some(vj) => parse_u32(s@, i as int) == Some((vj.0, vj.1 as int)) && vj.1 == i + 8
                && vj.1 <= s@.len(),
            None => parse_u32(s@, i as int) is None,
        },
{
    match parse_hex_exec(s, i, 8) {
        Some((v, j)) => {
            proof {
                lemma_parse_hex_props(s@, i as int, 8);
                lemma_pow16_8();
            }
            Some((v as u32, j))
        },
        None => None,
    }
}

fn parse_u64_exec(s: &Vec<char>, i: usize) -> (r: Option<(u64, usize)>)
    ensures
        match r {
            Some(vj) => parse_u64(s@, i as int) == Some((vj.0, vj.1 as int)) && vj.1 == i + 16
                && vj.1 <= s@.len(),
            None => parse_u64(s@, i as int) is None,
        },
{
    match parse_hex_exec(s, i, 16) {
        Some((v, j)) => {
            proof {
                lemma_parse_hex_props(s@, i as int, 16);
            }
            Some((v, j))
        },
        None => None,
    }
}

fn parse_u8_exec(s: &Vec<char>, i: usize) -> (r: Option<(u8, usize)>)
    ensures
        match r {
            Some(vj) => parse_u8(s@, i as int) == Some((vj.0, vj.1 as int)) && vj.1 == i + 2
                && vj.1 <= s@.len(),
            None => parse_u8(s@, i as int) is None,
        },
{
    match parse_hex_exec(s, i, 2) {
        Some((v, j)) => {
            proof {
                lemma_parse_hex_props(s@, i as int, 2);
                lemma_pow16_8();
            }
            Some((v as u8, j))
        },
        None => None,
    }
}

fn parse_i32_exec(s: &Vec<char>, i: usize) -> (r: Option<(i32, usize)>)
    ensures
        match r {
            Some(vj) => parse_i32(s@, i as int) == Some((vj.0, vj.1 as int)) && vj.1 == i + 8
                && vj.1 <= s@.len(),
            None => parse_i32(s@, i as int) is None,
        },
{
    match parse_hex_exec(s, i, 8) {
        Some((v, j)) => {
            proof {
                lemma_parse_hex_props(s@, i as int, 8);
                lemma_pow16_8();
            }
            let x: i32 = ((v as i64) - 0x8000_0000i64) as i32;
            Some((x, j))
        },
        None => None,
    }
}

fn parse_tile_entry_exec(s: &Vec<char>, i: usize) -> (r: Option<(Position, Tile, usize)>)
    ensures
        match r {
            Some(ptj) => parse_tile_entry(s@, i as int) == Some(
                ((ptj.0, ptj.1), ptj.2 as int),
            ) && ptj.2 <= s@.len(),
            None => parse_tile_entry(s@, i as int) is None,
        },
{
    match parse_i32_exec(s, i) {
        None => None,
        Some((x, j)) => match parse_i32_exec(s, j) {
            None => None,
            Some((y, j2)) => {
                if j2 >= s.len() {
                    return None;
                }
                let c = s[j2];
                let t = if c == 'E' {
                    Tile::Empty
                } else if c == 'W' {
                    Tile::Wall
                } else if c == 'C' {
                    Tile::ChargePad
                } else {
                    return None;
                };
                Some((Position { x, y }, t, j2 + 1))
            },
        },
    }
}

proof fn lemma_parse_tiles_none_up(s: Seq<char>, i: int, m: int, n: int)
    requires
        m <= n,
        parse_tiles(s, i, m) is None,
    ensures
        parse_tiles(s, i, n) is None,
    decreases n,
{
    if m < n {
        lemma_parse_tiles_none_up(s, i, m, n - 1);
    }
}

proof fn lemma_parse_robots_none_up(s: Seq<char>, i: int, m: int, n: int)
    requires
        m <= n,
        parse_robots(s, i, m) is None,
    ensures
        parse_robots(s, i, n) is None,
    decreases n,
{
    if m < n {
        lemma_parse_robots_none_up(s, i, m, n - 1);
    }
}

proof fn lemma_parse_name_none_up(s: Seq<char>, i: int, m: int, n: int)
    requires
        m <= n,
        parse_name(s, i, m) is None,
    ensures
        parse_name(s, i, n) is None,
    decreases n,
{
    if m < n {
        lemma_parse_name_none_up(s, i, m, n - 1);
    }
}

/// Reads a snapshot document back into a world, exactly as the
/// specification-level parser says; any malformed document is rejected.
/// A parsed world satisfies the tile map invariant by construction.
#[verifier::loop_isolation(false)]
pub fn parse_world(s: &Vec<char>) -> (r: Option<World>)
    ensures
        match r {
            Some(w) => w.wf() && parse_world_model(s@) == Some(world_model(w)),
            None => parse_world_model(s@) is None,
        },
{
    let (height, i1) = match parse_u32_exec(s, 0) {
        Some(vj) => vj,
        None => {
            return None;
        },
    };
    let (width, i2) = match parse_u32_exec(s, i1) {
        Some(vj) => vj,
        None => {
            return None;
        },
    };
    let (ntiles, i3) = match parse_u64_exec(s, i2) {
        Some(vj) => vj,
        None => {
            return None;
        },
    };
    let mut world = World::new(height, width);
    let mut pos: usize = i3;
    let mut k: u64 = 0;
    while k < ntiles
        invariant
            world.wf(),
            world.height == height,
            world.width == width,
            world.robots@ == Seq::<Robot>::empty(),
            k <= ntiles,
            pos <= s@.len(),
            parse_u32(s@, 0) == Some((height, i1 as int)),
            parse_u32(s@, i1 as int) == Some((width, i2 as int)),
            parse_u64(s@, i2 as int) == Some((ntiles, i3 as int)),
            parse_tiles(s@, i3 as int, k as int) == Some((world.tiles@, pos as int)),
        decreases ntiles - k,
    {
        match parse_tile_entry_exec(s, pos) {
            Some((p, t, j2)) => {
                world.add_tile(p, t);
                pos = j2;
                k += 1;
            },
            None => {
                proof {
                    assert(parse_tiles(s@, i3 as int, k as int + 1) is None);
                    lemma_parse_tiles_none_up(s@, i3 as int, k as int + 1, ntiles as int);
                }
                return None;
            },
        }
    }
    let (nrobots, i5) = match parse_u64_exec(s, pos) {
        Some(vj) => vj,
        None => {
            return None;
        },
    };
    let ghost i4 = pos;
    let ghost tiles_parsed = world.tiles@;
    let mut rpos: usize = i5;
    let mut rk: u64 = 0;
    while rk < nrobots
        invariant
            world.wf(),
            world.height == height,
            world.width == width,
            world.tiles@ == tiles_parsed,
            rk <= nrobots,
            rpos <= s@.len(),
            world.robots@.len() == rk,
            parse_u32(s@, 0) == Some((height, i1 as int)),
            parse_u32(s@, i1 as int) == Some((width, i2 as int)),
            parse_u64(s@, i2 as int) == Some((ntiles, i3 as int)),
            parse_tiles(s@, i3 as int, ntiles as int) == Some((tiles_parsed, i4 as int)),
            parse_u64(s@, i4 as int) == Some((nrobots, i5 as int)),
            parse_robots(s@, i5 as int, rk as int) == Some(
                (
                    Seq::new(world.robots@.len(), |q: int| robot_model(world.robots@[q])),
                    rpos as int,
                ),
            ),
        decreases nrobots - rk,
    {
        let ghost models = Seq::new(world.robots@.len(), |q: int| robot_model(world.robots@[q]));
        let (nlen, j1) = match parse_u64_exec(s, rpos) {
            Some(vj) => vj,
            None => {
                proof {
                    assert(parse_robots(s@, i5 as int, rk as int + 1) is None);
                    lemma_parse_robots_none_up(s@, i5 as int, rk as int + 1, nrobots as int);
                }
                return None;
            },
        };
        let mut chars: Vec<char> = Vec::new();
        let mut cpos: usize = j1;
        let mut ck: u64 = 0;
        while ck < nlen
            invariant
                ck <= nlen,
                cpos <= s@.len(),
                parse_name(s@, j1 as int, ck as int) == Some((chars@, cpos as int)),
            decreases nlen - ck,
        {
            match parse_hex_exec(s, cpos, 8) {
                Some((v, j2)) => {
                    proof {
                        lemma_parse_hex_props(s@, cpos as int, 8);
                        lemma_pow16_8();
                    }
                    match char_from_u32(v as u32) {
                        Some(c) => {
                            chars.push(c);
                            cpos = j2;
                            ck += 1;
                        },
                        None => {
                            proof {
                                assert(parse_name(s@, j1 as int, ck as int + 1) is None);
                                lemma_parse_name_none_up(
                                    s@,
                                    j1 as int,
                                    ck as int + 1,
                                    nlen as int,
                                );
                                assert(parse_robot(s@, rpos as int) is None);
                                assert(parse_robots(s@, i5 as int, rk as int + 1) is None);
                                lemma_parse_robots_none_up(
                                    s@,
                                    i5 as int,
                                    rk as int + 1,
                                    nrobots as int,
                                );
                            }
                            return None;
                        },
                    }
                },
                None => {
                    proof {
                        assert(parse_name(s@, j1 as int, ck as int + 1) is None);
                        lemma_parse_name_none_up(s@, j1 as int, ck as int + 1, nlen as int);
                        assert(parse_robot(s@, rpos as int) is None);
                        assert(parse_robots(s@, i5 as int, rk as int + 1) is None);
                        lemma_parse_robots_none_up(s@, i5 as int, rk as int + 1, nrobots as int);
                    }
                    return None;
                },
            }
        }
        let name = string_from_chars(&chars);
        let (x, j3) = match parse_i32_exec(s, cpos) {
            Some(vj) => vj,
            None => {
                proof {
                    assert(parse_robot(s@, rpos as int) is None);
                    assert(parse_robots(s@, i5 as int, rk as int + 1) is None);
                    lemma_parse_robots_none_up(s@, i5 as int, rk as int + 1, nrobots as int);
                }
                return None;
            },
        };
        let (y, j4) = match parse_i32_exec(s, j3) {
            Some(vj) => vj,
            None => {
                proof {
                    assert(parse_robot(s@, rpos as int) is None);
                    assert(parse_robots(s@, i5 as int, rk as int + 1) is None);
                    lemma_parse_robots_none_up(s@, i5 as int, rk as int + 1, nrobots as int);
                }
                return None;
            },
        };
        let (charge, j5) = match parse_u8_exec(s, j4) {
            Some(vj) => vj,
            None => {
                proof {
                    assert(parse_robot(s@, rpos as int) is None);
                    assert(parse_robots(s@, i5 as int, rk as int + 1) is None);
                    lemma_parse_robots_none_up(s@, i5 as int, rk as int + 1, nrobots as int);
                }
                return None;
            },
        };
        world.add_robot(name, Position { x, y }, charge);
        proof {
            let nmodels = Seq::new(world.robots@.len(), |q: int| robot_model(world.robots@[q]));
            assert(nmodels =~= models.push(
                (RobotModel {
                    name: chars@,
                    position: Position { x, y },
                    state_of_charge: charge,
                }),
            ));
        }
        rpos = j5;
        rk += 1;
    }
    if rpos != s.len() {
        return None;
    }
    proof {
        let models = Seq::new(world.robots@.len(), |q: int| robot_model(world.robots@[q]));
        assert(parse_world_model(s@) == Some(
            (WorldModel { height, width, tiles: tiles_parsed, robots: models }),
        ));
        assert(world_model(world) == (WorldModel {
            height,
            width,
            tiles: tiles_parsed,
            robots: models,
        }));
    }
    Some(world)
}

} // verus!
