//! Tiles, directions and move outcomes of the puzzle, with the spec-level
//! helpers that describe how a single cell changes when the player or a
//! block enters or leaves it.

use vstd::prelude::*;

verus! {

/// One cell's content classification on the grid.  A goal cell that is
/// covered by a block is `BlockOnGoal`; one the player stands on is
/// `PlayerOnGoal`; an uncovered, unoccupied goal is `Goal`.
#[derive(Clone, Copy, Debug, PartialEq, Eq, Structural)]
pub enum Tile {
    Empty,
    Block,
    BlockOnGoal,
    Goal,
    Player,
    PlayerOnGoal,
}

/// A cardinal direction of one requested player move.
#[derive(Clone, Copy, Debug, PartialEq, Eq, Structural)]
pub enum Direction {
    Up,
    Down,
    Left,
    Right,
}

/// How one move request was resolved: rejected outright, a plain step,
/// or a step that pushed a block.
#[derive(Clone, Copy, Debug, PartialEq, Eq, Structural)]
pub enum MoveKind {
    Blocked,
    Moved,
    Pushed,
}

/// The result of one `apply_move` call: the kind of move that happened,
/// and whether the puzzle is solved once the move is done.
#[derive(Clone, Copy, Debug, PartialEq, Eq, Structural)]
pub struct MoveOutcome {
    pub kind: MoveKind,
    pub solved: bool,
}

/// The player may walk onto a cell exactly when nothing stands on it.
pub open spec fn is_walkable(t: Tile) -> bool {
    t == Tile::Empty || t == Tile::Goal
}

/// Whether a block stands on the cell.
pub open spec fn is_block(t: Tile) -> bool {
    t == Tile::Block || t == Tile::BlockOnGoal
}

/// Whether the player stands on the cell.
pub open spec fn is_player_tile(t: Tile) -> bool {
    t == Tile::Player || t == Tile::PlayerOnGoal
}

/// Whether the cell's underlying floor is a goal, whatever stands on it.
pub open spec fn on_goal(t: Tile) -> bool {
    t == Tile::Goal || t == Tile::BlockOnGoal || t == Tile::PlayerOnGoal
}

/// A goal cell that no block covers yet.  The player standing on a goal
/// does not cover it: the puzzle is solved only when blocks cover every
/// goal.
pub open spec fn is_uncovered_goal(t: Tile) -> bool {
    t == Tile::Goal || t == Tile::PlayerOnGoal
}

/// The tile after the player steps onto a cell that held `t`.
pub open spec fn player_entering(t: Tile) -> Tile {
    if on_goal(t) {
        Tile::PlayerOnGoal
    } else {
        Tile::Player
    }
}

/// The tile after a block is pushed onto a cell that held `t`.
pub open spec fn block_entering(t: Tile) -> Tile {
    if on_goal(t) {
        Tile::BlockOnGoal
    } else {
        Tile::Block
    }
}

/// The tile left behind when the player leaves a cell that held `t`.
pub open spec fn player_leaving(t: Tile) -> Tile {
    if on_goal(t) {
        Tile::Goal
    } else {
        Tile::Empty
    }
}

/// Row displacement of one step in the direction (rows grow downward).
pub open spec fn row_delta(d: Direction) -> int {
    match d {
        Direction::Up => -1,
        Direction::Down => 1,
        Direction::Left => 0,
        Direction::Right => 0,
    }
}

/// Column displacement of one step in the direction.
pub open spec fn col_delta(d: Direction) -> int {
    match d {
        Direction::Up => 0,
        Direction::Down => 0,
        Direction::Left => -1,
        Direction::Right => 1,
    }
}

/// The stable one-character display symbol of each tile variant.  Block
/// and BlockOnGoal share a glyph, as do Player and PlayerOnGoal, by
/// design: goal coverage is not visible in a textual rendering.
pub open spec fn glyph_spec(t: Tile) -> char {
    match t {
        Tile::Empty => ' ',
        Tile::Block => 'o',
        Tile::BlockOnGoal => 'o',
        Tile::Goal => '.',
        Tile::Player => 'p',
        Tile::PlayerOnGoal => 'p',
    }
}

/// The display symbol of a tile.
pub fn glyph(t: Tile) -> (c: char)
    ensures
        c == glyph_spec(t),
{
    match t {
        Tile::Empty => ' ',
        Tile::Block => 'o',
        Tile::BlockOnGoal => 'o',
        Tile::Goal => '.',
        Tile::Player => 'p',
        Tile::PlayerOnGoal => 'p',
    }
}

/// The display symbols of one row of tiles, in order, for a textual
/// rendering of the grid.
pub fn render_row(row: &Vec<Tile>) -> (out: Vec<char>)
    ensures
        out@.len() == row@.len(),
        forall|i: int| 0 <= i < row@.len() ==> out@[i] == glyph_spec(#[trigger] row@[i]),
{
    let mut out: Vec<char> = Vec::new();
    let mut i: usize = 0;
    while i < row.len()
        invariant
            i <= row@.len(),
            out@.len() == i,
            forall|k: int| 0 <= k < i ==> out@[k] == glyph_spec(#[trigger] row@[k]),
        decreases row@.len() - i,
    {
        out.push(glyph(row[i]));
        i = i + 1;
    }
    out
}

/// Which direction, if any, a pressed key requests: w/a/s/d in either
/// case move the player; every other key is ignored.
pub open spec fn decode_key_spec(key: char) -> Option<Direction> {
    if key == 'w' || key == 'W' {
        Some(Direction::Up)
    } else if key == 's' || key == 'S' {
        Some(Direction::Down)
    } else if key == 'a' || key == 'A' {
        Some(Direction::Left)
    } else if key == 'd' || key == 'D' {
        Some(Direction::Right)
    } else {
        None
    }
}

/// Decode one pressed key into a move request.
pub fn decode_key(key: char) -> (d: Option<Direction>)
    ensures
        d == decode_key_spec(key),
{
    if key == 'w' || key == 'W' {
        Some(Direction::Up)
    } else if key == 's' || key == 'S' {
        Some(Direction::Down)
    } else if key == 'a' || key == 'A' {
        Some(Direction::Left)
    } else if key == 'd' || key == 'D' {
        Some(Direction::Right)
    } else {
        None
    }
}

} // verus!
