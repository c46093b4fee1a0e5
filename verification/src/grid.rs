//! The mathematical model of a grid: a sequence of rows of tiles,
//! indexed `(row, col)`, zero-based, row-major, together with the tile
//! counts that the puzzle invariants speak of and the lemmas that track
//! those counts across single-cell updates.

use crate::tile::{is_player_tile, is_uncovered_goal, Tile};
use vstd::prelude::*;

verus! {

/// Whether `(r, c)` indexes a cell of the grid.
pub open spec fn in_bounds(g: Seq<Seq<Tile>>, r: int, c: int) -> bool {
    0 <= r < g.len() && 0 <= c < g[r].len()
}

/// Every row has length `cols`.
pub open spec fn rectangular(g: Seq<Seq<Tile>>, cols: int) -> bool {
    forall|i: int| 0 <= i < g.len() ==> (#[trigger] g[i].len()) == cols
}

/// The grid with the tile at `(r, c)` replaced by `t`.
pub open spec fn grid_set(g: Seq<Seq<Tile>>, r: int, c: int, t: Tile) -> Seq<Seq<Tile>> {
    g.update(r, g[r].update(c, t))
}

/// The abstract grid a vector of rows holds.
pub open spec fn tiles_view(m: Vec<Vec<Tile>>) -> Seq<Seq<Tile>> {
    Seq::new(m@.len(), |i: int| m@[i]@)
}

/// The number of cells: the sum of the row lengths.
pub open spec fn cell_count(g: Seq<Seq<Tile>>) -> nat
    decreases g.len(),
{
    if g.len() == 0 {
        0
    } else {
        cell_count(g.drop_last()) + g.last().len()
    }
}

/// How much one tile contributes to the count of uncovered goals.
pub open spec fn goal_weight(t: Tile) -> nat {
    if is_uncovered_goal(t) {
        1
    } else {
        0
    }
}

/// How much one tile contributes to the count of player tiles.
pub open spec fn player_weight(t: Tile) -> nat {
    if is_player_tile(t) {
        1
    } else {
        0
    }
}

/// The number of uncovered goals in one row.
pub open spec fn row_uncovered_goals(row: Seq<Tile>) -> nat
    decreases row.len(),
{
    if row.len() == 0 {
        0
    } else {
        row_uncovered_goals(row.drop_last()) + goal_weight(row.last())
    }
}

/// The number of uncovered goals in the grid: what `remaining_goals`
/// must always equal.
pub open spec fn uncovered_goals(g: Seq<Seq<Tile>>) -> nat
    decreases g.len(),
{
    if g.len() == 0 {
        0
    } else {
        uncovered_goals(g.drop_last()) + row_uncovered_goals(g.last())
    }
}

/// The number of player tiles in one row.
pub open spec fn row_players(row: Seq<Tile>) -> nat
    decreases row.len(),
{
    if row.len() == 0 {
        0
    } else {
        row_players(row.drop_last()) + player_weight(row.last())
    }
}

/// The number of player tiles in the grid.
pub open spec fn player_tiles(g: Seq<Seq<Tile>>) -> nat
    decreases g.len(),
{
    if g.len() == 0 {
        0
    } else {
        player_tiles(g.drop_last()) + row_players(g.last())
    }
}

/// Replacing one tile keeps the grid's shape and every other cell.
pub proof fn lemma_grid_set_shape(g: Seq<Seq<Tile>>, r: int, c: int, t: Tile)
    requires
        in_bounds(g, r, c),
    ensures
        grid_set(g, r, c, t).len() == g.len(),
        forall|i: int| 0 <= i < g.len() ==> (#[trigger] grid_set(g, r, c, t)[i].len()) == g[
            i
        ].len(),
        forall|i: int, j: int|
            in_bounds(g, i, j) && !(i == r && j == c) ==> #[trigger] grid_set(g, r, c, t)[i][j]
                == g[i][j],
        grid_set(g, r, c, t)[r][c] == t,
{
    let gs = grid_set(g, r, c, t);
    assert forall|i: int| 0 <= i < g.len() implies (#[trigger] gs[i].len()) == g[i].len() by {
        if i == r {
            assert(gs[i] == g[r].update(c, t));
        }
    }
    assert forall|i: int, j: int|
        in_bounds(g, i, j) && !(i == r && j == c) implies #[trigger] gs[i][j] == g[i][j] by {
        if i == r {
            assert(gs[i] == g[r].update(c, t));
        }
    }
}

/// Replacing the tile at `j` trades that tile's goal weight for the new
/// tile's: the rest of the row counts as before.
pub proof fn lemma_row_uncovered_goals_update(row: Seq<Tile>, j: int, t: Tile)
    requires
        0 <= j < row.len(),
    ensures
        row_uncovered_goals(row.update(j, t)) + goal_weight(row[j]) == row_uncovered_goals(row)
            + goal_weight(t),
    decreases row.len(),
{
    let updated = row.update(j, t);
    if j == row.len() - 1 {
        assert(updated.drop_last() =~= row.drop_last());
    } else {
        assert(updated.drop_last() =~= row.drop_last().update(j, t));
        lemma_row_uncovered_goals_update(row.drop_last(), j, t);
    }
}

/// The grid-level form of `lemma_row_uncovered_goals_update`.
pub proof fn lemma_uncovered_goals_update(g: Seq<Seq<Tile>>, r: int, c: int, t: Tile)
    requires
        in_bounds(g, r, c),
    ensures
        uncovered_goals(grid_set(g, r, c, t)) + goal_weight(g[r][c]) == uncovered_goals(g)
            + goal_weight(t),
    decreases g.len(),
{
    let updated = grid_set(g, r, c, t);
    if r == g.len() - 1 {
        assert(updated.drop_last() =~= g.drop_last());
        assert(updated.last() == g.last().update(c, t));
        lemma_row_uncovered_goals_update(g.last(), c, t);
    } else {
        assert(updated.drop_last() =~= grid_set(g.drop_last(), r, c, t));
        assert(updated.last() == g.last());
        lemma_uncovered_goals_update(g.drop_last(), r, c, t);
    }
}

/// Two grids whose rows have the same lengths have the same cell count.
pub proof fn lemma_cell_count_same_shape(g1: Seq<Seq<Tile>>, g2: Seq<Seq<Tile>>)
    requires
        g1.len() == g2.len(),
        forall|i: int| 0 <= i < g1.len() ==> (#[trigger] g1[i].len()) == g2[i].len(),
    ensures
        cell_count(g1) == cell_count(g2),
    decreases g1.len(),
{
    if g1.len() > 0 {
        lemma_cell_count_same_shape(g1.drop_last(), g2.drop_last());
    }
}

/// Replacing one tile does not change the grid's shape, so it keeps the
/// cell count.
pub proof fn lemma_cell_count_grid_set(g: Seq<Seq<Tile>>, r: int, c: int, t: Tile)
    requires
        in_bounds(g, r, c),
    ensures
        cell_count(grid_set(g, r, c, t)) == cell_count(g),
{
    lemma_cell_count_same_shape(grid_set(g, r, c, t), g);
}

/// A row never holds more uncovered goals than cells.
pub proof fn lemma_row_uncovered_goals_le_len(row: Seq<Tile>)
    ensures
        row_uncovered_goals(row) <= row.len(),
    decreases row.len(),
{
    if row.len() > 0 {
        lemma_row_uncovered_goals_le_len(row.drop_last());
    }
}

/// A grid never holds more uncovered goals than cells.
pub proof fn lemma_uncovered_goals_le_cells(g: Seq<Seq<Tile>>)
    ensures
        uncovered_goals(g) <= cell_count(g),
    decreases g.len(),
{
    if g.len() > 0 {
        lemma_uncovered_goals_le_cells(g.drop_last());
        lemma_row_uncovered_goals_le_len(g.last());
    }
}

/// A row with a witness cell that is no uncovered goal holds strictly
/// fewer uncovered goals than cells.
pub proof fn lemma_row_uncovered_goals_lt_len(row: Seq<Tile>, j: int)
    requires
        0 <= j < row.len(),
        !is_uncovered_goal(row[j]),
    ensures
        row_uncovered_goals(row) < row.len(),
    decreases row.len(),
{
    if j == row.len() - 1 {
        lemma_row_uncovered_goals_le_len(row.drop_last());
    } else {
        lemma_row_uncovered_goals_lt_len(row.drop_last(), j);
    }
}

/// A grid with a witness cell that is no uncovered goal holds strictly
/// fewer uncovered goals than cells.
pub proof fn lemma_uncovered_goals_lt_cells(g: Seq<Seq<Tile>>, r: int, c: int)
    requires
        in_bounds(g, r, c),
        !is_uncovered_goal(g[r][c]),
    ensures
        uncovered_goals(g) < cell_count(g),
    decreases g.len(),
{
    if r == g.len() - 1 {
        lemma_uncovered_goals_le_cells(g.drop_last());
        lemma_row_uncovered_goals_lt_len(g.last(), c);
    } else {
        lemma_uncovered_goals_lt_cells(g.drop_last(), r, c);
        lemma_row_uncovered_goals_le_len(g.last());
    }
}

/// A cell that is an uncovered goal makes the count positive.
pub proof fn lemma_uncovered_goals_pos(g: Seq<Seq<Tile>>, r: int, c: int)
    requires
        in_bounds(g, r, c),
        is_uncovered_goal(g[r][c]),
    ensures
        uncovered_goals(g) >= 1,
    decreases g.len(),
{
    if r == g.len() - 1 {
        lemma_row_uncovered_goals_pos(g.last(), c);
    } else {
        lemma_uncovered_goals_pos(g.drop_last(), r, c);
    }
}

/// The row-level form of `lemma_uncovered_goals_pos`.
pub proof fn lemma_row_uncovered_goals_pos(row: Seq<Tile>, j: int)
    requires
        0 <= j < row.len(),
        is_uncovered_goal(row[j]),
    ensures
        row_uncovered_goals(row) >= 1,
    decreases row.len(),
{
    if j < row.len() - 1 {
        lemma_row_uncovered_goals_pos(row.drop_last(), j);
    }
}

/// Scanning one more cell of a row adds exactly that cell's goal
/// weight.
pub proof fn lemma_row_uncovered_goals_scan(row: Seq<Tile>, j: int)
    requires
        0 <= j < row.len(),
    ensures
        row_uncovered_goals(row.subrange(0, j + 1)) == row_uncovered_goals(row.subrange(0, j))
            + goal_weight(row[j]),
{
    let s = row.subrange(0, j + 1);
    assert(s.drop_last() =~= row.subrange(0, j));
    assert(s.last() == row[j]);
}

/// Scanning one more row adds exactly that row's uncovered goals.
pub proof fn lemma_uncovered_goals_scan(g: Seq<Seq<Tile>>, i: int)
    requires
        0 <= i < g.len(),
    ensures
        uncovered_goals(g.subrange(0, i + 1)) == uncovered_goals(g.subrange(0, i))
            + row_uncovered_goals(g[i]),
{
    let s = g.subrange(0, i + 1);
    assert(s.drop_last() =~= g.subrange(0, i));
    assert(s.last() == g[i]);
}

/// Scanning one more row adds exactly that row's cells.
pub proof fn lemma_cell_count_scan(g: Seq<Seq<Tile>>, i: int)
    requires
        0 <= i < g.len(),
    ensures
        cell_count(g.subrange(0, i + 1)) == cell_count(g.subrange(0, i)) + g[i].len(),
{
    let s = g.subrange(0, i + 1);
    assert(s.drop_last() =~= g.subrange(0, i));
    assert(s.last() == g[i]);
}

/// A prefix of the grid holds at most as many cells as the whole.
pub proof fn lemma_cell_count_prefix_le(g: Seq<Seq<Tile>>, k: int)
    requires
        0 <= k <= g.len(),
    ensures
        cell_count(g.subrange(0, k)) <= cell_count(g),
    decreases g.len() - k,
{
    if k == g.len() {
        assert(g.subrange(0, k) =~= g);
    } else {
        lemma_cell_count_scan(g, k);
        lemma_cell_count_prefix_le(g, k + 1);
    }
}

/// A row with no player tile counts zero players.
pub proof fn lemma_row_players_zero(row: Seq<Tile>)
    requires
        forall|j: int| 0 <= j < row.len() ==> !is_player_tile(#[trigger] row[j]),
    ensures
        row_players(row) == 0,
    decreases row.len(),
{
    if row.len() > 0 {
        lemma_row_players_zero(row.drop_last());
    }
}

/// A row whose only player tile is at `j` counts exactly one player.
pub proof fn lemma_row_players_one(row: Seq<Tile>, j: int)
    requires
        0 <= j < row.len(),
        is_player_tile(row[j]),
        forall|k: int| 0 <= k < row.len() && k != j ==> !is_player_tile(#[trigger] row[k]),
    ensures
        row_players(row) == 1,
    decreases row.len(),
{
    if j == row.len() - 1 {
        lemma_row_players_zero(row.drop_last());
    } else {
        lemma_row_players_one(row.drop_last(), j);
    }
}

/// A grid whose only player tile is at `(r, c)` counts exactly one
/// player tile.
pub proof fn lemma_player_tiles_one(g: Seq<Seq<Tile>>, r: int, c: int)
    requires
        in_bounds(g, r, c),
        is_player_tile(g[r][c]),
        forall|i: int, j: int|
            in_bounds(g, i, j) && !(i == r && j == c) ==> !is_player_tile(#[trigger] g[i][j]),
    ensures
        player_tiles(g) == 1,
    decreases g.len(),
{
    if r == g.len() - 1 {
        lemma_row_players_one(g.last(), c);
        lemma_player_tiles_grid_zero(g.drop_last());
    } else {
        lemma_player_tiles_one(g.drop_last(), r, c);
        lemma_row_players_zero(g.last());
    }
}

/// A grid with no player tile counts zero player tiles.
pub proof fn lemma_player_tiles_grid_zero(g: Seq<Seq<Tile>>)
    requires
        forall|i: int, j: int| in_bounds(g, i, j) ==> !is_player_tile(#[trigger] g[i][j]),
    ensures
        player_tiles(g) == 0,
    decreases g.len(),
{
    if g.len() > 0 {
        lemma_player_tiles_grid_zero(g.drop_last());
        lemma_row_players_zero(g.last());
    }
}

} // verus!
