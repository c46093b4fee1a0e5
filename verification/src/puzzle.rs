//! The puzzle state machine: the grid, the tracked player position and
//! the remaining-goals counter, with the single-step move resolution
//! that keeps them consistent.

use crate::grid::{
    cell_count, goal_weight, grid_set, in_bounds, lemma_cell_count_grid_set,
    lemma_cell_count_prefix_le, lemma_cell_count_scan, lemma_grid_set_shape,
    lemma_player_tiles_one, lemma_row_uncovered_goals_le_len, lemma_row_uncovered_goals_scan,
    lemma_uncovered_goals_le_cells, lemma_uncovered_goals_lt_cells, lemma_uncovered_goals_pos,
    lemma_uncovered_goals_scan, lemma_uncovered_goals_update, player_tiles, rectangular,
    row_uncovered_goals, tiles_view, uncovered_goals,
};
use crate::tile::{
    block_entering, col_delta, is_block, is_player_tile, is_walkable, player_entering,
    player_leaving, row_delta, Direction, MoveKind, MoveOutcome, Tile,
};
use vstd::prelude::*;

verus! {

/// The single source of truth for one puzzle session: the grid, its
/// dimensions `(rows, cols)`, the player's position `(row, col)` and
/// the count of goals still uncovered.
pub struct MyState {
    pub map: Vec<Vec<Tile>>,
    pub size: (usize, usize),
    pub p: (usize, usize),
    pub remaining_goals: usize,
}

impl View for MyState {
    type V = Seq<Seq<Tile>>;

    open spec fn view(&self) -> Seq<Seq<Tile>> {
        tiles_view(self.map)
    }
}

/// The length every row must have: that of the first row.
pub open spec fn row_len(g: Seq<Seq<Tile>>) -> int {
    if g.len() == 0 {
        0
    } else {
        g[0].len() as int
    }
}

/// A layout a puzzle can start from: rectangular, with exactly one
/// player tile.
pub open spec fn valid_layout(g: Seq<Seq<Tile>>) -> bool {
    &&& rectangular(g, row_len(g))
    &&& exists|r: int, c: int| player_at(g, r, c)
}

/// Whether the row-major scan standing at row `i`, column `j` has
/// already visited cell `(a, b)`.
pub open spec fn scanned(a: int, b: int, i: int, j: int) -> bool {
    a < i || (a == i && b < j)
}

/// The player stands at `(pr, pc)` and nowhere else.
pub open spec fn player_at(g: Seq<Seq<Tile>>, pr: int, pc: int) -> bool {
    &&& in_bounds(g, pr, pc)
    &&& is_player_tile(g[pr][pc])
    &&& forall|i: int, j: int|
        in_bounds(g, i, j) && !(i == pr && j == pc) ==> !is_player_tile(#[trigger] g[i][j])
}

impl MyState {
    /// The recorded dimensions describe the grid, and the grid is small
    /// enough that every tile count fits in a `usize`.
    pub open spec fn dims_ok(self) -> bool {
        &&& self.size.0 == self@.len()
        &&& rectangular(self@, self.size.1 as int)
        &&& cell_count(self@) <= usize::MAX
    }

    /// Exactly one tile holds the player, at the tracked position.
    pub open spec fn player_ok(self) -> bool {
        player_at(self@, self.p.0 as int, self.p.1 as int)
    }

    /// The counter equals the number of goal cells no block covers.
    pub open spec fn goals_ok(self) -> bool {
        self.remaining_goals == uncovered_goals(self@)
    }

    /// The state invariant, established at construction and preserved
    /// by every move.
    pub open spec fn wf(self) -> bool {
        self.dims_ok() && self.player_ok() && self.goals_ok()
    }

    /// Row of the cell the move aims at.
    pub open spec fn target_row(self, d: Direction) -> int {
        self.p.0 + row_delta(d)
    }

    /// Column of the cell the move aims at.
    pub open spec fn target_col(self, d: Direction) -> int {
        self.p.1 + col_delta(d)
    }

    /// Row of the cell one step beyond the target, where a pushed block
    /// would land.
    pub open spec fn beyond_row(self, d: Direction) -> int {
        self.p.0 + 2 * row_delta(d)
    }

    /// Column of the cell one step beyond the target.
    pub open spec fn beyond_col(self, d: Direction) -> int {
        self.p.1 + 2 * col_delta(d)
    }

    /// The move is a plain step: the target cell is inside the grid and
    /// free to walk onto.
    pub open spec fn can_step(self, d: Direction) -> bool {
        &&& in_bounds(self@, self.target_row(d), self.target_col(d))
        &&& is_walkable(self@[self.target_row(d)][self.target_col(d)])
    }

    /// The move pushes a block: the target cell holds a block and the
    /// cell beyond it is inside the grid and free.
    pub open spec fn can_push(self, d: Direction) -> bool {
        &&& in_bounds(self@, self.target_row(d), self.target_col(d))
        &&& is_block(self@[self.target_row(d)][self.target_col(d)])
        &&& in_bounds(self@, self.beyond_row(d), self.beyond_col(d))
        &&& is_walkable(self@[self.beyond_row(d)][self.beyond_col(d)])
    }

    /// A move that neither steps nor pushes is rejected and changes
    /// nothing.
    pub open spec fn is_blocked(self, d: Direction) -> bool {
        !self.can_step(d) && !self.can_push(d)
    }

    /// The grid after a plain step: the player enters the target cell
    /// and the vacated cell keeps its goal marking.
    pub open spec fn step_result(self, d: Direction) -> Seq<Seq<Tile>> {
        let g = self@;
        let tr = self.target_row(d);
        let tc = self.target_col(d);
        let pr = self.p.0 as int;
        let pc = self.p.1 as int;
        grid_set(
            grid_set(g, tr, tc, player_entering(g[tr][tc])),
            pr,
            pc,
            player_leaving(g[pr][pc]),
        )
    }

    /// The grid after a push: the block moves one cell further, the
    /// player enters the block's old cell, and the vacated cell keeps
    /// its goal marking.
    pub open spec fn push_result(self, d: Direction) -> Seq<Seq<Tile>> {
        let g = self@;
        let tr = self.target_row(d);
        let tc = self.target_col(d);
        let br = self.beyond_row(d);
        let bc = self.beyond_col(d);
        let pr = self.p.0 as int;
        let pc = self.p.1 as int;
        grid_set(
            grid_set(
                grid_set(g, br, bc, block_entering(g[br][bc])),
                tr,
                tc,
                player_entering(g[tr][tc]),
            ),
            pr,
            pc,
            player_leaving(g[pr][pc]),
        )
    }
}

/// Store `t` at cell `(r, c)`.
fn set_tile(map: &mut Vec<Vec<Tile>>, r: usize, c: usize, t: Tile)
    requires
        r < old(map)@.len(),
        c < old(map)@[r as int]@.len(),
    ensures
        tiles_view(*final(map)) == grid_set(tiles_view(*old(map)), r as int, c as int, t),
        final(map)@.len() == old(map)@.len(),
        forall|i: int|
            0 <= i < old(map)@.len() ==> (#[trigger] final(map)@[i]@.len()) == old(
                map,
            )@[i]@.len(),
{
    map[r][c] = t;
    proof {
        assert(tiles_view(*map) =~~= grid_set(tiles_view(*old(map)), r as int, c as int, t));
        lemma_grid_set_shape(tiles_view(*old(map)), r as int, c as int, t);
        assert forall|i: int| 0 <= i < old(map)@.len() implies (#[trigger] map@[i]@.len()) == old(
            map,
        )@[i]@.len() by {
            assert(map@[i]@ == tiles_view(*map)[i]);
            assert(old(map)@[i]@ == tiles_view(*old(map))[i]);
        }
    }
}

/// One step from `(r, c)` in direction `d` within a `rows` by `cols`
/// grid, or `None` when the step would leave the grid.
fn step_coord(r: usize, c: usize, rows: usize, cols: usize, d: Direction) -> (res: Option<
    (usize, usize),
>)
    requires
        r < rows,
        c < cols,
    ensures
        res is Some <==> (0 <= r + row_delta(d) < rows && 0 <= c + col_delta(d) < cols),
        res is Some ==> res == Some((((r + row_delta(d)) as usize, (c + col_delta(d)) as usize))),
{
    match d {
        Direction::Up => if r == 0 {
            None
        } else {
            Some((r - 1, c))
        },
        Direction::Down => if r + 1 >= rows {
            None
        } else {
            Some((r + 1, c))
        },
        Direction::Left => if c == 0 {
            None
        } else {
            Some((r, c - 1))
        },
        Direction::Right => if c + 1 >= cols {
            None
        } else {
            Some((r, c + 1))
        },
    }
}

/// The fixed built-in level: a 3 by 6 grid with two goals in the top
/// row, two blocks below them, and the player at row 0, column 4.
pub open spec fn default_grid() -> Seq<Seq<Tile>> {
    seq![
        seq![Tile::Empty, Tile::Goal, Tile::Goal, Tile::Empty, Tile::Player, Tile::Empty],
        seq![Tile::Empty, Tile::Block, Tile::Block, Tile::Empty, Tile::Empty, Tile::Empty],
        seq![Tile::Empty, Tile::Empty, Tile::Empty, Tile::Empty, Tile::Empty, Tile::Empty],
    ]
}

/// What one scan of the built-in level shows: its shape, its two
/// uncovered goals, and its single player tile at row 0, column 4.
proof fn lemma_default_grid_facts()
    ensures
        default_grid().len() == 3,
        rectangular(default_grid(), 6),
        cell_count(default_grid()) == 18,
        uncovered_goals(default_grid()) == 2,
        player_at(default_grid(), 0, 4),
{
    let g = default_grid();
    assert forall|i: int| 0 <= i < g.len() implies (#[trigger] g[i].len()) == 6 by {
        if i == 0 {
            assert(g[0].len() == 6);
        } else if i == 1 {
            assert(g[1].len() == 6);
        } else {
            assert(g[2].len() == 6);
        }
    }
    assert(cell_count(g) == 18) by {
        reveal_with_fuel(cell_count, 5);
    }
    assert(uncovered_goals(g) == 2) by {
        reveal_with_fuel(uncovered_goals, 5);
        reveal_with_fuel(row_uncovered_goals, 8);
    }
    assert forall|i: int, j: int|
        in_bounds(g, i, j) && !(i == 0 && j == 4) implies !is_player_tile(
        #[trigger] g[i][j],
    ) by {
        if i == 0 {
            assert(j == 0 || j == 1 || j == 2 || j == 3 || j == 5);
        } else if i == 1 {
            assert(0 <= j < 6);
        } else {
            assert(i == 2 && 0 <= j < 6);
        }
    }
}

impl Default for MyState {
    /// The puzzle session starts from the fixed built-in level, with
    /// two goals still uncovered.
    fn default() -> (s: Self)
        ensures
            s.wf(),
            s@ == default_grid(),
            s.size.0 == 3 && s.size.1 == 6,
            s.p.0 == 0 && s.p.1 == 4,
            s.remaining_goals == 2,
    {
        let map: Vec<Vec<Tile>> = vec![
            vec![Tile::Empty, Tile::Goal, Tile::Goal, Tile::Empty, Tile::Player, Tile::Empty],
            vec![Tile::Empty, Tile::Block, Tile::Block, Tile::Empty, Tile::Empty, Tile::Empty],
            vec![Tile::Empty, Tile::Empty, Tile::Empty, Tile::Empty, Tile::Empty, Tile::Empty],
        ];
        let s = MyState { map, size: (3, 6), p: (0, 4), remaining_goals: 2 };
        proof {
            assert(s@ =~~= default_grid());
            lemma_default_grid_facts();
        }
        s
    }
}

/// A plain step keeps the grid's shape, the goal count and the player's
/// uniqueness, with the player now at the target cell.
proof fn lemma_step_preserves(pre: MyState, d: Direction)
    requires
        pre.wf(),
        pre.can_step(d),
    ensures
        pre.step_result(d).len() == pre@.len(),
        forall|i: int|
            0 <= i < pre@.len() ==> (#[trigger] pre.step_result(d)[i].len()) == pre@[i].len(),
        cell_count(pre.step_result(d)) == cell_count(pre@),
        uncovered_goals(pre.step_result(d)) == uncovered_goals(pre@),
        player_at(pre.step_result(d), pre.target_row(d), pre.target_col(d)),
{
    let g = pre@;
    let tr = pre.target_row(d);
    let tc = pre.target_col(d);
    let pr = pre.p.0 as int;
    let pc = pre.p.1 as int;
    let g1 = grid_set(g, tr, tc, player_entering(g[tr][tc]));
    let g2 = pre.step_result(d);
    lemma_grid_set_shape(g, tr, tc, player_entering(g[tr][tc]));
    lemma_grid_set_shape(g1, pr, pc, player_leaving(g[pr][pc]));
    lemma_cell_count_grid_set(g, tr, tc, player_entering(g[tr][tc]));
    lemma_cell_count_grid_set(g1, pr, pc, player_leaving(g[pr][pc]));
    lemma_uncovered_goals_update(g, tr, tc, player_entering(g[tr][tc]));
    lemma_uncovered_goals_update(g1, pr, pc, player_leaving(g[pr][pc]));
    assert(g1[pr][pc] == g[pr][pc]);
    assert(is_player_tile(g2[tr][tc]));
    assert forall|i: int, j: int|
        in_bounds(g2, i, j) && !(i == tr && j == tc) implies !is_player_tile(
        #[trigger] g2[i][j],
    ) by {
        assert(in_bounds(g, i, j));
        if i == pr && j == pc {
            assert(g2[i][j] == player_leaving(g[pr][pc]));
        } else {
            assert(g2[i][j] == g[i][j]);
        }
    }
}

/// A push keeps the grid's shape and the player's uniqueness; the goal
/// count loses the goal the block covers and gains the one it uncovers.
proof fn lemma_push_preserves(pre: MyState, d: Direction)
    requires
        pre.wf(),
        pre.can_push(d),
    ensures
        pre.push_result(d).len() == pre@.len(),
        forall|i: int|
            0 <= i < pre@.len() ==> (#[trigger] pre.push_result(d)[i].len()) == pre@[i].len(),
        cell_count(pre.push_result(d)) == cell_count(pre@),
        uncovered_goals(pre.push_result(d)) + goal_weight(
            pre@[pre.beyond_row(d)][pre.beyond_col(d)],
        ) == uncovered_goals(pre@) + (
        if pre@[pre.target_row(d)][pre.target_col(d)] == Tile::BlockOnGoal {
            1nat
        } else {
            0nat
        }),
        player_at(pre.push_result(d), pre.target_row(d), pre.target_col(d)),
{
    let g = pre@;
    let tr = pre.target_row(d);
    let tc = pre.target_col(d);
    let br = pre.beyond_row(d);
    let bc = pre.beyond_col(d);
    let pr = pre.p.0 as int;
    let pc = pre.p.1 as int;
    let g1 = grid_set(g, br, bc, block_entering(g[br][bc]));
    let g2 = grid_set(g1, tr, tc, player_entering(g[tr][tc]));
    let g3 = pre.push_result(d);
    lemma_grid_set_shape(g, br, bc, block_entering(g[br][bc]));
    lemma_grid_set_shape(g1, tr, tc, player_entering(g[tr][tc]));
    lemma_grid_set_shape(g2, pr, pc, player_leaving(g[pr][pc]));
    lemma_cell_count_grid_set(g, br, bc, block_entering(g[br][bc]));
    lemma_cell_count_grid_set(g1, tr, tc, player_entering(g[tr][tc]));
    lemma_cell_count_grid_set(g2, pr, pc, player_leaving(g[pr][pc]));
    lemma_uncovered_goals_update(g, br, bc, block_entering(g[br][bc]));
    lemma_uncovered_goals_update(g1, tr, tc, player_entering(g[tr][tc]));
    lemma_uncovered_goals_update(g2, pr, pc, player_leaving(g[pr][pc]));
    assert(g1[tr][tc] == g[tr][tc]);
    assert(g2[pr][pc] == g[pr][pc]);
    assert(is_player_tile(g3[tr][tc]));
    assert forall|i: int, j: int|
        in_bounds(g3, i, j) && !(i == tr && j == tc) implies !is_player_tile(
        #[trigger] g3[i][j],
    ) by {
        assert(in_bounds(g, i, j));
        if i == pr && j == pc {
            assert(g3[i][j] == player_leaving(g[pr][pc]));
        } else if i == br && j == bc {
            assert(g3[i][j] == block_entering(g[br][bc]));
        } else {
            assert(g3[i][j] == g[i][j]);
        }
    }
}

impl MyState {
    /// Build a puzzle from a layout, rejecting one that is ragged or
    /// does not hold exactly one player tile.  The player position and
    /// the goal counter are read off the grid by one row-major scan.
    pub fn new(map: Vec<Vec<Tile>>) -> (res: Option<MyState>)
        requires
            cell_count(tiles_view(map)) <= usize::MAX,
        ensures
            res is Some <==> valid_layout(tiles_view(map)),
            res matches Some(s) ==> ({
                &&& s.wf()
                &&& s@ == tiles_view(map)
                &&& s.size.0 == tiles_view(map).len()
                &&& s.size.1 == row_len(tiles_view(map))
                &&& player_at(tiles_view(map), s.p.0 as int, s.p.1 as int)
                &&& s.remaining_goals == uncovered_goals(tiles_view(map))
            }),
    {
        let ghost g = tiles_view(map);
        let rows = map.len();
        if rows == 0 {
            proof {
                assert(!valid_layout(g)) by {
                    if valid_layout(g) {
                        let (r, c) = choose|r: int, c: int| player_at(g, r, c);
                        assert(in_bounds(g, r, c));
                    }
                }
            }
            return None;
        }
        let cols = map[0].len();
        proof {
            assert(cols == g[0].len());
            assert(g.subrange(0, 0) =~= Seq::<Seq<Tile>>::empty());
        }
        let mut player: Option<(usize, usize)> = None;
        let mut goals: usize = 0;
        let mut i: usize = 0;
        while i < rows
            invariant
                g == tiles_view(map),
                rows == g.len(),
                rows > 0,
                cols == row_len(g),
                cell_count(g) <= usize::MAX,
                i <= rows,
                forall|k: int| 0 <= k < i ==> (#[trigger] g[k].len()) == cols,
                goals == uncovered_goals(g.subrange(0, i as int)),
                player is None ==> forall|a: int, b: int|
                    in_bounds(g, a, b) && scanned(a, b, i as int, 0) ==> !is_player_tile(
                        #[trigger] g[a][b],
                    ),
                player matches Some(pp) ==> ({
                    &&& scanned(pp.0 as int, pp.1 as int, i as int, 0)
                    &&& in_bounds(g, pp.0 as int, pp.1 as int)
                    &&& is_player_tile(g[pp.0 as int][pp.1 as int])
                    &&& forall|a: int, b: int|
                        in_bounds(g, a, b) && scanned(a, b, i as int, 0) && !(a == pp.0 && b
                            == pp.1) ==> !is_player_tile(#[trigger] g[a][b])
                }),
            decreases rows - i,
        {
            if map[i].len() != cols {
                proof {
                    assert(g[i as int].len() != cols);
                }
                return None;
            }
            proof {
                assert(g[i as int].subrange(0, 0) =~= Seq::<Tile>::empty());
            }
            let mut j: usize = 0;
            while j < cols
                invariant
                    g == tiles_view(map),
                    rows == g.len(),
                    rows > 0,
                    cols == row_len(g),
                    cell_count(g) <= usize::MAX,
                    i < rows,
                    g[i as int].len() == cols,
                    forall|k: int| 0 <= k < i ==> (#[trigger] g[k].len()) == cols,
                    j <= cols,
                    goals == uncovered_goals(g.subrange(0, i as int)) + row_uncovered_goals(
                        g[i as int].subrange(0, j as int),
                    ),
                    player is None ==> forall|a: int, b: int|
                        in_bounds(g, a, b) && scanned(a, b, i as int, j as int)
                            ==> !is_player_tile(#[trigger] g[a][b]),
                    player matches Some(pp) ==> ({
                        &&& scanned(pp.0 as int, pp.1 as int, i as int, j as int)
                        &&& in_bounds(g, pp.0 as int, pp.1 as int)
                        &&& is_player_tile(g[pp.0 as int][pp.1 as int])
                        &&& forall|a: int, b: int|
                            in_bounds(g, a, b) && scanned(a, b, i as int, j as int) && !(a == pp.0
                                && b == pp.1) ==> !is_player_tile(#[trigger] g[a][b])
                    }),
                decreases cols - j,
            {
                let t = map[i][j];
                proof {
                    assert(t == g[i as int][j as int]);
                }
                if t == Tile::Player || t == Tile::PlayerOnGoal {
                    match player {
                        Some(first) => {
                            proof {
                                assert(!valid_layout(g)) by {
                                    if valid_layout(g) {
                                        let (r, c) = choose|r: int, c: int| player_at(g, r, c);
                                        assert(player_at(g, r, c));
                                        assert(is_player_tile(
                                            g[first.0 as int][first.1 as int],
                                        ));
                                        assert(is_player_tile(g[i as int][j as int]));
                                    }
                                }
                            }
                            return None;
                        },
                        None => {
                            player = Some((i, j));
                        },
                    }
                }
                if t == Tile::Goal || t == Tile::PlayerOnGoal {
                    proof {
                        lemma_uncovered_goals_le_cells(g.subrange(0, i as int));
                        lemma_row_uncovered_goals_le_len(g[i as int].subrange(0, j as int));
                        lemma_cell_count_scan(g, i as int);
                        lemma_cell_count_prefix_le(g, i as int + 1);
                    }
                    goals = goals + 1;
                }
                proof {
                    lemma_row_uncovered_goals_scan(g[i as int], j as int);
                }
                j = j + 1;
            }
            proof {
                assert(g[i as int].subrange(0, cols as int) =~= g[i as int]);
                lemma_uncovered_goals_scan(g, i as int);
            }
            i = i + 1;
        }
        match player {
            None => {
                proof {
                    assert(!valid_layout(g)) by {
                        if valid_layout(g) {
                            let (r, c) = choose|r: int, c: int| player_at(g, r, c);
                            assert(player_at(g, r, c));
                            assert(scanned(r, c, rows as int, 0));
                        }
                    }
                }
                None
            },
            Some(pp) => {
                proof {
                    assert(g.subrange(0, rows as int) =~= g);
                    assert(player_at(g, pp.0 as int, pp.1 as int));
                }
                Some(MyState { map, size: (rows, cols), p: pp, remaining_goals: goals })
            },
        }
    }

    /// Resolve one move request atomically: a rejected move changes
    /// nothing, a step or a push changes exactly the cells it names,
    /// and the invariant and the goal counter stay exact.
    pub fn apply_move(&mut self, d: Direction) -> (r: MoveOutcome)
        requires
            old(self).wf(),
        ensures
            final(self).wf(),
            final(self).size == old(self).size,
            (r.kind == MoveKind::Blocked) <==> old(self).is_blocked(d),
            old(self).is_blocked(d) ==> *final(self) == *old(self),
            old(self).can_step(d) ==> r.kind == MoveKind::Moved && final(self)@ == old(
                self,
            ).step_result(d) && final(self).p.0 == old(self).target_row(d) && final(self).p.1
                == old(self).target_col(d) && final(self).remaining_goals == old(
                self,
            ).remaining_goals,
            old(self).can_push(d) ==> r.kind == MoveKind::Pushed && final(self)@ == old(
                self,
            ).push_result(d) && final(self).p.0 == old(self).target_row(d) && final(self).p.1
                == old(self).target_col(d),
            r.solved == (final(self).remaining_goals == 0),
    {
        let (pr, pc) = self.p;
        let target = step_coord(pr, pc, self.size.0, self.size.1, d);
        let (tr, tc) = match target {
            None => {
                return MoveOutcome { kind: MoveKind::Blocked, solved: self.remaining_goals == 0 };
            },
            Some(t) => t,
        };
        proof {
            assert(in_bounds(self@, tr as int, tc as int));
        }
        let t_target = self.map[tr][tc];
        if t_target == Tile::Empty || t_target == Tile::Goal {
            let t_src = self.map[pr][pc];
            let new_target = if t_target == Tile::Goal {
                Tile::PlayerOnGoal
            } else {
                Tile::Player
            };
            let new_src = if t_src == Tile::PlayerOnGoal {
                Tile::Goal
            } else {
                Tile::Empty
            };
            set_tile(&mut self.map, tr, tc, new_target);
            set_tile(&mut self.map, pr, pc, new_src);
            self.p = (tr, tc);
            proof {
                let pre = *old(self);
                let g = pre@;
                assert(new_target == player_entering(g[tr as int][tc as int]));
                assert(new_src == player_leaving(g[pr as int][pc as int]));
                assert(self@ == pre.step_result(d));
                lemma_step_preserves(pre, d);
                assert(self.wf());
            }
            return MoveOutcome { kind: MoveKind::Moved, solved: self.remaining_goals == 0 };
        }
        if t_target == Tile::Block || t_target == Tile::BlockOnGoal {
            let beyond = step_coord(tr, tc, self.size.0, self.size.1, d);
            if let Some((br, bc)) = beyond {
                proof {
                    assert(in_bounds(self@, br as int, bc as int));
                }
                let t_beyond = self.map[br][bc];
                if t_beyond == Tile::Empty || t_beyond == Tile::Goal {
                    let t_src = self.map[pr][pc];
                    let new_beyond = if t_beyond == Tile::Goal {
                        Tile::BlockOnGoal
                    } else {
                        Tile::Block
                    };
                    let new_target = if t_target == Tile::BlockOnGoal {
                        Tile::PlayerOnGoal
                    } else {
                        Tile::Player
                    };
                    let new_src = if t_src == Tile::PlayerOnGoal {
                        Tile::Goal
                    } else {
                        Tile::Empty
                    };
                    set_tile(&mut self.map, br, bc, new_beyond);
                    set_tile(&mut self.map, tr, tc, new_target);
                    set_tile(&mut self.map, pr, pc, new_src);
                    let mut rest = self.remaining_goals;
                    if t_beyond == Tile::Goal {
                        proof {
                            lemma_uncovered_goals_pos(old(self)@, br as int, bc as int);
                        }
                        rest = rest - 1;
                    }
                    if t_target == Tile::BlockOnGoal {
                        proof {
                            lemma_uncovered_goals_lt_cells(old(self)@, tr as int, tc as int);
                        }
                        rest = rest + 1;
                    }
                    self.remaining_goals = rest;
                    self.p = (tr, tc);
                    proof {
                        let pre = *old(self);
                        let g = pre@;
                        assert(new_beyond == block_entering(g[br as int][bc as int]));
                        assert(new_target == player_entering(g[tr as int][tc as int]));
                        assert(new_src == player_leaving(g[pr as int][pc as int]));
                        assert(self@ == pre.push_result(d));
                        lemma_push_preserves(pre, d);
                        assert(self.wf());
                    }
                    return MoveOutcome { kind: MoveKind::Pushed, solved: rest == 0 };
                }
            }
        }
        MoveOutcome { kind: MoveKind::Blocked, solved: self.remaining_goals == 0 }
    }

    /// The puzzle is solved exactly when no goal is left uncovered.
    pub fn is_solved(&self) -> (b: bool)
        ensures
            b == (self.remaining_goals == 0),
    {
        self.remaining_goals == 0
    }
}

/// In every well-formed state exactly one grid tile holds the player,
/// and it stands at the tracked player position.
pub proof fn lemma_player_unique(s: MyState)
    requires
        s.wf(),
    ensures
        player_tiles(s@) == 1,
        in_bounds(s@, s.p.0 as int, s.p.1 as int),
        is_player_tile(s@[s.p.0 as int][s.p.1 as int]),
{
    lemma_player_tiles_one(s@, s.p.0 as int, s.p.1 as int);
}

/// The player stands on the edge row or column that the direction
/// points past.
pub open spec fn on_edge_toward(s: MyState, d: Direction) -> bool {
    match d {
        Direction::Up => s.p.0 == 0,
        Direction::Down => s.p.0 + 1 == s.size.0,
        Direction::Left => s.p.1 == 0,
        Direction::Right => s.p.1 + 1 == s.size.1,
    }
}

/// Moving toward the grid edge while already standing on the edge row
/// or column in that direction is always rejected.
pub proof fn lemma_edge_move_blocked(s: MyState, d: Direction)
    requires
        s.wf(),
        on_edge_toward(s, d),
    ensures
        s.is_blocked(d),
{
    assert(!in_bounds(s@, s.target_row(d), s.target_col(d)));
}

/// A push whose target block has another block, or the grid edge,
/// immediately behind it in the push direction is always rejected.
pub proof fn lemma_push_chain_blocked(s: MyState, d: Direction)
    requires
        s.wf(),
        in_bounds(s@, s.target_row(d), s.target_col(d)),
        is_block(s@[s.target_row(d)][s.target_col(d)]),
        !in_bounds(s@, s.beyond_row(d), s.beyond_col(d)) || is_block(
            s@[s.beyond_row(d)][s.beyond_col(d)],
        ),
    ensures
        s.is_blocked(d),
{
}

} // verus!
