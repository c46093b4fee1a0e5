use sokoban::puzzle::MyState;
use sokoban::tile::{decode_key, glyph, render_row, Direction, MoveKind, Tile};

fn state_of(rows: Vec<Vec<Tile>>) -> MyState {
    MyState::new(rows).expect("layout should be valid")
}

#[test]
fn default_level_layout() {
    let s = MyState::default();
    assert_eq!(s.size, (3, 6));
    assert_eq!(s.p, (0, 4));
    assert_eq!(s.remaining_goals, 2);
    let expected = vec![
        vec![Tile::Empty, Tile::Goal, Tile::Goal, Tile::Empty, Tile::Player, Tile::Empty],
        vec![Tile::Empty, Tile::Block, Tile::Block, Tile::Empty, Tile::Empty, Tile::Empty],
        vec![Tile::Empty, Tile::Empty, Tile::Empty, Tile::Empty, Tile::Empty, Tile::Empty],
    ];
    assert_eq!(s.map, expected);
    assert!(!s.is_solved());
}

#[test]
fn direct_move_left_from_default() {
    // From row0 = [Space, Goal, Goal, Space, Player, Space] with the
    // player at (0, 4), moving left steps to (0, 3) and empties (0, 4).
    let mut s = MyState::default();
    let outcome = s.apply_move(Direction::Left);
    assert_eq!(outcome.kind, MoveKind::Moved);
    assert!(!outcome.solved);
    assert_eq!(s.p, (0, 3));
    assert_eq!(s.map[0][3], Tile::Player);
    assert_eq!(s.map[0][4], Tile::Empty);
    assert_eq!(s.remaining_goals, 2);
}

#[test]
fn push_onto_goal_solves() {
    // Grid [Goal, Block, Player]: pushing left covers the only goal.
    let mut s = state_of(vec![vec![Tile::Goal, Tile::Block, Tile::Player]]);
    assert_eq!(s.remaining_goals, 1);
    let outcome = s.apply_move(Direction::Left);
    assert_eq!(outcome.kind, MoveKind::Pushed);
    assert!(outcome.solved);
    assert_eq!(s.map[0][0], Tile::BlockOnGoal);
    assert_eq!(s.map[0][1], Tile::Player);
    assert_eq!(s.map[0][2], Tile::Empty);
    assert_eq!(s.p, (0, 1));
    assert_eq!(s.remaining_goals, 0);
    assert!(s.is_solved());
}

#[test]
fn win_detection_on_default_level() {
    // Push both blocks up onto both goals; Solved is reported exactly
    // at the move that brings remaining_goals to 0, and never before.
    let mut s = MyState::default();
    let moves = [
        (Direction::Down, MoveKind::Moved),
        (Direction::Down, MoveKind::Moved),
        (Direction::Left, MoveKind::Moved),
        (Direction::Left, MoveKind::Moved),
        (Direction::Up, MoveKind::Pushed),
        (Direction::Down, MoveKind::Moved),
        (Direction::Left, MoveKind::Moved),
        (Direction::Up, MoveKind::Pushed),
    ];
    for (step, (dir, expected_kind)) in moves.iter().enumerate() {
        let outcome = s.apply_move(*dir);
        assert_eq!(outcome.kind, *expected_kind);
        if step + 1 < moves.len() {
            assert!(!outcome.solved);
            assert!(!s.is_solved());
        } else {
            assert!(outcome.solved);
            assert!(s.is_solved());
        }
    }
    assert_eq!(s.remaining_goals, 0);
    assert_eq!(s.map[0][1], Tile::BlockOnGoal);
    assert_eq!(s.map[0][2], Tile::BlockOnGoal);
}

#[test]
fn edge_moves_are_blocked() {
    let mut s = MyState::default();
    let before_map = s.map.clone();
    let outcome = s.apply_move(Direction::Up);
    assert_eq!(outcome.kind, MoveKind::Blocked);
    assert_eq!(s.map, before_map);
    assert_eq!(s.p, (0, 4));
    assert_eq!(s.remaining_goals, 2);

    // A 1 by 1 grid is on every edge at once.
    let mut tiny = state_of(vec![vec![Tile::Player]]);
    for dir in [Direction::Up, Direction::Down, Direction::Left, Direction::Right] {
        let outcome = tiny.apply_move(dir);
        assert_eq!(outcome.kind, MoveKind::Blocked);
        assert_eq!(tiny.p, (0, 0));
    }
}

#[test]
fn push_chain_is_blocked() {
    // A second block right behind the target block: nothing moves.
    let mut s = state_of(vec![vec![Tile::Player, Tile::Block, Tile::Block, Tile::Empty]]);
    let before_map = s.map.clone();
    let outcome = s.apply_move(Direction::Right);
    assert_eq!(outcome.kind, MoveKind::Blocked);
    assert_eq!(s.map, before_map);
    assert_eq!(s.p, (0, 0));
}

#[test]
fn push_against_edge_is_blocked() {
    let mut s = state_of(vec![vec![Tile::Player, Tile::Block]]);
    let before_map = s.map.clone();
    let outcome = s.apply_move(Direction::Right);
    assert_eq!(outcome.kind, MoveKind::Blocked);
    assert_eq!(s.map, before_map);
    assert_eq!(s.p, (0, 0));
}

#[test]
fn blocked_move_changes_nothing() {
    let mut s = state_of(vec![
        vec![Tile::Goal, Tile::Block, Tile::Player],
        vec![Tile::Empty, Tile::Empty, Tile::Empty],
    ]);
    let before_map = s.map.clone();
    let before_p = s.p;
    let before_goals = s.remaining_goals;
    // Right runs into the edge from (0, 2).
    let outcome = s.apply_move(Direction::Right);
    assert_eq!(outcome.kind, MoveKind::Blocked);
    assert_eq!(s.map, before_map);
    assert_eq!(s.p, before_p);
    assert_eq!(s.remaining_goals, before_goals);
}

#[test]
fn step_onto_goal_keeps_it_uncovered() {
    // The player standing on a goal does not cover it: the counter
    // stays, and leaving restores the goal tile.
    let mut s = state_of(vec![vec![Tile::Player, Tile::Goal]]);
    assert_eq!(s.remaining_goals, 1);
    let outcome = s.apply_move(Direction::Right);
    assert_eq!(outcome.kind, MoveKind::Moved);
    assert!(!outcome.solved);
    assert_eq!(s.map[0][0], Tile::Empty);
    assert_eq!(s.map[0][1], Tile::PlayerOnGoal);
    assert_eq!(s.remaining_goals, 1);
    let outcome = s.apply_move(Direction::Left);
    assert_eq!(outcome.kind, MoveKind::Moved);
    assert_eq!(s.map[0][0], Tile::Player);
    assert_eq!(s.map[0][1], Tile::Goal);
    assert_eq!(s.remaining_goals, 1);
}

#[test]
fn push_off_goal_uncovers_it() {
    let mut s = state_of(vec![vec![Tile::Empty, Tile::BlockOnGoal, Tile::Player]]);
    assert_eq!(s.remaining_goals, 0);
    let outcome = s.apply_move(Direction::Left);
    assert_eq!(outcome.kind, MoveKind::Pushed);
    assert!(!outcome.solved);
    assert_eq!(s.map[0][0], Tile::Block);
    assert_eq!(s.map[0][1], Tile::PlayerOnGoal);
    assert_eq!(s.map[0][2], Tile::Empty);
    assert_eq!(s.remaining_goals, 1);
}

#[test]
fn new_rejects_bad_layouts() {
    assert!(MyState::new(vec![]).is_none());
    assert!(MyState::new(vec![vec![Tile::Empty, Tile::Goal]]).is_none());
    assert!(MyState::new(vec![
        vec![Tile::Player, Tile::Empty],
        vec![Tile::Empty],
    ])
    .is_none());
    assert!(MyState::new(vec![
        vec![Tile::Player, Tile::Empty],
        vec![Tile::Empty, Tile::PlayerOnGoal],
    ])
    .is_none());
}

#[test]
fn new_reads_position_and_goals_off_the_grid() {
    let s = state_of(vec![
        vec![Tile::Goal, Tile::BlockOnGoal, Tile::Empty],
        vec![Tile::Block, Tile::PlayerOnGoal, Tile::Goal],
    ]);
    assert_eq!(s.size, (2, 3));
    assert_eq!(s.p, (1, 1));
    // Goal, PlayerOnGoal and Goal are uncovered; BlockOnGoal is not.
    assert_eq!(s.remaining_goals, 3);
}

#[test]
fn glyphs_match_the_fixed_symbols() {
    assert_eq!(glyph(Tile::Empty), ' ');
    assert_eq!(glyph(Tile::Block), 'o');
    assert_eq!(glyph(Tile::BlockOnGoal), 'o');
    assert_eq!(glyph(Tile::Goal), '.');
    assert_eq!(glyph(Tile::Player), 'p');
    assert_eq!(glyph(Tile::PlayerOnGoal), 'p');
}

#[test]
fn render_row_maps_every_tile() {
    let row = vec![
        Tile::Empty,
        Tile::Goal,
        Tile::Block,
        Tile::BlockOnGoal,
        Tile::Player,
        Tile::PlayerOnGoal,
    ];
    assert_eq!(render_row(&row), vec![' ', '.', 'o', 'o', 'p', 'p']);
    assert_eq!(render_row(&Vec::new()), Vec::<char>::new());
}

#[test]
fn decode_key_maps_wasd_only() {
    assert_eq!(decode_key('w'), Some(Direction::Up));
    assert_eq!(decode_key('W'), Some(Direction::Up));
    assert_eq!(decode_key('s'), Some(Direction::Down));
    assert_eq!(decode_key('S'), Some(Direction::Down));
    assert_eq!(decode_key('a'), Some(Direction::Left));
    assert_eq!(decode_key('A'), Some(Direction::Left));
    assert_eq!(decode_key('d'), Some(Direction::Right));
    assert_eq!(decode_key('D'), Some(Direction::Right));
    assert_eq!(decode_key('x'), None);
    assert_eq!(decode_key(' '), None);
    assert_eq!(decode_key('#'), None);
}
