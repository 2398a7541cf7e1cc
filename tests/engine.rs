use connect_four::Cell::{Empty, Occupied};
use connect_four::Player::{O, X};
use connect_four::{find_next_move, Cell, Eval, MoveResult, Player, State};

fn empty_board(mover: Player) -> State {
    State([[Empty; 7]; 6], mover)
}

fn mirrored(s: &State) -> State {
    let mut grid = s.0;
    for row in grid.iter_mut() {
        row.reverse();
    }
    State(grid, s.1)
}

fn swapped(s: &State) -> State {
    let mut grid = s.0;
    for row in grid.iter_mut() {
        for cell in row.iter_mut() {
            *cell = match *cell {
                Empty => Empty,
                Occupied(p) => Occupied(p.other()),
            };
        }
    }
    State(grid, s.1.other())
}

fn first_board() -> State {
    State(
        [
            [Empty, Empty, Empty, Empty, Empty, Occupied(X), Empty],
            [Empty, Empty, Empty, Empty, Empty, Occupied(X), Empty],
            [Empty, Empty, Empty, Empty, Empty, Occupied(O), Empty],
            [Occupied(X), Occupied(O), Empty, Empty, Empty, Occupied(X), Empty],
            [Occupied(X), Occupied(O), Occupied(O), Empty, Empty, Occupied(X), Empty],
            [Occupied(X), Occupied(O), Occupied(O), Occupied(O), Empty, Occupied(X), Empty],
        ],
        Player::O,
    )
}

fn second_board() -> State {
    State(
        [
            [Empty, Empty, Empty, Empty, Empty, Empty, Empty],
            [Empty, Empty, Empty, Empty, Occupied(O), Empty, Empty],
            [Empty, Empty, Empty, Empty, Occupied(O), Occupied(O), Empty],
            [Empty, Empty, Occupied(X), Empty, Occupied(O), Occupied(X), Occupied(X)],
            [Empty, Empty, Occupied(O), Empty, Occupied(X), Occupied(X), Occupied(O)],
            [Occupied(X), Empty, Occupied(O), Occupied(O), Occupied(X), Occupied(O), Occupied(X)],
        ],
        Player::O,
    )
}

/// The mover can only play column 0, after which the opponent completes the top row.
fn boxed_in_board() -> State {
    State(
        [
            [Empty, Occupied(X), Occupied(X), Occupied(X), Occupied(O), Occupied(O), Occupied(X)],
            [Empty, Occupied(O), Occupied(O), Occupied(X), Occupied(X), Occupied(O), Occupied(O)],
            [Occupied(X), Occupied(X), Occupied(O), Occupied(O), Occupied(O), Occupied(X), Occupied(X)],
            [Occupied(O), Occupied(O), Occupied(X), Occupied(X), Occupied(O), Occupied(O), Occupied(X)],
            [Occupied(X), Occupied(X), Occupied(O), Occupied(O), Occupied(X), Occupied(X), Occupied(O)],
            [Occupied(O), Occupied(O), Occupied(X), Occupied(X), Occupied(O), Occupied(O), Occupied(X)],
        ],
        Player::O,
    )
}

/// The mover has two adjacent pieces on the bottom row with room on both sides.
fn open_two_board() -> State {
    let mut s = empty_board(Player::O);
    s.0[5][2] = Occupied(O);
    s.0[5][3] = Occupied(O);
    s.0[5][6] = Occupied(X);
    s.0[4][6] = Occupied(X);
    s
}

fn full_board() -> State {
    let mut s = empty_board(Player::O);
    for r in 0..6 {
        for c in 0..7 {
            let p = if (c / 2 + r) % 2 == 0 { O } else { X };
            s.0[r][c] = Occupied(p);
        }
    }
    s
}

fn is_victory(r: MoveResult) -> bool {
    matches!(r, MoveResult::Victory)
}

#[test]
fn test_winning_moves() {
    let state = first_board();
    assert!(matches!(state.try_move(0), MoveResult::Victory));
    assert!(matches!(state.try_move(1), MoveResult::Victory));
    assert!(matches!(state.try_move(2), MoveResult::State(_)));
    assert!(matches!(state.try_move(3), MoveResult::State(_)));
    assert!(matches!(state.try_move(4), MoveResult::Victory));
    assert!(matches!(state.try_move(5), MoveResult::Impossible));
    assert!(matches!(state.try_move(6), MoveResult::State(_)));

    let state = second_board();
    assert!(matches!(state.try_move(0), MoveResult::State(_)));
    assert!(matches!(state.try_move(1), MoveResult::State(_)));
    assert!(matches!(state.try_move(2), MoveResult::State(_)));
    assert!(matches!(state.try_move(3), MoveResult::Victory));
    assert!(matches!(state.try_move(4), MoveResult::Victory));
    assert!(matches!(state.try_move(5), MoveResult::State(_)));
    assert!(matches!(state.try_move(6), MoveResult::State(_)));
}

#[test]
fn other_swaps_players() {
    assert_eq!(O.other(), X);
    assert_eq!(X.other(), O);
}

#[test]
fn default_cell_is_empty() {
    assert_eq!(Cell::default(), Empty);
}

#[test]
fn turn_counts_pieces() {
    assert_eq!(empty_board(O).turn(), 0);
    assert_eq!(first_board().turn(), 15);
    assert_eq!(full_board().turn(), 42);
}

#[test]
fn full_column_is_refused() {
    let s = first_board();
    assert!(matches!(s.try_move(5), MoveResult::Impossible));
    let full = full_board();
    for c in 0..7 {
        assert!(matches!(full.try_move(c), MoveResult::Impossible));
    }
}

#[test]
fn move_lands_at_the_bottom_and_passes_the_turn() {
    let s = first_board();
    match s.try_move(6) {
        MoveResult::State(next) => {
            assert_eq!(next.turn(), s.turn() + 1);
            assert_eq!(next.1, X);
            assert_eq!(next.0[5][6], Occupied(O));
            let mut expected = s.0;
            expected[5][6] = Occupied(O);
            assert_eq!(next.0, expected);
        }
        _ => panic!("column 6 is free and does not win"),
    }
    match s.try_move(2) {
        MoveResult::State(next) => {
            assert_eq!(next.0[3][2], Occupied(O));
            assert_eq!(next.turn(), s.turn() + 1);
        }
        _ => panic!("column 2 is free and does not win"),
    }
}

#[test]
fn each_direction_wins() {
    // horizontal
    let mut s = empty_board(O);
    s.0[5][0] = Occupied(O);
    s.0[5][1] = Occupied(O);
    s.0[5][3] = Occupied(O);
    assert!(is_victory(s.try_move(2)));
    assert!(!is_victory(s.try_move(4)));
    // vertical
    let mut s = empty_board(X);
    s.0[5][4] = Occupied(X);
    s.0[4][4] = Occupied(X);
    s.0[3][4] = Occupied(X);
    assert!(is_victory(s.try_move(4)));
    assert!(!is_victory(s.try_move(3)));
    // rising to the right
    let mut s = empty_board(O);
    s.0[5][0] = Occupied(O);
    s.0[4][1] = Occupied(O);
    s.0[3][2] = Occupied(O);
    for (r, c) in [(5, 1), (5, 2), (4, 2), (5, 3), (4, 3), (3, 3)] {
        s.0[r][c] = Occupied(X);
    }
    assert!(is_victory(s.try_move(3)));
    // falling to the right
    let mut s = empty_board(O);
    s.0[5][6] = Occupied(O);
    s.0[4][5] = Occupied(O);
    s.0[3][4] = Occupied(O);
    for (r, c) in [(5, 5), (5, 4), (4, 4), (5, 3), (4, 3), (3, 3)] {
        s.0[r][c] = Occupied(X);
    }
    assert!(is_victory(s.try_move(3)));
    // three in a row is not enough
    let mut s = empty_board(O);
    s.0[5][0] = Occupied(O);
    s.0[5][1] = Occupied(O);
    assert!(!is_victory(s.try_move(2)));
}

#[test]
fn win_detection_is_mirror_symmetric() {
    for s in [first_board(), second_board(), open_two_board(), boxed_in_board()] {
        let m = mirrored(&s);
        for c in 0..7u8 {
            assert_eq!(is_victory(s.try_move(c)), is_victory(m.try_move(6 - c)));
        }
    }
}

#[test]
fn win_detection_is_symmetric_under_swapping_players() {
    for s in [first_board(), second_board(), open_two_board(), boxed_in_board()] {
        let w = swapped(&s);
        for c in 0..7u8 {
            assert_eq!(is_victory(s.try_move(c)), is_victory(w.try_move(c)));
        }
    }
}

#[test]
fn depth_zero_reports_the_first_immediate_win() {
    let (moves, eval) = find_next_move(&first_board(), 0, false);
    assert_eq!(eval, Eval::ImmediateVictory);
    assert_eq!(moves.to_vec(), vec![0]);
    let (moves, eval) = find_next_move(&second_board(), 0, true);
    assert_eq!(eval, Eval::ImmediateVictory);
    assert_eq!(moves.to_vec(), vec![3]);
}

#[test]
fn full_board_is_a_draw() {
    for depth in 0..3 {
        let (moves, eval) = find_next_move(&full_board(), depth, false);
        assert_eq!(eval, Eval::Neutral);
        assert!(moves.to_vec().is_empty());
    }
}

#[test]
fn search_is_deterministic_and_parallelism_changes_nothing() {
    for s in [open_two_board(), second_board(), empty_board(X)] {
        let (a, ea) = find_next_move(&s, 3, false);
        let (b, eb) = find_next_move(&s, 3, false);
        let (c, ec) = find_next_move(&s, 3, true);
        assert_eq!(a.to_vec(), b.to_vec());
        assert_eq!(a.to_vec(), c.to_vec());
        assert_eq!(ea, eb);
        assert_eq!(ea, ec);
    }
}

#[test]
fn empty_board_at_depth_one_is_undetermined() {
    let (moves, eval) = find_next_move(&empty_board(O), 1, true);
    assert_eq!(eval, Eval::Neutral);
    assert_eq!(moves.to_vec(), vec![0, 1, 2, 3, 4, 5, 6]);
}

#[test]
fn single_winning_column_is_found_at_every_depth() {
    let mut s = empty_board(O);
    s.0[5][0] = Occupied(O);
    s.0[5][1] = Occupied(O);
    s.0[5][2] = Occupied(O);
    s.0[5][4] = Occupied(X);
    s.0[4][4] = Occupied(X);
    s.0[5][5] = Occupied(X);
    for depth in 0..4 {
        let (moves, eval) = find_next_move(&s, depth, depth % 2 == 0);
        assert_eq!(eval, Eval::ImmediateVictory);
        assert_eq!(moves.to_vec(), vec![3]);
    }
}

#[test]
fn boxed_in_mover_faces_a_forced_loss() {
    let s = boxed_in_board();
    let (moves, eval) = find_next_move(&s, 1, false);
    assert_eq!(eval, Eval::AssuredLoss);
    assert_eq!(moves.to_vec(), vec![0]);
    let (moves, eval) = find_next_move(&s, 2, true);
    assert_eq!(eval, Eval::AssuredLoss);
    assert_eq!(moves.to_vec(), vec![0]);
    let (moves, eval) = find_next_move(&s, 0, false);
    assert_eq!(eval, Eval::Neutral);
    assert_eq!(moves.to_vec(), vec![0]);
}

#[test]
fn open_two_is_a_forced_win_at_depth_two() {
    let s = open_two_board();
    let (moves, eval) = find_next_move(&s, 2, false);
    assert_eq!(eval, Eval::AssuredVictory);
    assert_eq!(moves.to_vec(), vec![1, 4]);
    let (moves, eval) = find_next_move(&s, 1, false);
    assert_eq!(eval, Eval::Neutral);
    assert_eq!(moves.to_vec(), vec![0, 1, 2, 3, 4, 5, 6]);
}

#[test]
fn moves_that_hand_over_a_win_are_left_out() {
    // X threatens to complete the bottom row at column 3; O must block there.
    let mut s = empty_board(O);
    s.0[5][0] = Occupied(X);
    s.0[5][1] = Occupied(X);
    s.0[5][2] = Occupied(X);
    s.0[4][0] = Occupied(O);
    s.0[4][1] = Occupied(O);
    s.0[5][6] = Occupied(O);
    let (moves, eval) = find_next_move(&s, 1, false);
    assert_eq!(eval, Eval::Neutral);
    assert_eq!(moves.to_vec(), vec![3]);
}
