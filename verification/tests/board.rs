use tictactoe_minmax::game::{CellState, Game, Position};

fn board_from(rows: [[char; 3]; 3]) -> Game {
    let mut g = Game::new();
    for i in 0..3 {
        for j in 0..3 {
            let m = match rows[i][j] {
                'X' => CellState::CROSS,
                'O' => CellState::CIRCLE,
                _ => CellState::EMPTY,
            };
            if m != CellState::EMPTY {
                g.set_move(&Position(i, j), m);
            }
        }
    }
    g
}

#[test]
fn opposite_swaps_marks() {
    assert_eq!(CellState::CROSS.opposite(), CellState::CIRCLE);
    assert_eq!(CellState::CIRCLE.opposite(), CellState::CROSS);
    assert_eq!(CellState::EMPTY.opposite(), CellState::EMPTY);
}

#[test]
fn new_board_is_empty() {
    let g = Game::new();
    for i in 0..3 {
        for j in 0..3 {
            assert!(g.is_empty_cell(i, j));
        }
    }
    assert!(!g.is_over());
    assert!(g.is_won().is_none());
}

#[test]
fn set_move_fills_cell() {
    let mut g = Game::new();
    g.set_move(&Position(1, 2), CellState::CROSS);
    assert!(!g.is_empty_cell(1, 2));
    assert_eq!(g.cell[1][2], CellState::CROSS);
    assert!(g.is_empty_cell(1, 1));
}

#[test]
fn possible_moves_row_major() {
    let g = board_from([[' ', 'X', ' '], ['O', ' ', ' '], [' ', ' ', 'X']]);
    let moves = g.get_possible_move();
    let expected = [(0, 0), (0, 2), (1, 1), (1, 2), (2, 0), (2, 1)];
    assert_eq!(moves.len(), expected.len());
    for k in 0..moves.len() {
        assert_eq!((moves[k].0, moves[k].1), expected[k]);
    }
}

#[test]
fn possible_moves_full_board() {
    let g = board_from([['X', 'O', 'X'], ['O', 'X', 'O'], ['O', 'X', 'O']]);
    assert_eq!(g.get_possible_move().len(), 0);
    assert!(g.is_over());
}

#[test]
fn one_difference_of_equal_boards_is_none() {
    let g = board_from([['X', ' ', ' '], [' ', 'O', ' '], [' ', ' ', ' ']]);
    let h = g;
    assert!(g.get_one_difference(&h).is_none());
}

#[test]
fn one_difference_finds_the_move() {
    let g = board_from([['X', ' ', ' '], [' ', 'O', ' '], [' ', ' ', ' ']]);
    let mut h = g;
    h.set_move(&Position(2, 1), CellState::CROSS);
    let d = g.get_one_difference(&h).unwrap();
    assert_eq!((d.0, d.1), (2, 1));
}

#[test]
fn one_difference_returns_first_in_row_major_order() {
    let g = Game::new();
    let mut h = g;
    h.set_move(&Position(1, 2), CellState::CROSS);
    h.set_move(&Position(0, 1), CellState::CIRCLE);
    let d = g.get_one_difference(&h).unwrap();
    assert_eq!((d.0, d.1), (0, 1));
}

#[test]
fn bits_encode_cells() {
    let mut g = Game::new();
    g.set_move(&Position(0, 0), CellState::CROSS);
    let b = g.game_to_bits();
    assert_eq!(b.0, 0b000_000_001);
    assert_eq!(b.1, 0);

    let mut g2 = Game::new();
    g2.set_move(&Position(2, 2), CellState::CROSS);
    g2.set_move(&Position(1, 1), CellState::CIRCLE);
    let b2 = g2.game_to_bits();
    assert_eq!(b2.0, 0b100_000_000);
    assert_eq!(b2.1, 0b000_010_000);
}

#[test]
fn is_won_top_row_cross() {
    let g = board_from([['X', 'X', 'X'], ['O', 'O', ' '], [' ', ' ', ' ']]);
    assert_eq!(g.is_won(), Some(CellState::CROSS));
    assert!(!g.is_over());
}

#[test]
fn is_won_column_circle() {
    let g = board_from([['O', 'X', ' '], ['O', 'X', ' '], ['O', ' ', 'X']]);
    assert_eq!(g.is_won(), Some(CellState::CIRCLE));
}

#[test]
fn is_won_diagonals() {
    let g = board_from([['X', 'O', ' '], ['O', 'X', ' '], [' ', ' ', 'X']]);
    assert_eq!(g.is_won(), Some(CellState::CROSS));
    let h = board_from([['X', 'X', 'O'], [' ', 'O', ' '], ['O', ' ', 'X']]);
    assert_eq!(h.is_won(), Some(CellState::CIRCLE));
}

#[test]
fn is_won_none_on_draw() {
    let g = board_from([['X', 'O', 'X'], ['O', 'X', 'O'], ['O', 'X', 'O']]);
    assert!(g.is_won().is_none());
    assert!(g.is_over());
}

#[test]
fn evaluate_won_board_exact_values() {
    // A board already won by Cross via the top row, not full: the win check
    // does not depend on the board being over.
    let g = board_from([['X', 'X', 'X'], ['O', 'O', ' '], [' ', ' ', ' ']]);
    assert_eq!(g.evaluate(CellState::CROSS), 100);
    assert_eq!(g.evaluate(CellState::CIRCLE), -100);
    assert!(!g.is_over());
}

#[test]
fn evaluate_won_board_circle() {
    let g = board_from([['O', 'X', 'X'], ['O', 'X', ' '], ['O', ' ', ' ']]);
    assert_eq!(g.evaluate(CellState::CIRCLE), 100);
    assert_eq!(g.evaluate(CellState::CROSS), -100);
}

#[test]
fn evaluate_heuristic_counts_live_lines() {
    let g = Game::new();
    assert_eq!(g.evaluate(CellState::CROSS), 0);
    assert_eq!(g.evaluate(CellState::CIRCLE), 0);

    // Cross holds (0,0) and (0,1); the only live two-in-line pattern for
    // Cross is the top row with its third cell still empty.
    let h = board_from([['X', 'X', ' '], [' ', ' ', ' '], [' ', ' ', ' ']]);
    assert_eq!(h.evaluate(CellState::CROSS), 10);
    assert_eq!(h.evaluate(CellState::CIRCLE), 0);

    // Blocking the row kills the pattern.
    let k = board_from([['X', 'X', 'O'], [' ', ' ', ' '], [' ', ' ', ' ']]);
    assert_eq!(k.evaluate(CellState::CROSS), 0);
}

#[test]
fn evaluate_center_cross_has_four_live_lines() {
    // A lone center mark keeps its row, column and both diagonals
    // completable: two patterns for each of the four lines would need the
    // center plus one more mark, so only patterns with both match cells held
    // count - none yet. One more corner gives exactly one live pattern.
    let g = board_from([[' ', ' ', ' '], [' ', 'X', ' '], [' ', ' ', ' ']]);
    assert_eq!(g.evaluate(CellState::CROSS), 0);
    let h = board_from([['X', ' ', ' '], [' ', 'X', ' '], [' ', ' ', ' ']]);
    assert_eq!(h.evaluate(CellState::CROSS), 10);
}
