use tictactoe_minmax::game::{CellState, Game, Position};
use tictactoe_minmax::tree::Tree;

// Plays the engine as Circle against a Cross strategy that picks the
// `pick`-th available move each turn (clamped), starting from an empty board
// with the given first Cross move. Returns the finished board.
fn play_engine_against(first: Position, pick: usize) -> Game {
    let mut board = Game::new();
    board.set_move(&first, CellState::CROSS);
    let mut tree = Tree::new(board, CellState::CIRCLE);
    tree.generate_min_max();
    loop {
        if board.is_won().is_some() || board.is_over() {
            return board;
        }
        // engine half-turn
        let p = tree.get_move().unwrap();
        board.set_move(&p, CellState::CIRCLE);
        tree.set_move(p, CellState::CIRCLE);
        if board.is_won().is_some() || board.is_over() {
            return board;
        }
        // scripted opponent half-turn
        let moves = board.get_possible_move();
        let k = if pick < moves.len() { pick } else { moves.len() - 1 };
        let q = Position(moves[k].0, moves[k].1);
        board.set_move(&q, CellState::CROSS);
        tree.set_move(q, CellState::CROSS);
    }
}

#[test]
fn engine_never_loses_to_first_cell_opponent() {
    let b = play_engine_against(Position(0, 0), 0);
    assert_ne!(b.is_won(), Some(CellState::CROSS));
}

#[test]
fn engine_never_loses_to_last_cell_opponent() {
    let b = play_engine_against(Position(1, 1), 99);
    assert_ne!(b.is_won(), Some(CellState::CROSS));
}

#[test]
fn engine_never_loses_to_middle_cell_opponent() {
    let b = play_engine_against(Position(2, 1), 2);
    assert_ne!(b.is_won(), Some(CellState::CROSS));
}

#[test]
fn optimal_play_from_empty_board_is_a_draw() {
    // Cross opens in the center (an optimal opening); afterwards both sides
    // play full-depth searches: Circle through one re-rooted tree, Cross
    // through a fresh tree at each of its turns.
    let mut board = Game::new();
    board.set_move(&Position(1, 1), CellState::CROSS);
    let mut circle_tree = Tree::new(board, CellState::CIRCLE);
    circle_tree.generate_min_max();
    loop {
        if board.is_won().is_some() || board.is_over() {
            break;
        }
        let p = circle_tree.get_move().unwrap();
        board.set_move(&p, CellState::CIRCLE);
        circle_tree.set_move(p, CellState::CIRCLE);
        if board.is_won().is_some() || board.is_over() {
            break;
        }
        let mut cross_tree = Tree::new(board, CellState::CROSS);
        cross_tree.generate_min_max();
        let q = cross_tree.get_move().unwrap();
        board.set_move(&q, CellState::CROSS);
        circle_tree.set_move(q, CellState::CROSS);
    }
    assert!(board.is_won().is_none());
    assert!(board.is_over());
}
