use tictactoe_minmax::game::{CellState, Game, Position};
use tictactoe_minmax::node::Node;
use tictactoe_minmax::tree::Tree;

fn board_from(rows: [[char; 3]; 3]) -> Game {
    let mut g = Game::new();
    for i in 0..3 {
        for j in 0..3 {
            let m = match rows[i][j] {
                'X' => CellState::CROSS,
                'O' => CellState::CIRCLE,
                _ => CellState::EMPTY,
            };
            if m != CellState::EMPTY {
                g.set_move(&Position(i, j), m);
            }
        }
    }
    g
}

#[test]
fn node_new_sentinel_by_parity() {
    let n0 = Node::new(Game::new(), 0, CellState::CIRCLE);
    assert_eq!(n0.utility, i32::MIN);
    assert_eq!(n0.depth, 0);
    assert_eq!(n0.childs.len(), 0);
    let n1 = Node::new(Game::new(), 1, CellState::CIRCLE);
    assert_eq!(n1.utility, i32::MAX);
}

#[test]
fn populate_creates_one_child_per_empty_cell() {
    let g = board_from([['X', 'O', ' '], [' ', 'X', ' '], [' ', ' ', ' ']]);
    let mut n = Node::new(g, 0, CellState::CIRCLE);
    n.populate();
    let moves = g.get_possible_move();
    assert_eq!(n.childs.len(), moves.len());
    for k in 0..moves.len() {
        let c = &n.childs[k];
        assert_eq!(c.depth, 1);
        assert_eq!(c.maximizing_player, CellState::CIRCLE);
        // depth 0 is the maximizing player's turn, so children carry a circle
        assert_eq!(c.game.cell[moves[k].0][moves[k].1], CellState::CIRCLE);
        let d = g.get_one_difference(&c.game).unwrap();
        assert_eq!((d.0, d.1), (moves[k].0, moves[k].1));
    }
}

#[test]
fn populate_alternates_mover_by_parity() {
    let g = board_from([['X', 'O', ' '], [' ', 'X', ' '], [' ', ' ', ' ']]);
    let mut n = Node::new(g, 1, CellState::CIRCLE);
    n.populate();
    // depth 1 is the opponent's turn: the children carry a cross
    assert_eq!(n.childs[0].game.cell[0][2], CellState::CROSS);
}

#[test]
fn populate_is_a_no_op_on_won_boards() {
    let g = board_from([['X', 'X', 'X'], ['O', 'O', ' '], [' ', ' ', ' ']]);
    let mut n = Node::new(g, 0, CellState::CIRCLE);
    n.populate();
    assert_eq!(n.childs.len(), 0);
}

#[test]
fn generate_scores_immediate_win() {
    // Circle to move wins at (1,2): the root utility is the win score minus
    // nothing at depth 0, reached through a depth-1 leaf worth exactly 100.
    let g = board_from([['X', 'X', 'O'], ['O', 'O', ' '], ['X', ' ', ' ']]);
    let mut n = Node::new(g, 0, CellState::CIRCLE);
    n.generate_min_max();
    assert_eq!(n.utility, 100);
}

#[test]
fn alpha_beta_agrees_with_plain_minimax() {
    let boards = [
        board_from([['X', ' ', ' '], [' ', 'O', ' '], [' ', ' ', ' ']]),
        board_from([['X', 'O', 'X'], [' ', 'O', ' '], [' ', 'X', ' ']]),
        board_from([['X', 'X', ' '], [' ', 'O', ' '], [' ', ' ', 'O']]),
        board_from([['O', 'X', ' '], ['X', 'X', 'O'], ['O', ' ', ' ']]),
    ];
    for g in boards.iter() {
        let mut plain = Node::new(*g, 0, CellState::CIRCLE);
        plain.generate_min_max();
        let mut pruned = Node::new(*g, 0, CellState::CIRCLE);
        pruned.generate_min_max_alpha_beta_pruning(i32::MIN, i32::MAX);
        assert_eq!(plain.utility, pruned.utility);
    }
}

#[test]
fn tree_new_builds_depth_zero_root() {
    let t = Tree::new(Game::new(), CellState::CIRCLE);
    assert_eq!(t.0.depth, 0);
    assert_eq!(t.0.utility, 0);
    assert_eq!(t.0.maximizing_player, CellState::CIRCLE);
    assert!(t.0.childs.is_empty());
}

#[test]
fn get_move_returns_an_empty_cell() {
    let g = board_from([['X', ' ', ' '], [' ', 'O', ' '], [' ', ' ', 'X']]);
    let mut t = Tree::new(g, CellState::CIRCLE);
    t.generate_min_max();
    let p = t.get_move().unwrap();
    assert!(g.is_empty_cell(p.0, p.1));
}

#[test]
fn get_move_none_at_odd_depth() {
    let g = board_from([['X', ' ', ' '], [' ', ' ', ' '], [' ', ' ', ' ']]);
    let mut t = Tree::new(g, CellState::CIRCLE);
    t.generate_min_max();
    let p = t.get_move().unwrap();
    t.set_move(p, CellState::CIRCLE);
    // the root is now at depth 1: the opponent moves next, no engine move
    assert!(t.get_move().is_none());
}

#[test]
fn set_move_after_get_move_reroots() {
    let g = board_from([['X', ' ', ' '], [' ', 'O', ' '], [' ', ' ', 'X']]);
    let mut t = Tree::new(g, CellState::CIRCLE);
    t.generate_min_max();
    let p = t.get_move().unwrap();
    let mut expected = g;
    expected.set_move(&p, CellState::CIRCLE);
    t.set_move(p, CellState::CIRCLE);
    assert_eq!(t.0.depth, 1);
    assert!(t.0.game.get_one_difference(&expected).is_none());
}

#[test]
fn engine_blocks_the_diagonal_threat() {
    // Cross threatens the main diagonal with (0,0) and (1,1); with no win of
    // its own available, Circle must take (2,2) or lose next turn.
    let g = board_from([['X', 'O', ' '], [' ', 'X', ' '], [' ', ' ', ' ']]);
    let mut t = Tree::new(g, CellState::CIRCLE);
    t.generate_min_max();
    let p = t.get_move().unwrap();
    assert_eq!((p.0, p.1), (2, 2));
}

#[test]
fn engine_takes_its_own_win_over_blocking() {
    // Circle can win at (1,2) even though Cross also threatens (2,2).
    let g = board_from([['X', 'X', 'O'], ['O', 'O', ' '], ['X', ' ', ' ']]);
    let mut t = Tree::new(g, CellState::CIRCLE);
    t.generate_min_max();
    let p = t.get_move().unwrap();
    assert_eq!((p.0, p.1), (1, 2));
}

#[test]
fn ties_break_on_the_first_move_in_row_major_order() {
    // Circle completes a line at (0,2) or at (1,2); both are immediate wins,
    // so the first maximum in move order, (0,2), is chosen.
    let g = board_from([['O', 'O', ' '], ['O', 'O', ' '], ['X', 'X', ' ']]);
    let mut t = Tree::new(g, CellState::CIRCLE);
    t.generate_min_max();
    let p = t.get_move().unwrap();
    assert_eq!((p.0, p.1), (0, 2));
}
