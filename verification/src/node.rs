use vstd::prelude::*;

use crate::game::{
    CellState, Game, count_empty, empties, eval_spec, lemma_count_empty_update,
    lemma_empties_spec, lemma_eval_spec_bound, lemma_update_no_new_win, wins,
};

verus! {

/// The deepest ply the search accepts; keeps every utility far inside `i32`.
pub const MAX_PLY: u32 = 1000;

/// The mark placed into the children of a node at depth `d` when the tree
/// maximizes for `mp`: the maximizing player moves from even depths, the
/// opponent from odd ones.
pub open spec fn mover_at(d: int, mp: CellState) -> CellState {
    if d % 2 == 0 {
        mp
    } else {
        mp.opposite_spec()
    }
}

/// A board where the search stops: someone has won, or no cell is empty.
pub open spec fn board_terminal(b: Seq<CellState>) -> bool {
    wins(b, CellState::CROSS) || wins(b, CellState::CIRCLE) || count_empty(b) == 0
}

/// The score of a search leaf at depth `d`, relative to the maximizing
/// player: the mover of the previous ply is evaluated, with the sign turned
/// so that +100 always means a win for `mp`.
pub open spec fn leaf_value(b: Seq<CellState>, d: int, mp: CellState) -> int {
    if d % 2 == 0 {
        -eval_spec(b, mp.opposite_spec())
    } else {
        eval_spec(b, mp)
    }
}

/// The minimax value of `b` at ply `d`, maximizing for `mp`: the leaf score
/// on terminal boards, else the best successor value, with the node depth
/// subtracted at maximizing plies and added at minimizing ones so that equal
/// outcomes prefer quicker wins and slower losses.
pub open spec fn minimax(b: Seq<CellState>, d: int, mp: CellState) -> int
    decreases count_empty(b), 1int, 0int,
{
    if board_terminal(b) {
        leaf_value(b, d, mp)
    } else if d % 2 == 0 {
        best_from(b, d, mp, 0) - d
    } else {
        best_from(b, d, mp, 0) + d
    }
}

/// The best minimax value over the successors of `b` reached by the moves
/// `empties(b)[k..]`: the maximum at even `d`, the minimum at odd `d`.
pub open spec fn best_from(b: Seq<CellState>, d: int, mp: CellState, k: int) -> int
    decreases count_empty(b), 0int, count_empty(b) - k,
    via best_from_decreases
{
    if mp == CellState::EMPTY || b.len() != 9 || !(0 <= k < count_empty(b)) {
        0
    } else {
        let v = minimax(b.update(empties(b)[k], mover_at(d, mp)), d + 1, mp);
        if k == count_empty(b) - 1 {
            v
        } else {
            let rest = best_from(b, d, mp, k + 1);
            if d % 2 == 0 {
                if v >= rest {
                    v
                } else {
                    rest
                }
            } else {
                if v <= rest {
                    v
                } else {
                    rest
                }
            }
        }
    }
}

#[via_fn]
proof fn best_from_decreases(b: Seq<CellState>, d: int, mp: CellState, k: int) {
    if !(mp == CellState::EMPTY || b.len() != 9 || !(0 <= k < count_empty(b))) {
        lemma_empties_spec(b);
        lemma_count_empty_update(b, empties(b)[k], mover_at(d, mp), 9);
    }
}

/// The same fold accumulated from the front: the best minimax value over the
/// first `k` successors of `b`.
pub open spec fn best_upto(b: Seq<CellState>, d: int, mp: CellState, k: int) -> int
    decreases k,
{
    if mp == CellState::EMPTY || b.len() != 9 || !(1 <= k <= count_empty(b)) {
        0
    } else {
        let v = minimax(b.update(empties(b)[k - 1], mover_at(d, mp)), d + 1, mp);
        if k == 1 {
            v
        } else {
            let rest = best_upto(b, d, mp, k - 1);
            if d % 2 == 0 {
                if v >= rest {
                    v
                } else {
                    rest
                }
            } else {
                if v <= rest {
                    v
                } else {
                    rest
                }
            }
        }
    }
}

/// Folding the successors from the front and from the back agree: scanning
/// all moves left to right yields `best_from(b, d, mp, 0)`.
pub proof fn lemma_best_fold_agrees(b: Seq<CellState>, d: int, mp: CellState, k: int)
    requires
        mp != CellState::EMPTY,
        b.len() == 9,
        1 <= k <= count_empty(b),
    ensures
        k == count_empty(b) ==> best_upto(b, d, mp, k) == best_from(b, d, mp, 0),
        k < count_empty(b) ==> best_from(b, d, mp, 0) == (if d % 2 == 0 {
            if best_upto(b, d, mp, k) >= best_from(b, d, mp, k) {
                best_upto(b, d, mp, k)
            } else {
                best_from(b, d, mp, k)
            }
        } else {
            if best_upto(b, d, mp, k) <= best_from(b, d, mp, k) {
                best_upto(b, d, mp, k)
            } else {
                best_from(b, d, mp, k)
            }
        }),
    decreases k,
{
    if k > 1 {
        lemma_best_fold_agrees(b, d, mp, k - 1);
    }
}

/// Bounds every minimax value: leaf scores stay within 240 and each internal
/// ply adds at most its depth as a tie-break.
pub proof fn lemma_minimax_bound(b: Seq<CellState>, d: int, mp: CellState)
    requires
        0 <= d,
    ensures
        -240 - count_empty(b) * (d + count_empty(b)) <= minimax(b, d, mp) <= 240 + count_empty(b)
            * (d + count_empty(b)),
    decreases count_empty(b), 1int, 0int,
{
    let ce = count_empty(b);
    lemma_empties_spec(b);
    assert(ce * (d + ce) >= 0) by (nonlinear_arith)
        requires
            ce >= 0 && d >= 0,
    ;
    if board_terminal(b) {
        lemma_eval_spec_bound(b, mp);
        lemma_eval_spec_bound(b, mp.opposite_spec());
    } else {
        lemma_best_from_bound(b, d, mp, 0);
        assert((ce - 1) * (d + ce) + d <= ce * (d + ce) && -(ce * (d + ce)) <= -((ce - 1) * (d + ce))
            - d) by (nonlinear_arith)
            requires
                ce >= 1 && d >= 0,
        ;
    }
}

/// Bounds the front-to-back fold like `lemma_best_from_bound` bounds the
/// back-to-front one.
pub proof fn lemma_best_upto_bound(b: Seq<CellState>, d: int, mp: CellState, k: int)
    requires
        0 <= d,
        mp != CellState::EMPTY,
        b.len() == 9,
        1 <= k <= count_empty(b),
    ensures
        -240 - (count_empty(b) - 1) * (d + count_empty(b)) <= best_upto(b, d, mp, k) <= 240 + (
        count_empty(b) - 1) * (d + count_empty(b)),
    decreases k,
{
    let ce = count_empty(b);
    let child = b.update(empties(b)[k - 1], mover_at(d, mp));
    lemma_empties_spec(b);
    lemma_count_empty_update(b, empties(b)[k - 1], mover_at(d, mp), 9);
    lemma_minimax_bound(child, d + 1, mp);
    assert(count_empty(child) * (d + 1 + count_empty(child)) == (ce - 1) * (d + ce));
    if k > 1 {
        lemma_best_upto_bound(b, d, mp, k - 1);
    }
}

/// Bounds the fold over successors by the bound of a child one ply deeper.
pub proof fn lemma_best_from_bound(b: Seq<CellState>, d: int, mp: CellState, k: int)
    requires
        0 <= d,
        0 <= k < count_empty(b),
    ensures
        -240 - (count_empty(b) - 1) * (d + count_empty(b)) <= best_from(b, d, mp, k) <= 240 + (
        count_empty(b) - 1) * (d + count_empty(b)),
    decreases count_empty(b), 0int, count_empty(b) - k,
{
    let ce = count_empty(b);
    assert((ce - 1) * (d + ce) >= 0) by (nonlinear_arith)
        requires
            ce >= 1 && d >= 0,
    ;
    if !(mp == CellState::EMPTY || b.len() != 9) {
        let child = b.update(empties(b)[k], mover_at(d, mp));
        lemma_empties_spec(b);
        lemma_count_empty_update(b, empties(b)[k], mover_at(d, mp), 9);
        lemma_minimax_bound(child, d + 1, mp);
        assert(count_empty(child) * (d + 1 + count_empty(child)) == (ce - 1) * (d + ce));
        if k < ce - 1 {
            lemma_best_from_bound(b, d, mp, k + 1);
        }
    }
}

/// One ply of the game tree: a board snapshot, its utility relative to the
/// maximizing player, its depth from the tree root, and its owned children.
#[derive(Debug)]
pub struct Node {
    pub game: Game,
    pub utility: i32,
    pub depth: u32,
    pub maximizing_player: CellState,
    pub childs: Vec<Box<Node>>,
}

/// A fully generated and evaluated subtree: the children are exactly the
/// legal successors of the board in row-major move order, each one generated
/// in turn, and every utility is the minimax value of its board.
pub open spec fn generated(n: Node) -> bool
    decreases n,
{
    &&& n.utility == minimax(n.game@, n.depth as int, n.maximizing_player)
    &&& n.childs@.len() == (if wins(n.game@, CellState::CROSS) || wins(n.game@, CellState::CIRCLE) {
        0int
    } else {
        count_empty(n.game@)
    })
    &&& forall|k: int| #![trigger n.childs@[k]]
        0 <= k < n.childs@.len() ==> {
            &&& (*n.childs@[k]).game@ == n.game@.update(
                empties(n.game@)[k],
                mover_at(n.depth as int, n.maximizing_player),
            )
            &&& (*n.childs@[k]).depth == n.depth + 1
            &&& (*n.childs@[k]).maximizing_player == n.maximizing_player
            &&& generated(*n.childs@[k])
        }
}

impl Node {
    /// A fresh, unexpanded node. The utility starts at the theoretical worst
    /// value for the node's own turn and is overwritten by generation.
    pub fn new(game: Game, depth: u32, maximizing_player: CellState) -> (n: Node)
        ensures
            n.game == game,
            n.utility == (if depth % 2 == 0 {
                i32::MIN
            } else {
                i32::MAX
            }),
            n.depth == depth,
            n.maximizing_player == maximizing_player,
            n.childs@.len() == 0,
    {
        Node {
            game,
            utility: if depth % 2 == 0 {
                i32::MIN
            } else {
                i32::MAX
            },
            depth,
            maximizing_player,
            childs: Vec::new(),
        }
    }

    /// Appends one child for every empty cell of the board, holding a copy of
    /// the board with that cell set to the mover's mark at depth + 1; does
    /// nothing on an already won board.
    pub fn populate(&mut self)
        requires
            old(self).depth < u32::MAX,
        ensures
            final(self).game == old(self).game,
            final(self).utility == old(self).utility,
            final(self).depth == old(self).depth,
            final(self).maximizing_player == old(self).maximizing_player,
            wins(old(self).game@, CellState::CROSS) || wins(old(self).game@, CellState::CIRCLE)
                ==> final(self).childs == old(self).childs,
            !(wins(old(self).game@, CellState::CROSS) || wins(old(self).game@, CellState::CIRCLE))
                ==> {
                &&& final(self).childs@.len() == old(self).childs@.len() + count_empty(
                    old(self).game@,
                )
                &&& forall|k: int|
                    0 <= k < old(self).childs@.len() ==> final(self).childs@[k] == old(
                        self,
                    ).childs@[k]
                &&& forall|k: int| #![trigger final(self).childs@[k]]
                    old(self).childs@.len() <= k < final(self).childs@.len() ==> {
                        &&& (*final(self).childs@[k]).game@ == old(self).game@.update(
                            empties(old(self).game@)[k - old(self).childs@.len()],
                            mover_at(old(self).depth as int, old(self).maximizing_player),
                        )
                        &&& (*final(self).childs@[k]).depth == old(self).depth + 1
                        &&& (*final(self).childs@[k]).maximizing_player == old(
                            self,
                        ).maximizing_player
                        &&& (*final(self).childs@[k]).childs@.len() == 0
                        &&& (*final(self).childs@[k]).utility == (if (old(self).depth + 1) % 2
                            == 0 {
                            i32::MIN
                        } else {
                            i32::MAX
                        })
                    }
            },
    {
        if self.game.is_won().is_some() {
            return ;
        }
        proof {
            lemma_empties_spec(self.game@);
        }
        let possible_moves = self.game.get_possible_move();
        let mark = if self.depth % 2 == 0 {
            self.maximizing_player
        } else {
            self.maximizing_player.opposite()
        };
        let ghost base = self.childs@.len() as int;
        let mut idx: usize = 0;
        while idx < possible_moves.len()
            invariant
                idx <= possible_moves.len(),
                base == old(self).childs@.len(),
                self.game == old(self).game,
                self.utility == old(self).utility,
                self.depth == old(self).depth,
                self.maximizing_player == old(self).maximizing_player,
                old(self).depth < u32::MAX,
                mark == mover_at(old(self).depth as int, old(self).maximizing_player),
                possible_moves@.len() == count_empty(old(self).game@),
                forall|k: int|
                    0 <= k < possible_moves@.len() ==> (#[trigger] possible_moves@[k]).0 < 3
                        && possible_moves@[k].1 < 3 && possible_moves@[k].0 * 3
                        + possible_moves@[k].1 == empties(old(self).game@)[k],
                self.childs@.len() == base + idx,
                forall|k: int| 0 <= k < base ==> self.childs@[k] == old(self).childs@[k],
                forall|k: int| #![trigger self.childs@[k]]
                    base <= k < self.childs@.len() ==> {
                        &&& (*self.childs@[k]).game@ == old(self).game@.update(
                            empties(old(self).game@)[k - base],
                            mover_at(old(self).depth as int, old(self).maximizing_player),
                        )
                        &&& (*self.childs@[k]).depth == old(self).depth + 1
                        &&& (*self.childs@[k]).maximizing_player == old(self).maximizing_player
                        &&& (*self.childs@[k]).childs@.len() == 0
                        &&& (*self.childs@[k]).utility == (if (old(self).depth + 1) % 2 == 0 {
                            i32::MIN
                        } else {
                            i32::MAX
                        })
                    },
            decreases possible_moves@.len() - idx,
        {
            let m = possible_moves[idx];
            let mut g = self.game;
            g.set_move(&m, mark);
            let n = Node::new(g, self.depth + 1, self.maximizing_player);
            self.childs.push(Box::new(n));
            idx = idx + 1;
        }
    }

    /// Expands and evaluates the whole subtree below this node: populates the
    /// children, recurses into each, then backs the utilities up, taking the
    /// maximum at even depths and the minimum at odd ones, with the depth
    /// tie-break of `minimax`.
    pub fn generate_min_max(&mut self)
        requires
            old(self).maximizing_player != CellState::EMPTY,
            old(self).childs@.len() == 0,
            !(wins(old(self).game@, CellState::CROSS) && wins(old(self).game@, CellState::CIRCLE)),
            old(self).depth + count_empty(old(self).game@) <= MAX_PLY,
        ensures
            final(self).game == old(self).game,
            final(self).depth == old(self).depth,
            final(self).maximizing_player == old(self).maximizing_player,
            generated(*final(self)),
        decreases count_empty(old(self).game@),
    {
        proof {
            lemma_empties_spec(old(self).game@);
        }
        self.populate();
        let ghost b = old(self).game@;
        let ghost d = old(self).depth as int;
        let ghost mp = old(self).maximizing_player;

        let num = self.childs.len();
        let mut i: usize = 0;
        while i < num
            invariant
                i <= num,
                num == self.childs@.len(),
                self.game == old(self).game,
                self.depth == old(self).depth,
                self.maximizing_player == old(self).maximizing_player,
                b == old(self).game@,
                d == old(self).depth as int,
                mp == old(self).maximizing_player,
                mp != CellState::EMPTY,
                !(wins(b, CellState::CROSS) && wins(b, CellState::CIRCLE)),
                d + count_empty(b) <= MAX_PLY,
                num == (if wins(b, CellState::CROSS) || wins(b, CellState::CIRCLE) {
                    0int
                } else {
                    count_empty(b)
                }),
                forall|k: int| #![trigger self.childs@[k]]
                    0 <= k < num ==> {
                        &&& (*self.childs@[k]).game@ == b.update(empties(b)[k], mover_at(d, mp))
                        &&& (*self.childs@[k]).depth == d + 1
                        &&& (*self.childs@[k]).maximizing_player == mp
                    },
                forall|k: int| #![trigger self.childs@[k]]
                    0 <= k < i ==> generated(*self.childs@[k]),
                forall|k: int| #![trigger self.childs@[k]]
                    i <= k < num ==> (*self.childs@[k]).childs@.len() == 0,
            decreases num - i,
        {
            proof {
                lemma_empties_spec(b);
                lemma_count_empty_update(b, empties(b)[i as int], mover_at(d, mp), 9);
                lemma_update_no_new_win(
                    b,
                    empties(b)[i as int],
                    mover_at(d, mp),
                    mover_at(d, mp).opposite_spec(),
                );
            }
            let ghost pre = self.childs@;
            let mut c = self.childs.remove(i);
            c.generate_min_max();
            let ghost cb = c;
            self.childs.insert(i, c);
            proof {
                assert(self.childs@ =~= pre.update(i as int, cb));
            }
            i = i + 1;
        }

        if num == 0 {
            proof {
                lemma_empties_spec(b);
            }
            if self.depth % 2 == 0 {
                let e = self.game.evaluate(self.maximizing_player.opposite());
                self.utility = -e;
            } else {
                let e = self.game.evaluate(self.maximizing_player);
                self.utility = e;
            }
        } else {
            let mut j = num - 1;
            let mut value = self.childs[j].utility;
            while j > 0
                invariant
                    0 < num,
                    num == self.childs@.len(),
                    j < num,
                    self.game == old(self).game,
                    self.depth == old(self).depth,
                    self.maximizing_player == old(self).maximizing_player,
                    b == old(self).game@,
                    d == old(self).depth as int,
                    mp == old(self).maximizing_player,
                    mp != CellState::EMPTY,
                    !(wins(b, CellState::CROSS) && wins(b, CellState::CIRCLE)),
                    d + count_empty(b) <= MAX_PLY,
                    num == (if wins(b, CellState::CROSS) || wins(b, CellState::CIRCLE) {
                        0int
                    } else {
                        count_empty(b)
                    }),
                    forall|k: int| #![trigger self.childs@[k]]
                        0 <= k < num ==> {
                            &&& (*self.childs@[k]).game@ == b.update(
                                empties(b)[k],
                                mover_at(d, mp),
                            )
                            &&& (*self.childs@[k]).depth == d + 1
                            &&& (*self.childs@[k]).maximizing_player == mp
                            &&& generated(*self.childs@[k])
                        },
                    value == best_from(b, d, mp, j as int),
                decreases j,
            {
                j = j - 1;
                let u = self.childs[j].utility;
                if self.depth % 2 == 0 {
                    if u >= value {
                        value = u;
                    }
                } else {
                    if u <= value {
                        value = u;
                    }
                }
            }
            proof {
                lemma_empties_spec(b);
                lemma_best_from_bound(b, d, mp, 0);
                assert((count_empty(b) - 1) * (d + count_empty(b)) <= 9 * MAX_PLY)
                    by (nonlinear_arith)
                    requires
                        1 <= count_empty(b) <= 9 && 0 <= d && d + count_empty(b) <= MAX_PLY,
                ;
            }
            let dep_i = self.depth as i32;
            if self.depth % 2 == 0 {
                self.utility = value - dep_i;
            } else {
                self.utility = value + dep_i;
            }
        }
    }

    /// Backs utilities up like `generate_min_max`, but stops scanning the
    /// children of a node once the value accumulated there reaches the
    /// `(alpha, beta)` window handed to the node (children are still
    /// materialized eagerly; only further recursion is skipped). A window
    /// wide enough that no utility can reach it — every reachable utility
    /// stays strictly inside (-10000, 10000) — prunes nothing, so the root
    /// utility then equals the one `generate_min_max` computes.
    pub fn generate_min_max_alpha_beta_pruning(&mut self, alpha: i32, beta: i32)
        requires
            old(self).maximizing_player != CellState::EMPTY,
            old(self).childs@.len() == 0,
            !(wins(old(self).game@, CellState::CROSS) && wins(old(self).game@, CellState::CIRCLE)),
            old(self).depth + count_empty(old(self).game@) <= MAX_PLY,
        ensures
            final(self).game == old(self).game,
            final(self).depth == old(self).depth,
            final(self).maximizing_player == old(self).maximizing_player,
            -240 - count_empty(old(self).game@) * (old(self).depth + count_empty(old(self).game@))
                <= final(self).utility <= 240 + count_empty(old(self).game@) * (old(self).depth
                + count_empty(old(self).game@)),
            alpha <= -10000 && beta >= 10000 ==> generated(*final(self)),
            board_terminal(old(self).game@) ==> final(self).utility == minimax(
                old(self).game@,
                old(self).depth as int,
                old(self).maximizing_player,
            ),
        decreases count_empty(old(self).game@),
    {
        proof {
            lemma_empties_spec(old(self).game@);
        }
        self.populate();
        let ghost b = old(self).game@;
        let ghost d = old(self).depth as int;
        let ghost mp = old(self).maximizing_player;
        let ghost ce = count_empty(b);
        let ghost wide = alpha <= -10000 && beta >= 10000;

        let num = self.childs.len();
        if num == 0 {
            proof {
                lemma_empties_spec(b);
                assert(ce * (d + ce) >= 0) by (nonlinear_arith)
                    requires
                        ce >= 0 && d >= 0,
                ;
            }
            if self.depth % 2 == 0 {
                let e = self.game.evaluate(self.maximizing_player.opposite());
                self.utility = -e;
            } else {
                let e = self.game.evaluate(self.maximizing_player);
                self.utility = e;
            }
            return ;
        }
        let mut value: i32 = if self.depth % 2 == 0 {
            i32::MIN
        } else {
            i32::MAX
        };
        let mut pruned = false;
        let mut i: usize = 0;
        while i < num && !pruned
            invariant
                i <= num,
                0 < num,
                num == self.childs@.len(),
                self.game == old(self).game,
                self.depth == old(self).depth,
                self.maximizing_player == old(self).maximizing_player,
                b == old(self).game@,
                d == old(self).depth as int,
                mp == old(self).maximizing_player,
                ce == count_empty(b),
                wide == (alpha <= -10000 && beta >= 10000),
                mp != CellState::EMPTY,
                !(wins(b, CellState::CROSS) && wins(b, CellState::CIRCLE)),
                d + ce <= MAX_PLY,
                num == (if wins(b, CellState::CROSS) || wins(b, CellState::CIRCLE) {
                    0int
                } else {
                    ce
                }),
                forall|k: int| #![trigger self.childs@[k]]
                    0 <= k < num ==> {
                        &&& (*self.childs@[k]).game@ == b.update(empties(b)[k], mover_at(d, mp))
                        &&& (*self.childs@[k]).depth == d + 1
                        &&& (*self.childs@[k]).maximizing_player == mp
                    },
                forall|k: int| #![trigger self.childs@[k]]
                    i <= k < num ==> (*self.childs@[k]).childs@.len() == 0,
                pruned ==> i >= 1,
                i >= 1 ==> -240 - (ce - 1) * (d + ce) <= value <= 240 + (ce - 1) * (d + ce),
                i == 0 ==> value == (if d % 2 == 0 {
                    i32::MIN
                } else {
                    i32::MAX
                }),
                wide ==> !pruned,
                wide ==> (forall|k: int| #![trigger self.childs@[k]]
                    0 <= k < i ==> generated(*self.childs@[k])),
                wide && i >= 1 ==> value == best_upto(b, d, mp, i as int),
            decreases num - i,
        {
            proof {
                lemma_empties_spec(b);
                lemma_count_empty_update(b, empties(b)[i as int], mover_at(d, mp), 9);
                lemma_update_no_new_win(
                    b,
                    empties(b)[i as int],
                    mover_at(d, mp),
                    mover_at(d, mp).opposite_spec(),
                );
            }
            let ghost pre = self.childs@;
            let mut c = self.childs.remove(i);
            c.generate_min_max_alpha_beta_pruning(alpha, beta);
            let ghost cb = c;
            self.childs.insert(i, c);
            proof {
                assert(self.childs@ =~= pre.update(i as int, cb));
                assert(count_empty(cb.game@) * (d + 1 + count_empty(cb.game@)) == (ce - 1) * (d
                    + ce));
                if wide && i >= 1 {
                    lemma_best_upto_bound(b, d, mp, i as int);
                }
                assert((ce - 1) * (d + ce) <= 9 * MAX_PLY) by (nonlinear_arith)
                    requires
                        1 <= ce <= 9 && 0 <= d && d + ce <= MAX_PLY,
                ;
            }
            let u = self.childs[i].utility;
            if self.depth % 2 == 0 {
                if u >= value {
                    value = u;
                }
                if value >= beta {
                    pruned = true;
                }
            } else {
                if u <= value {
                    value = u;
                }
                if value <= alpha {
                    pruned = true;
                }
            }
            i = i + 1;
        }
        proof {
            lemma_empties_spec(b);
            assert((ce - 1) * (d + ce) <= 9 * MAX_PLY) by (nonlinear_arith)
                requires
                    1 <= ce <= 9 && 0 <= d && d + ce <= MAX_PLY,
            ;
            assert((ce - 1) * (d + ce) + d <= ce * (d + ce) && -(ce * (d + ce)) <= -((ce - 1) * (d
                + ce)) - d) by (nonlinear_arith)
                requires
                    ce >= 1 && d >= 0,
            ;
            if wide {
                lemma_best_fold_agrees(b, d, mp, ce);
            }
        }
        let dep_i = self.depth as i32;
        if self.depth % 2 == 0 {
            self.utility = value - dep_i;
        } else {
            self.utility = value + dep_i;
        }
    }
}

} // verus!
