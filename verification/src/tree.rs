use vstd::prelude::*;

use crate::game::{CellState, Game, Position, count_empty, empties, lemma_empties_spec, wins};
use crate::node::{MAX_PLY, Node, board_terminal, generated, minimax, mover_at};

verus! {

/// The minimax values of the successors of `b` at depth `d`, in move order.
pub open spec fn child_values(b: Seq<CellState>, d: int, mp: CellState) -> Seq<int> {
    Seq::new(
        count_empty(b) as nat,
        |k: int| minimax(b.update(empties(b)[k], mover_at(d, mp)), d + 1, mp),
    )
}

/// The index of the first maximum of a non-empty value sequence.
pub open spec fn first_max_index(vals: Seq<int>) -> int
    decreases vals.len(),
{
    if vals.len() <= 1 {
        0
    } else {
        let i = first_max_index(vals.drop_last());
        if vals.last() > vals[i] {
            vals.len() - 1
        } else {
            i
        }
    }
}

/// `first_max_index` points at a maximum, and at the first one.
pub proof fn lemma_first_max_index_props(vals: Seq<int>)
    requires
        vals.len() >= 1,
    ensures
        0 <= first_max_index(vals) < vals.len(),
        forall|k: int| 0 <= k < vals.len() ==> #[trigger] vals[k] <= vals[first_max_index(vals)],
        forall|k: int| 0 <= k < first_max_index(vals) ==> #[trigger] vals[k] < vals[first_max_index(vals)],
    decreases vals.len(),
{
    if vals.len() > 1 {
        let sub = vals.drop_last();
        lemma_first_max_index_props(sub);
        let i = first_max_index(sub);
        let m = first_max_index(vals);
        assert forall|k: int| 0 <= k < vals.len() implies #[trigger] vals[k] <= vals[m] by {
            if k < vals.len() - 1 {
                assert(vals[k] == sub[k] && sub[k] <= sub[i]);
            }
        }
        assert forall|k: int| 0 <= k < m implies #[trigger] vals[k] < vals[m] by {
            assert(vals[k] == sub[k]);
            if m < vals.len() - 1 {
                assert(sub[k] < sub[i]);
            } else {
                assert(sub[k] <= sub[i]);
            }
        }
    }
}

/// The search tree: exactly one exclusively owned root node.
#[derive(Debug)]
pub struct Tree(pub Box<Node>);

impl Tree {
    /// A tree rooted at `game` with depth 0, maximizing for
    /// `maximizing_player`, which must be a real mark.
    pub fn new(game: Game, maximizing_player: CellState) -> (t: Tree)
        requires
            maximizing_player != CellState::EMPTY,
        ensures
            (*t.0).game == game,
            (*t.0).utility == 0,
            (*t.0).depth == 0,
            (*t.0).maximizing_player == maximizing_player,
            (*t.0).childs@.len() == 0,
    {
        Tree(
            Box::new(
                Node { game, utility: 0, depth: 0, maximizing_player, childs: Vec::new() },
            ),
        )
    }

    /// Fully generates and evaluates the tree under the current root.
    pub fn generate_min_max(&mut self)
        requires
            (*old(self).0).maximizing_player != CellState::EMPTY,
            (*old(self).0).childs@.len() == 0,
            !(wins((*old(self).0).game@, CellState::CROSS) && wins(
                (*old(self).0).game@,
                CellState::CIRCLE,
            )),
            (*old(self).0).depth + count_empty((*old(self).0).game@) <= MAX_PLY,
        ensures
            (*final(self).0).game == (*old(self).0).game,
            (*final(self).0).depth == (*old(self).0).depth,
            (*final(self).0).maximizing_player == (*old(self).0).maximizing_player,
            generated(*final(self).0),
    {
        self.0.generate_min_max();
    }

    /// Generates the tree under the current root with an alpha-beta window;
    /// with a window wide enough that nothing is pruned the result is the
    /// same tree `generate_min_max` builds.
    pub fn generate_min_max_alpha_beta_pruning(&mut self, alpha: i32, beta: i32)
        requires
            (*old(self).0).maximizing_player != CellState::EMPTY,
            (*old(self).0).childs@.len() == 0,
            !(wins((*old(self).0).game@, CellState::CROSS) && wins(
                (*old(self).0).game@,
                CellState::CIRCLE,
            )),
            (*old(self).0).depth + count_empty((*old(self).0).game@) <= MAX_PLY,
        ensures
            (*final(self).0).game == (*old(self).0).game,
            (*final(self).0).depth == (*old(self).0).depth,
            (*final(self).0).maximizing_player == (*old(self).0).maximizing_player,
            alpha <= -10000 && beta >= 10000 ==> generated(*final(self).0),
    {
        self.0.generate_min_max_alpha_beta_pruning(alpha, beta);
    }

    /// At even root depth — the maximizing player's turn to choose — returns
    /// the move leading to the child of greatest utility, the first such
    /// child on ties; at odd depth returns nothing. The returned position is
    /// always an empty cell of the root board.
    pub fn get_move(&mut self) -> (r: Option<Position>)
        requires
            (*old(self).0).depth % 2 == 0 ==> {
                &&& generated(*old(self).0)
                &&& !board_terminal((*old(self).0).game@)
                &&& (*old(self).0).maximizing_player != CellState::EMPTY
            },
        ensures
            *final(self) == *old(self),
            (*old(self).0).depth % 2 != 0 ==> r.is_none(),
            (*old(self).0).depth % 2 == 0 ==> ({
                let b = (*old(self).0).game@;
                let d = (*old(self).0).depth as int;
                let mp = (*old(self).0).maximizing_player;
                let vals = child_values(b, d, mp);
                let best = empties(b)[first_max_index(vals)];
                match r {
                    Some(p) => p.0 < 3 && p.1 < 3 && p.0 * 3 + p.1 == best && b[best]
                        == CellState::EMPTY && (forall|k: int|
                        0 <= k < vals.len() ==> #[trigger] vals[k] <= vals[first_max_index(vals)]),
                    None => false,
                }
            }),
    {
        if self.0.depth % 2 != 0 {
            return None;
        }
        let ghost b = (*self.0).game@;
        let ghost d = (*self.0).depth as int;
        let ghost mp = (*self.0).maximizing_player;
        let ghost vals = child_values(b, d, mp);
        proof {
            lemma_empties_spec(b);
            lemma_first_max_index_props(vals);
        }
        let n = self.0.childs.len();
        let mut bi: usize = 0;
        let mut bu: i32 = self.0.childs[0].utility;
        let mut j: usize = 1;
        proof {
            assert(generated(*(*self.0).childs@[0]));
            assert(vals.subrange(0, 1) =~= seq![vals[0]]);
        }
        while j < n
            invariant
                1 <= j <= n,
                (bi as int) < j,
                *self == *old(self),
                (*self.0).depth % 2 == 0,
                generated(*self.0),
                !board_terminal((*self.0).game@),
                (*self.0).maximizing_player != CellState::EMPTY,
                b == (*self.0).game@,
                d == (*self.0).depth as int,
                mp == (*self.0).maximizing_player,
                vals == child_values(b, d, mp),
                n == (*self.0).childs@.len(),
                n == vals.len(),
                bi as int == first_max_index(vals.subrange(0, j as int)),
                bu == vals[bi as int],
            decreases n - j,
        {
            let u = self.0.childs[j].utility;
            proof {
                assert(generated(*(*self.0).childs@[j as int]));
                assert(vals.subrange(0, j as int + 1).drop_last() =~= vals.subrange(0, j as int));
                assert(vals.subrange(0, j as int + 1).last() == vals[j as int]);
            }
            if u > bu {
                bi = j;
                bu = u;
            }
            j = j + 1;
        }
        proof {
            assert(vals.subrange(0, n as int) =~= vals);
        }
        let r = self.0.game.get_one_difference(&self.0.childs[bi].game);
        proof {
            let best = empties(b)[first_max_index(vals)];
            assert((*(*self.0).childs@[bi as int]).game@ == b.update(best, mp));
            assert(b[best] == CellState::EMPTY);
            assert(b[best] != b.update(best, mp)[best]);
        }
        r
    }

    /// Re-roots the tree at the child whose board is the current root board
    /// with `player` placed at `pos`, discarding the old root and every other
    /// subtree. The move must be one the tree has generated.
    pub fn set_move(&mut self, pos: Position, player: CellState)
        requires
            pos.0 < 3,
            pos.1 < 3,
            generated(*old(self).0),
            exists|k: int| #![trigger (*old(self).0).childs@[k]]
                0 <= k < (*old(self).0).childs@.len() && (*(*old(self).0).childs@[k]).game@ == (*old(
                    self,
                ).0).game@.update(pos.0 * 3 + pos.1, player),
        ensures
            (*final(self).0).game@ == (*old(self).0).game@.update(pos.0 * 3 + pos.1, player),
            (*final(self).0).depth == (*old(self).0).depth + 1,
            (*final(self).0).maximizing_player == (*old(self).0).maximizing_player,
            generated(*final(self).0),
    {
        let mut g = self.0.game;
        g.set_move(&pos, player);
        let n = self.0.childs.len();
        let mut i: usize = 0;
        while i < n
            invariant
                i <= n,
                *self == *old(self),
                n == (*self.0).childs@.len(),
                g@ == (*old(self).0).game@.update(pos.0 * 3 + pos.1, player),
                generated(*old(self).0),
                exists|k: int| #![trigger (*old(self).0).childs@[k]]
                    0 <= k < (*old(self).0).childs@.len() && (*(*old(self).0).childs@[k]).game@
                        == (*old(self).0).game@.update(pos.0 * 3 + pos.1, player),
                forall|k: int| #![trigger (*self.0).childs@[k]]
                    0 <= k < i ==> (*(*self.0).childs@[k]).game@ != g@,
            decreases n - i,
        {
            if self.0.childs[i].game.get_one_difference(&g).is_none() {
                let c = self.0.childs.swap_remove(i);
                self.0 = c;
                return ;
            }
            i = i + 1;
        }
        proof {
            let k = choose|k: int| #![trigger (*old(self).0).childs@[k]]
                0 <= k < (*old(self).0).childs@.len() && (*(*old(self).0).childs@[k]).game@ == (
                *old(self).0).game@.update(pos.0 * 3 + pos.1, player);
            assert((*(*self.0).childs@[k]).game@ != g@);
            assert(false);
        }
    }
}

/// The engine's own move always matches a generated child: committing the
/// move `get_move` selects with `set_move` finds the child it came from, so
/// re-rooting cannot fail.
pub proof fn lemma_engine_move_has_matching_child(n: Node)
    requires
        generated(n),
        n.depth % 2 == 0,
        !board_terminal(n.game@),
        n.maximizing_player != CellState::EMPTY,
    ensures
        ({
            let vals = child_values(n.game@, n.depth as int, n.maximizing_player);
            let best = empties(n.game@)[first_max_index(vals)];
            exists|k: int| #![trigger n.childs@[k]]
                0 <= k < n.childs@.len() && (*n.childs@[k]).game@ == n.game@.update(
                    best,
                    n.maximizing_player,
                )
        }),
{
    let vals = child_values(n.game@, n.depth as int, n.maximizing_player);
    lemma_first_max_index_props(vals);
    let i = first_max_index(vals);
    assert((*n.childs@[i]).game@ == n.game@.update(
        empties(n.game@)[i],
        n.maximizing_player,
    ));
}

} // verus!
