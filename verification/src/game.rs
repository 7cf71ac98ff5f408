use vstd::prelude::*;

verus! {

/// The content of one board cell: a circle mark, a cross mark, or nothing.
#[derive(Debug, Clone, Copy, PartialEq, Eq, Structural)]
pub enum CellState {
    CIRCLE,
    CROSS,
    EMPTY,
}

impl CellState {
    /// The other player's mark; `EMPTY` maps to itself.
    pub open spec fn opposite_spec(self) -> CellState {
        match self {
            CellState::CIRCLE => CellState::CROSS,
            CellState::CROSS => CellState::CIRCLE,
            CellState::EMPTY => CellState::EMPTY,
        }
    }

    pub fn opposite(&self) -> (r: CellState)
        ensures
            r == self.opposite_spec(),
    {
        match self {
            CellState::CIRCLE => CellState::CROSS,
            CellState::CROSS => CellState::CIRCLE,
            CellState::EMPTY => CellState::EMPTY,
        }
    }
}

/// The two 9-bit player masks: cross bits first, circle bits second.
pub struct XPosOPos(pub u16, pub u16);

/// A (row, column) pair; valid coordinates lie in [0, 2] x [0, 2].
#[derive(Debug, Clone, Copy, PartialEq, Eq, Structural)]
pub struct Position(pub usize, pub usize);

/// A 3x3 board, a plain value that is copied rather than shared.
#[derive(Debug, Clone, Copy, PartialEq)]
pub struct Game {
    pub cell: [[CellState; 3]; 3],
}

impl Game {
    /// The board as a row-major sequence of 9 cells: cell (i, j) at index 3*i + j.
    pub open spec fn view(self) -> Seq<CellState> {
        Seq::new(9, |k: int| self.cell@[k / 3]@[k % 3])
    }
}

/// The cells of the 8 winning lines, as row-major indexes, in the same
/// order as the mask table `line_mask`.
pub open spec fn line_cells(l: int) -> (int, int, int) {
    if l == 0 {
        (6, 7, 8)
    } else if l == 1 {
        (3, 4, 5)
    } else if l == 2 {
        (0, 1, 2)
    } else if l == 3 {
        (2, 5, 8)
    } else if l == 4 {
        (1, 4, 7)
    } else if l == 5 {
        (0, 3, 6)
    } else if l == 6 {
        (0, 4, 8)
    } else {
        (2, 4, 6)
    }
}

/// Whether line `l` is fully held by `p`.
pub open spec fn line_won(b: Seq<CellState>, p: CellState, l: int) -> bool {
    b[line_cells(l).0] == p && b[line_cells(l).1] == p && b[line_cells(l).2] == p
}

/// Brute-force win check: `p` holds some complete row, column or diagonal.
pub open spec fn wins(b: Seq<CellState>, p: CellState) -> bool {
    exists|l: int| 0 <= l < 8 && #[trigger] line_won(b, p, l)
}

/// The 9-bit masks of the 8 winning lines, one bit per cell (bit 3*i + j for
/// cell (i, j)), in the order the scan checks them.
pub open spec fn line_mask(l: int) -> u16 {
    if l == 0 {
        0b111_000_000u16
    } else if l == 1 {
        0b000_111_000u16
    } else if l == 2 {
        0b000_000_111u16
    } else if l == 3 {
        0b100_100_100u16
    } else if l == 4 {
        0b010_010_010u16
    } else if l == 5 {
        0b001_001_001u16
    } else if l == 6 {
        0b100_010_001u16
    } else {
        0b001_010_100u16
    }
}

/// 1 when cell `c` holds `p`, else 0.
pub open spec fn mark_bit(b: Seq<CellState>, p: CellState, c: int) -> u16 {
    if b[c] == p {
        1u16
    } else {
        0u16
    }
}

/// The weight of bit `c` in a 9-bit mask, i.e. 2^c, and 2^9 past the end.
pub open spec fn bit_weight(c: int) -> int {
    if c == 0 {
        1
    } else if c == 1 {
        2
    } else if c == 2 {
        4
    } else if c == 3 {
        8
    } else if c == 4 {
        16
    } else if c == 5 {
        32
    } else if c == 6 {
        64
    } else if c == 7 {
        128
    } else if c == 8 {
        256
    } else {
        512
    }
}

/// The value of `p`'s mask restricted to cells below `n`.
pub open spec fn bits_upto(b: Seq<CellState>, p: CellState, n: int) -> int
    decreases n,
{
    if n <= 0 {
        0
    } else {
        bits_upto(b, p, n - 1) + bit_weight(n - 1) * mark_bit(b, p, n - 1)
    }
}

/// The 9-bit mask of `p`'s marks: bit 3*i + j is set iff cell (i, j) holds `p`.
pub open spec fn player_bits(b: Seq<CellState>, p: CellState) -> int {
    bits_upto(b, p, 9)
}

pub proof fn lemma_bits_upto_bound(b: Seq<CellState>, p: CellState, n: int)
    requires
        0 <= n <= 9,
    ensures
        0 <= bits_upto(b, p, n) < bit_weight(n),
    decreases n,
{
    if n > 0 {
        lemma_bits_upto_bound(b, p, n - 1);
        lemma_bits_upto_step(b, p, n - 1);
    }
}

/// One unfolding of `bits_upto`, with the 0/1 factor resolved.
pub proof fn lemma_bits_upto_step(b: Seq<CellState>, p: CellState, n: int)
    requires
        0 <= n,
    ensures
        bits_upto(b, p, n + 1) == bits_upto(b, p, n) + (if b[n] == p {
            bit_weight(n)
        } else {
            0int
        }),
{
    let m = mark_bit(b, p, n);
    if m == 1 {
        assert(bit_weight(n) * 1int == bit_weight(n));
    } else {
        assert(bit_weight(n) * 0int == 0int);
    }
}

/// Connects the row-major view to the underlying cell array.
pub proof fn lemma_view_cell(g: Game, i: int, j: int)
    requires
        0 <= i < 3,
        0 <= j < 3,
    ensures
        g@[3 * i + j] == g.cell@[i]@[j],
{
    assert((3 * i + j) / 3 == i && (3 * i + j) % 3 == j) by (nonlinear_arith)
        requires
            0 <= i < 3 && 0 <= j < 3,
    ;
}

/// The row-major indexes of the empty cells below index `n`.
pub open spec fn empties_below(b: Seq<CellState>, n: int) -> Seq<int>
    decreases n,
{
    if n <= 0 {
        Seq::empty()
    } else if b[n - 1] == CellState::EMPTY {
        empties_below(b, n - 1).push(n - 1)
    } else {
        empties_below(b, n - 1)
    }
}

/// The row-major indexes of all empty cells.
pub open spec fn empties(b: Seq<CellState>) -> Seq<int> {
    empties_below(b, 9)
}

/// How many cells are empty.
pub open spec fn count_empty(b: Seq<CellState>) -> int {
    empties(b).len() as int
}

pub proof fn lemma_empties_below_spec(b: Seq<CellState>, n: int)
    requires
        0 <= n <= 9,
    ensures
        empties_below(b, n).len() <= n,
        forall|k: int|
            0 <= k < empties_below(b, n).len() ==> 0 <= #[trigger] empties_below(b, n)[k] < n
                && b[empties_below(b, n)[k]] == CellState::EMPTY,
        forall|k1: int, k2: int|
            0 <= k1 < k2 < empties_below(b, n).len() ==> empties_below(b, n)[k1] < empties_below(
                b,
                n,
            )[k2],
        forall|c: int|
            0 <= c < n && b[c] == CellState::EMPTY ==> empties_below(b, n).contains(c),
    decreases n,
{
    if n > 0 {
        lemma_empties_below_spec(b, n - 1);
        assert forall|c: int|
            0 <= c < n && b[c] == CellState::EMPTY implies empties_below(b, n).contains(c) by {
            if c < n - 1 {
                let k = choose|k: int|
                    #![trigger empties_below(b, n - 1)[k]]
                    0 <= k < empties_below(b, n - 1).len() && empties_below(b, n - 1)[k] == c;
                assert(empties_below(b, n)[k] == c);
            } else {
                assert(empties_below(b, n).last() == c);
            }
        }
    }
}

pub proof fn lemma_empties_spec(b: Seq<CellState>)
    ensures
        count_empty(b) <= 9,
        forall|k: int|
            0 <= k < count_empty(b) ==> 0 <= #[trigger] empties(b)[k] < 9 && b[empties(b)[k]]
                == CellState::EMPTY,
        forall|k1: int, k2: int|
            0 <= k1 < k2 < count_empty(b) ==> empties(b)[k1] < empties(b)[k2],
        forall|c: int| 0 <= c < 9 && b[c] == CellState::EMPTY ==> empties(b).contains(c),
{
    lemma_empties_below_spec(b, 9);
}

/// Marking an empty cell with a player's mark removes exactly that cell from
/// the empty-cell list's length.
pub proof fn lemma_count_empty_update(b: Seq<CellState>, c: int, m: CellState, n: int)
    requires
        0 <= c < 9,
        b.len() == 9,
        b[c] == CellState::EMPTY,
        m != CellState::EMPTY,
        0 <= n <= 9,
    ensures
        empties_below(b.update(c, m), n).len() == empties_below(b, n).len() - (
        if c < n {
            1int
        } else {
            0int
        }),
    decreases n,
{
    if n > 0 {
        lemma_count_empty_update(b, c, m, n - 1);
    }
}

impl Game {
    /// A board of 9 empty cells.
    pub fn new() -> (g: Game)
        ensures
            forall|k: int| 0 <= k < 9 ==> g@[k] == CellState::EMPTY,
            count_empty(g@) == 9,
    {
        let g = Game {
            cell: [
                [CellState::EMPTY; 3],
                [CellState::EMPTY; 3],
                [CellState::EMPTY; 3],
            ],
        };
        proof {
            lemma_empties_spec(g@);
            if count_empty(g@) < 9 {
                assert(g@[0] == CellState::EMPTY && empties(g@).contains(0));
                assert(g@[1] == CellState::EMPTY && empties(g@).contains(1));
                assert(g@[2] == CellState::EMPTY && empties(g@).contains(2));
                assert(g@[3] == CellState::EMPTY && empties(g@).contains(3));
                assert(g@[4] == CellState::EMPTY && empties(g@).contains(4));
                assert(g@[5] == CellState::EMPTY && empties(g@).contains(5));
                assert(g@[6] == CellState::EMPTY && empties(g@).contains(6));
                assert(g@[7] == CellState::EMPTY && empties(g@).contains(7));
                assert(g@[8] == CellState::EMPTY && empties(g@).contains(8));
            }
        }
        g
    }

    /// Whether the cell at (x, y) is empty; coordinates must be in range.
    pub fn is_empty_cell(&self, x: usize, y: usize) -> (r: bool)
        requires
            x < 3,
            y < 3,
        ensures
            r <==> self@[x as int * 3 + y] == CellState::EMPTY,
    {
        self.cell[x][y] == CellState::EMPTY
    }

    /// All empty-cell positions, in row-major order.
    pub fn get_possible_move(&self) -> (r: Vec<Position>)
        ensures
            r@.len() == count_empty(self@),
            forall|k: int|
                0 <= k < r@.len() ==> (#[trigger] r@[k]).0 < 3 && r@[k].1 < 3 && r@[k].0 * 3
                    + r@[k].1 == empties(self@)[k],
    {
        let mut res: Vec<Position> = Vec::new();
        for i in 0..3
            invariant
                res@.len() == empties_below(self@, 3 * i).len(),
                forall|k: int|
                    0 <= k < res@.len() ==> (#[trigger] res@[k]).0 < 3 && res@[k].1 < 3 && res@[k].0
                        * 3 + res@[k].1 == empties_below(self@, 3 * i)[k],
        {
            for j in 0..3
                invariant
                    i < 3,
                    res@.len() == empties_below(self@, 3 * (i as int) + (j as int)).len(),
                    forall|k: int|
                        0 <= k < res@.len() ==> (#[trigger] res@[k]).0 < 3 && res@[k].1 < 3
                            && res@[k].0 * 3 + res@[k].1 == empties_below(self@, 3 * (i as int) + (j as int))[k],
            {
                match self.cell[i][j] {
                    CellState::EMPTY => {
                        res.push(Position(i, j));
                    },
                    _ => (),
                }
            }
        }
        res
    }

    /// Scans row-major and returns the first position where the two boards
    /// differ, or nothing when they are equal.
    pub fn get_one_difference(&self, b: &Game) -> (r: Option<Position>)
        ensures
            r.is_none() <==> self@ == b@,
            match r {
                Some(p) => p.0 < 3 && p.1 < 3 && self@[p.0 as int * 3 + p.1] != b@[p.0 as int * 3
                    + p.1] && forall|c: int| 0 <= c < p.0 * 3 + p.1 ==> self@[c] == b@[c],
                None => true,
            },
    {
        for i in 0..3
            invariant
                forall|c: int| 0 <= c < 3 * i ==> self@[c] == b@[c],
        {
            for j in 0..3
                invariant
                    i < 3,
                    forall|c: int| 0 <= c < 3 * (i as int) + (j as int) ==> self@[c] == b@[c],
            {
                proof {
                    lemma_view_cell(*self, i as int, j as int);
                    lemma_view_cell(*b, i as int, j as int);
                }
                if self.cell[i][j] != b.cell[i][j] {
                    return Some(Position(i, j));
                }
            }
        }
        proof {
            assert(self@ =~= b@);
        }
        None
    }

    /// Writes `player` into the cell at `pos`, with no occupancy check.
    pub fn set_move(&mut self, pos: &Position, player: CellState)
        requires
            pos.0 < 3,
            pos.1 < 3,
        ensures
            final(self)@ == old(self)@.update(pos.0 as int * 3 + pos.1, player),
    {
        self.cell[pos.0][pos.1] = player;
        proof {
            assert(final(self)@ =~= old(self)@.update(pos.0 as int * 3 + pos.1, player));
        }
    }

    /// The two 9-bit player masks of this board.
    pub fn game_to_bits(&self) -> (r: XPosOPos)
        ensures
            r.0 as int == player_bits(self@, CellState::CROSS),
            r.1 as int == player_bits(self@, CellState::CIRCLE),
    {
        let mut x_bits: u16 = 0;
        let mut o_bits: u16 = 0;
        for i in 0..3
            invariant
                x_bits as int == bits_upto(self@, CellState::CROSS, 3 * i),
                o_bits as int == bits_upto(self@, CellState::CIRCLE, 3 * i),
        {
            for j in 0..3
                invariant
                    i < 3,
                    x_bits as int == bits_upto(self@, CellState::CROSS, 3 * (i as int) + (j as int)),
                    o_bits as int == bits_upto(self@, CellState::CIRCLE, 3 * (i as int) + (j as int)),
            {
                proof {
                    lemma_bits_upto_bound(self@, CellState::CROSS, 3 * (i as int) + (j as int));
                    lemma_bits_upto_bound(self@, CellState::CIRCLE, 3 * (i as int) + (j as int));
                    lemma_bits_upto_step(self@, CellState::CROSS, 3 * (i as int) + (j as int));
                    lemma_bits_upto_step(self@, CellState::CIRCLE, 3 * (i as int) + (j as int));
                    lemma_view_cell(*self, i as int, j as int);
                }
                let w = cell_weight(i, j);
                match self.cell[i][j] {
                    CellState::CIRCLE => o_bits = o_bits + w,
                    CellState::CROSS => x_bits = x_bits + w,
                    _ => (),
                }
            }
        }
        XPosOPos(x_bits, o_bits)
    }

    /// The winning mark, if some winning line is fully covered by that mark's
    /// bits; `CROSS` is checked first on each line.
    pub fn is_won(&self) -> (r: Option<CellState>)
        ensures
            r.is_none() <==> !wins(self@, CellState::CROSS) && !wins(self@, CellState::CIRCLE),
            r == Some(CellState::CROSS) ==> wins(self@, CellState::CROSS),
            r == Some(CellState::CIRCLE) ==> wins(self@, CellState::CIRCLE),
            r != Some(CellState::EMPTY),
            wins(self@, CellState::CROSS) && !wins(self@, CellState::CIRCLE) ==> r == Some(
                CellState::CROSS,
            ),
            wins(self@, CellState::CIRCLE) && !wins(self@, CellState::CROSS) ==> r == Some(
                CellState::CIRCLE,
            ),
    {
        let XPosOPos(x_bits, o_bits) = self.game_to_bits();
        proof {
            lemma_player_bits_lines(self@, CellState::CROSS, x_bits);
            lemma_player_bits_lines(self@, CellState::CIRCLE, o_bits);
        }
        let mut l: usize = 0;
        while l < 8
            invariant
                l <= 8,
                x_bits as int == player_bits(self@, CellState::CROSS),
                o_bits as int == player_bits(self@, CellState::CIRCLE),
                forall|t: int|
                    0 <= t < 8 ==> (((line_mask(t) & x_bits) == line_mask(t)) <==> line_won(
                        self@,
                        CellState::CROSS,
                        t,
                    )),
                forall|t: int|
                    0 <= t < 8 ==> (((line_mask(t) & o_bits) == line_mask(t)) <==> line_won(
                        self@,
                        CellState::CIRCLE,
                        t,
                    )),
                forall|t: int|
                    0 <= t < l ==> !line_won(self@, CellState::CROSS, t) && !line_won(
                        self@,
                        CellState::CIRCLE,
                        t,
                    ),
            decreases 8 - l,
        {
            let m = winning_mask(l);
            if (m & x_bits) == m {
                return Some(CellState::CROSS);
            }
            if (m & o_bits) == m {
                return Some(CellState::CIRCLE);
            }
            l = l + 1;
        }
        None
    }

    /// Whether no empty cell remains.
    pub fn is_over(&self) -> (r: bool)
        ensures
            r <==> count_empty(self@) == 0,
    {
        proof {
            lemma_empties_spec(self@);
        }
        for i in 0..3
            invariant
                forall|c: int| 0 <= c < 3 * i ==> self@[c] != CellState::EMPTY,
                forall|k: int|
                    0 <= k < count_empty(self@) ==> 0 <= #[trigger] empties(self@)[k] < 9
                        && self@[empties(self@)[k]] == CellState::EMPTY,
                forall|c: int|
                    0 <= c < 9 && self@[c] == CellState::EMPTY ==> empties(self@).contains(c),
        {
            for j in 0..3
                invariant
                    i < 3,
                    forall|c: int| 0 <= c < 3 * (i as int) + (j as int) ==> self@[c] != CellState::EMPTY,
                    forall|k: int|
                        0 <= k < count_empty(self@) ==> 0 <= #[trigger] empties(self@)[k] < 9
                            && self@[empties(self@)[k]] == CellState::EMPTY,
                    forall|c: int|
                        0 <= c < 9 && self@[c] == CellState::EMPTY ==> empties(self@).contains(c),
            {
                if self.is_empty_cell(i, j) {
                    proof {
                        assert(empties(self@).contains(3 * (i as int) + (j as int)));
                    }
                    return false;
                }
            }
        }
        proof {
            if count_empty(self@) > 0 {
                assert(self@[empties(self@)[0]] == CellState::EMPTY);
            }
        }
        true
    }

    /// The score of this board for `player`: +100 when `player` has won, -100
    /// when the opponent has, else 10 points per live two-in-line pattern of
    /// `player`. On the degenerate (unreachable) boards where both players
    /// hold a complete line, the mark of the first covered line wins.
    pub fn evaluate(&self, player: CellState) -> (r: i32)
        requires
            player != CellState::EMPTY,
        ensures
            -100 <= r <= 240,
            wins(self@, player) && !wins(self@, player.opposite_spec()) ==> r == 100,
            wins(self@, player.opposite_spec()) && !wins(self@, player) ==> r == -100,
            !(wins(self@, CellState::CROSS) && wins(self@, CellState::CIRCLE)) ==> r == eval_spec(
                self@,
                player,
            ),
    {
        match self.is_won() {
            Some(x) => {
                if x == player {
                    return 100;
                } else {
                    return -100;
                }
            },
            _ => {},
        }
        let XPosOPos(x_bits, o_bits) = self.game_to_bits();
        let mine: u16;
        let theirs: u16;
        if player == CellState::CIRCLE {
            mine = o_bits;
            theirs = x_bits;
        } else {
            mine = x_bits;
            theirs = o_bits;
        }
        proof {
            lemma_player_bits_patterns(self@, player, mine, theirs);
        }
        let mut score: i32 = 0;
        let mut q: usize = 0;
        while q < 24
            invariant
                q <= 24,
                player != CellState::EMPTY,
                score as int == 10 * live_upto(self@, player, q as int),
                0 <= score <= 10 * q,
                forall|t: int|
                    0 <= t < 24 ==> (((pattern_match_mask(t) & mine) == pattern_match_mask(t))
                        <==> (self@[pattern_cells(t).0] == player && self@[pattern_cells(t).1]
                        == player)),
                forall|t: int|
                    0 <= t < 24 ==> (((pattern_block_mask(t) & theirs) == pattern_block_mask(t))
                        <==> self@[pattern_cells(t).2] == player.opposite_spec()),
            decreases 24 - q,
        {
            let (pm, bm) = two_align_masks(q);
            if (pm & mine) == pm && (bm & theirs) != bm {
                score = score + 10;
            }
            q = q + 1;
        }
        score
    }
}

/// The bit weight of cell (i, j) in a 9-bit mask, as an executable value.
fn cell_weight(i: usize, j: usize) -> (r: u16)
    requires
        i < 3,
        j < 3,
    ensures
        r as int == bit_weight(i as int * 3 + j),
{
    let c = i * 3 + j;
    if c == 0 {
        1
    } else if c == 1 {
        2
    } else if c == 2 {
        4
    } else if c == 3 {
        8
    } else if c == 4 {
        16
    } else if c == 5 {
        32
    } else if c == 6 {
        64
    } else if c == 7 {
        128
    } else {
        256
    }
}

/// The winning-line mask table, as executable values.
fn winning_mask(l: usize) -> (r: u16)
    requires
        l < 8,
    ensures
        r == line_mask(l as int),
{
    if l == 0 {
        0b111_000_000u16
    } else if l == 1 {
        0b000_111_000u16
    } else if l == 2 {
        0b000_000_111u16
    } else if l == 3 {
        0b100_100_100u16
    } else if l == 4 {
        0b010_010_010u16
    } else if l == 5 {
        0b001_001_001u16
    } else if l == 6 {
        0b100_010_001u16
    } else {
        0b001_010_100u16
    }
}

/// The two "match" cells and the "block" cell of two-in-line pattern `q`, as
/// row-major indexes, in the same order as the mask tables: `q` names a line
/// with two cells held by a player and the third cell that the opponent must
/// not hold for the line to stay completable.
pub open spec fn pattern_cells(q: int) -> (int, int, int) {
    if q == 0 {
        (8, 7, 6)
    } else if q == 1 {
        (7, 6, 8)
    } else if q == 2 {
        (8, 6, 7)
    } else if q == 3 {
        (4, 3, 5)
    } else if q == 4 {
        (5, 4, 3)
    } else if q == 5 {
        (5, 3, 4)
    } else if q == 6 {
        (2, 1, 0)
    } else if q == 7 {
        (1, 0, 2)
    } else if q == 8 {
        (2, 0, 1)
    } else if q == 9 {
        (8, 5, 2)
    } else if q == 10 {
        (5, 2, 8)
    } else if q == 11 {
        (8, 2, 5)
    } else if q == 12 {
        (4, 1, 7)
    } else if q == 13 {
        (7, 1, 4)
    } else if q == 14 {
        (7, 4, 1)
    } else if q == 15 {
        (3, 0, 6)
    } else if q == 16 {
        (6, 0, 3)
    } else if q == 17 {
        (6, 3, 0)
    } else if q == 18 {
        (4, 0, 8)
    } else if q == 19 {
        (8, 0, 4)
    } else if q == 20 {
        (8, 4, 0)
    } else if q == 21 {
        (6, 4, 2)
    } else if q == 22 {
        (6, 2, 4)
    } else {
        (4, 2, 6)
    }
}

/// The mask of the two match cells of pattern `q`.
pub open spec fn pattern_match_mask(q: int) -> u16 {
    if q == 0 {
        0b110_000_000u16
    } else if q == 1 {
        0b011_000_000u16
    } else if q == 2 {
        0b101_000_000u16
    } else if q == 3 {
        0b000_011_000u16
    } else if q == 4 {
        0b000_110_000u16
    } else if q == 5 {
        0b000_101_000u16
    } else if q == 6 {
        0b000_000_110u16
    } else if q == 7 {
        0b000_000_011u16
    } else if q == 8 {
        0b000_000_101u16
    } else if q == 9 {
        0b100_100_000u16
    } else if q == 10 {
        0b000_100_100u16
    } else if q == 11 {
        0b100_000_100u16
    } else if q == 12 {
        0b000_010_010u16
    } else if q == 13 {
        0b010_000_010u16
    } else if q == 14 {
        0b010_010_000u16
    } else if q == 15 {
        0b000_001_001u16
    } else if q == 16 {
        0b001_000_001u16
    } else if q == 17 {
        0b001_001_000u16
    } else if q == 18 {
        0b000_010_001u16
    } else if q == 19 {
        0b100_000_001u16
    } else if q == 20 {
        0b100_010_000u16
    } else if q == 21 {
        0b001_010_000u16
    } else if q == 22 {
        0b001_000_100u16
    } else {
        0b000_010_100u16
    }
}

/// The mask of the block cell of pattern `q`.
pub open spec fn pattern_block_mask(q: int) -> u16 {
    if q == 0 {
        0b001_000_000u16
    } else if q == 1 {
        0b100_000_000u16
    } else if q == 2 {
        0b010_000_000u16
    } else if q == 3 {
        0b000_100_000u16
    } else if q == 4 {
        0b000_001_000u16
    } else if q == 5 {
        0b000_010_000u16
    } else if q == 6 {
        0b000_000_001u16
    } else if q == 7 {
        0b000_000_100u16
    } else if q == 8 {
        0b000_000_010u16
    } else if q == 9 {
        0b000_000_100u16
    } else if q == 10 {
        0b100_000_000u16
    } else if q == 11 {
        0b000_100_000u16
    } else if q == 12 {
        0b010_000_000u16
    } else if q == 13 {
        0b000_010_000u16
    } else if q == 14 {
        0b000_000_010u16
    } else if q == 15 {
        0b001_000_000u16
    } else if q == 16 {
        0b000_001_000u16
    } else if q == 17 {
        0b000_000_001u16
    } else if q == 18 {
        0b100_000_000u16
    } else if q == 19 {
        0b000_010_000u16
    } else if q == 20 {
        0b000_000_001u16
    } else if q == 21 {
        0b000_000_100u16
    } else if q == 22 {
        0b000_010_000u16
    } else {
        0b001_000_000u16
    }
}

/// Pattern `q` is live for `p`: `p` holds both match cells and the opponent
/// does not hold the block cell.
pub open spec fn pattern_live(b: Seq<CellState>, p: CellState, q: int) -> bool {
    b[pattern_cells(q).0] == p && b[pattern_cells(q).1] == p && b[pattern_cells(q).2]
        != p.opposite_spec()
}

/// How many of the first `n` two-in-line patterns are live for `p`.
pub open spec fn live_upto(b: Seq<CellState>, p: CellState, n: int) -> int
    decreases n,
{
    if n <= 0 {
        0
    } else {
        live_upto(b, p, n - 1) + (if pattern_live(b, p, n - 1) {
            1int
        } else {
            0int
        })
    }
}

/// The score of a board for `p`: exactly +100 when `p` has completed a line,
/// exactly -100 when only the opponent has, else 10 points for each of `p`'s
/// live two-in-line patterns (the opponent's live lines do not subtract).
pub open spec fn eval_spec(b: Seq<CellState>, p: CellState) -> int {
    if wins(b, p) {
        100
    } else if wins(b, p.opposite_spec()) {
        -100
    } else {
        10 * live_upto(b, p, 24)
    }
}

pub proof fn lemma_live_upto_bound(b: Seq<CellState>, p: CellState, n: int)
    requires
        0 <= n,
    ensures
        0 <= live_upto(b, p, n) <= n,
    decreases n,
{
    if n > 0 {
        lemma_live_upto_bound(b, p, n - 1);
    }
}

pub proof fn lemma_eval_spec_bound(b: Seq<CellState>, p: CellState)
    ensures
        -100 <= eval_spec(b, p) <= 240,
{
    lemma_live_upto_bound(b, p, 24);
}

/// A move by `m` cannot create a win for the other mark `q`.
pub proof fn lemma_update_no_new_win(b: Seq<CellState>, c: int, m: CellState, q: CellState)
    requires
        b.len() == 9,
        0 <= c < 9,
        q != m,
        !wins(b, q),
    ensures
        !wins(b.update(c, m), q),
{
    let nb = b.update(c, m);
    assert forall|l: int| 0 <= l < 8 implies !line_won(nb, q, l) by {
        if line_won(nb, q, l) {
            assert(line_cells(l).0 != c && line_cells(l).1 != c && line_cells(l).2 != c);
            assert(line_won(b, q, l));
        }
    }
}

/// The two-in-line mask table, as executable values: the bits the player must
/// match, and the bit the other player must not match.
fn two_align_masks(q: usize) -> (r: (u16, u16))
    requires
        q < 24,
    ensures
        r.0 == pattern_match_mask(q as int),
        r.1 == pattern_block_mask(q as int),
{
    if q == 0 {
        (0b110_000_000u16, 0b001_000_000u16)
    } else if q == 1 {
        (0b011_000_000u16, 0b100_000_000u16)
    } else if q == 2 {
        (0b101_000_000u16, 0b010_000_000u16)
    } else if q == 3 {
        (0b000_011_000u16, 0b000_100_000u16)
    } else if q == 4 {
        (0b000_110_000u16, 0b000_001_000u16)
    } else if q == 5 {
        (0b000_101_000u16, 0b000_010_000u16)
    } else if q == 6 {
        (0b000_000_110u16, 0b000_000_001u16)
    } else if q == 7 {
        (0b000_000_011u16, 0b000_000_100u16)
    } else if q == 8 {
        (0b000_000_101u16, 0b000_000_010u16)
    } else if q == 9 {
        (0b100_100_000u16, 0b000_000_100u16)
    } else if q == 10 {
        (0b000_100_100u16, 0b100_000_000u16)
    } else if q == 11 {
        (0b100_000_100u16, 0b000_100_000u16)
    } else if q == 12 {
        (0b000_010_010u16, 0b010_000_000u16)
    } else if q == 13 {
        (0b010_000_010u16, 0b000_010_000u16)
    } else if q == 14 {
        (0b010_010_000u16, 0b000_000_010u16)
    } else if q == 15 {
        (0b000_001_001u16, 0b001_000_000u16)
    } else if q == 16 {
        (0b001_000_001u16, 0b000_001_000u16)
    } else if q == 17 {
        (0b001_001_000u16, 0b000_000_001u16)
    } else if q == 18 {
        (0b000_010_001u16, 0b100_000_000u16)
    } else if q == 19 {
        (0b100_000_001u16, 0b000_010_000u16)
    } else if q == 20 {
        (0b100_010_000u16, 0b000_000_001u16)
    } else if q == 21 {
        (0b001_010_000u16, 0b000_000_100u16)
    } else if q == 22 {
        (0b001_000_100u16, 0b000_010_000u16)
    } else {
        (0b000_010_100u16, 0b001_000_000u16)
    }
}

/// Relates each two-in-line mask test to the pattern's cells: the match test
/// on the player's own 9-bit mask, the block test on the opponent's.
#[verifier::rlimit(100)]
pub proof fn lemma_player_bits_patterns(b: Seq<CellState>, p: CellState, mine: u16, theirs: u16)
    requires
        p != CellState::EMPTY,
        mine as int == player_bits(b, p),
        theirs as int == player_bits(b, p.opposite_spec()),
    ensures
        forall|q: int|
            0 <= q < 24 ==> (((pattern_match_mask(q) & mine) == pattern_match_mask(q)) <==> (
            b[pattern_cells(q).0] == p && b[pattern_cells(q).1] == p)),
        forall|q: int|
            0 <= q < 24 ==> (((pattern_block_mask(q) & theirs) == pattern_block_mask(q)) <==> b[
                pattern_cells(q).2
            ] == p.opposite_spec()),
{
    let t0 = mark_bit(b, p, 0);
    let t1 = mark_bit(b, p, 1);
    let t2 = mark_bit(b, p, 2);
    let t3 = mark_bit(b, p, 3);
    let t4 = mark_bit(b, p, 4);
    let t5 = mark_bit(b, p, 5);
    let t6 = mark_bit(b, p, 6);
    let t7 = mark_bit(b, p, 7);
    let t8 = mark_bit(b, p, 8);
    let o = p.opposite_spec();
    let u0 = mark_bit(b, o, 0);
    let u1 = mark_bit(b, o, 1);
    let u2 = mark_bit(b, o, 2);
    let u3 = mark_bit(b, o, 3);
    let u4 = mark_bit(b, o, 4);
    let u5 = mark_bit(b, o, 5);
    let u6 = mark_bit(b, o, 6);
    let u7 = mark_bit(b, o, 7);
    let u8 = mark_bit(b, o, 8);
    reveal_with_fuel(bits_upto, 10);
    assert(mine == t0 + 2 * t1 + 4 * t2 + 8 * t3 + 16 * t4 + 32 * t5 + 64 * t6 + 128 * t7 + 256
        * t8);
    assert(theirs == u0 + 2 * u1 + 4 * u2 + 8 * u3 + 16 * u4 + 32 * u5 + 64 * u6 + 128 * u7 + 256
        * u8);
    assert((((0b110_000_000u16 & mine) == 0b110_000_000u16) <==> (t8 == 1 && t7 == 1))
        && (((0b011_000_000u16 & mine) == 0b011_000_000u16) <==> (t7 == 1 && t6 == 1))
        && (((0b101_000_000u16 & mine) == 0b101_000_000u16) <==> (t8 == 1 && t6 == 1))
        && (((0b000_011_000u16 & mine) == 0b000_011_000u16) <==> (t4 == 1 && t3 == 1))
        && (((0b000_110_000u16 & mine) == 0b000_110_000u16) <==> (t5 == 1 && t4 == 1))
        && (((0b000_101_000u16 & mine) == 0b000_101_000u16) <==> (t5 == 1 && t3 == 1))
        && (((0b000_000_110u16 & mine) == 0b000_000_110u16) <==> (t2 == 1 && t1 == 1))
        && (((0b000_000_011u16 & mine) == 0b000_000_011u16) <==> (t1 == 1 && t0 == 1))
        && (((0b000_000_101u16 & mine) == 0b000_000_101u16) <==> (t2 == 1 && t0 == 1))
        && (((0b100_100_000u16 & mine) == 0b100_100_000u16) <==> (t8 == 1 && t5 == 1))
        && (((0b000_100_100u16 & mine) == 0b000_100_100u16) <==> (t5 == 1 && t2 == 1))
        && (((0b100_000_100u16 & mine) == 0b100_000_100u16) <==> (t8 == 1 && t2 == 1)))
        by (bit_vector)
        requires
            mine == t0 + 2 * t1 + 4 * t2 + 8 * t3 + 16 * t4 + 32 * t5 + 64 * t6 + 128 * t7 + 256
                * t8,
            t0 <= 1,
            t1 <= 1,
            t2 <= 1,
            t3 <= 1,
            t4 <= 1,
            t5 <= 1,
            t6 <= 1,
            t7 <= 1,
            t8 <= 1,
    ;
    assert((((0b000_010_010u16 & mine) == 0b000_010_010u16) <==> (t4 == 1 && t1 == 1))
        && (((0b010_000_010u16 & mine) == 0b010_000_010u16) <==> (t7 == 1 && t1 == 1))
        && (((0b010_010_000u16 & mine) == 0b010_010_000u16) <==> (t7 == 1 && t4 == 1))
        && (((0b000_001_001u16 & mine) == 0b000_001_001u16) <==> (t3 == 1 && t0 == 1))
        && (((0b001_000_001u16 & mine) == 0b001_000_001u16) <==> (t6 == 1 && t0 == 1))
        && (((0b001_001_000u16 & mine) == 0b001_001_000u16) <==> (t6 == 1 && t3 == 1))
        && (((0b000_010_001u16 & mine) == 0b000_010_001u16) <==> (t4 == 1 && t0 == 1))
        && (((0b100_000_001u16 & mine) == 0b100_000_001u16) <==> (t8 == 1 && t0 == 1))
        && (((0b100_010_000u16 & mine) == 0b100_010_000u16) <==> (t8 == 1 && t4 == 1))
        && (((0b001_010_000u16 & mine) == 0b001_010_000u16) <==> (t6 == 1 && t4 == 1))
        && (((0b001_000_100u16 & mine) == 0b001_000_100u16) <==> (t6 == 1 && t2 == 1))
        && (((0b000_010_100u16 & mine) == 0b000_010_100u16) <==> (t4 == 1 && t2 == 1)))
        by (bit_vector)
        requires
            mine == t0 + 2 * t1 + 4 * t2 + 8 * t3 + 16 * t4 + 32 * t5 + 64 * t6 + 128 * t7 + 256
                * t8,
            t0 <= 1,
            t1 <= 1,
            t2 <= 1,
            t3 <= 1,
            t4 <= 1,
            t5 <= 1,
            t6 <= 1,
            t7 <= 1,
            t8 <= 1,
    ;
    assert((((0b000_000_001u16 & theirs) == 0b000_000_001u16) <==> u0 == 1)
        && (((0b000_000_010u16 & theirs) == 0b000_000_010u16) <==> u1 == 1)
        && (((0b000_000_100u16 & theirs) == 0b000_000_100u16) <==> u2 == 1)
        && (((0b000_001_000u16 & theirs) == 0b000_001_000u16) <==> u3 == 1)
        && (((0b000_010_000u16 & theirs) == 0b000_010_000u16) <==> u4 == 1)
        && (((0b000_100_000u16 & theirs) == 0b000_100_000u16) <==> u5 == 1)
        && (((0b001_000_000u16 & theirs) == 0b001_000_000u16) <==> u6 == 1)
        && (((0b010_000_000u16 & theirs) == 0b010_000_000u16) <==> u7 == 1)
        && (((0b100_000_000u16 & theirs) == 0b100_000_000u16) <==> u8 == 1)) by (bit_vector)
        requires
            theirs == u0 + 2 * u1 + 4 * u2 + 8 * u3 + 16 * u4 + 32 * u5 + 64 * u6 + 128 * u7 + 256
                * u8,
            u0 <= 1,
            u1 <= 1,
            u2 <= 1,
            u3 <= 1,
            u4 <= 1,
            u5 <= 1,
            u6 <= 1,
            u7 <= 1,
            u8 <= 1,
    ;
}

/// Relates each winning-line mask test on a player's 9-bit mask to the three
/// cells of that line.
#[verifier::rlimit(100)]
pub proof fn lemma_player_bits_lines(b: Seq<CellState>, p: CellState, x: u16)
    requires
        x as int == player_bits(b, p),
    ensures
        forall|l: int|
            0 <= l < 8 ==> (((line_mask(l) & x) == line_mask(l)) <==> line_won(b, p, l)),
{
    let t0 = mark_bit(b, p, 0);
    let t1 = mark_bit(b, p, 1);
    let t2 = mark_bit(b, p, 2);
    let t3 = mark_bit(b, p, 3);
    let t4 = mark_bit(b, p, 4);
    let t5 = mark_bit(b, p, 5);
    let t6 = mark_bit(b, p, 6);
    let t7 = mark_bit(b, p, 7);
    let t8 = mark_bit(b, p, 8);
    reveal_with_fuel(bits_upto, 10);
    assert(x == t0 + 2 * t1 + 4 * t2 + 8 * t3 + 16 * t4 + 32 * t5 + 64 * t6 + 128 * t7 + 256 * t8);
    assert((((0b111_000_000u16 & x) == 0b111_000_000u16) <==> (t6 == 1 && t7 == 1 && t8 == 1))
        && (((0b000_111_000u16 & x) == 0b000_111_000u16) <==> (t3 == 1 && t4 == 1 && t5 == 1))
        && (((0b000_000_111u16 & x) == 0b000_000_111u16) <==> (t0 == 1 && t1 == 1 && t2 == 1))
        && (((0b100_100_100u16 & x) == 0b100_100_100u16) <==> (t2 == 1 && t5 == 1 && t8 == 1))
        && (((0b010_010_010u16 & x) == 0b010_010_010u16) <==> (t1 == 1 && t4 == 1 && t7 == 1))
        && (((0b001_001_001u16 & x) == 0b001_001_001u16) <==> (t0 == 1 && t3 == 1 && t6 == 1))
        && (((0b100_010_001u16 & x) == 0b100_010_001u16) <==> (t0 == 1 && t4 == 1 && t8 == 1))
        && (((0b001_010_100u16 & x) == 0b001_010_100u16) <==> (t2 == 1 && t4 == 1 && t6 == 1)))
        by (bit_vector)
        requires
            x == t0 + 2 * t1 + 4 * t2 + 8 * t3 + 16 * t4 + 32 * t5 + 64 * t6 + 128 * t7 + 256 * t8,
            t0 <= 1,
            t1 <= 1,
            t2 <= 1,
            t3 <= 1,
            t4 <= 1,
            t5 <= 1,
            t6 <= 1,
            t7 <= 1,
            t8 <= 1,
    ;
}

} // verus!
