//! Tic-Tac-Toe on a 3x3 board.
use vstd::prelude::*;
use vstd::array::*;

use crate::shared::{count_eq, lemma_count_update, Game, GameResult, PlayerId, MAX_MOVES};

verus! {

/// What stands on one cell.
#[derive(Debug, Copy, Clone, PartialEq, Eq, Structural)]
pub enum TTTState {
    Empty,
    X,
    O,
}

/// The mark a side puts down: `X` for the first side, `O` for the second.
pub open spec fn mark_of(p: PlayerId) -> TTTState {
    match p {
        PlayerId::First => TTTState::X,
        PlayerId::Second => TTTState::O,
    }
}

fn to_state(p: PlayerId) -> (r: TTTState)
    ensures
        r == mark_of(p),
{
    match p {
        PlayerId::First => TTTState::X,
        PlayerId::Second => TTTState::O,
    }
}

/// A cell to play, by column `x` and row `y`, both below 3.
#[derive(Debug, Clone, Copy, PartialEq, Eq, Hash)]
pub struct TTTMove {
    x: usize,
    y: usize,
}

impl TTTMove {
    #[verifier::type_invariant]
    spec fn inv(self) -> bool {
        self.x < 3 && self.y < 3
    }

    pub closed spec fn col(self) -> nat {
        self.x as nat
    }

    pub closed spec fn row(self) -> nat {
        self.y as nat
    }

    pub fn new(x: usize, y: usize) -> (r: TTTMove)
        requires
            x < 3,
            y < 3,
        ensures
            r.col() == x,
            r.row() == y,
    {
        TTTMove { x, y }
    }

    pub fn x(&self) -> (r: usize)
        ensures
            r == self.col(),
            r < 3,
    {
        proof {
            use_type_invariant(self);
        }
        self.x
    }

    pub fn y(&self) -> (r: usize)
        ensures
            r == self.row(),
            r < 3,
    {
        proof {
            use_type_invariant(self);
        }
        self.y
    }

    /// The move onto board cell `c` (`c = 3 * x + y`).
    pub closed spec fn at_cell(c: int) -> TTTMove {
        TTTMove { x: (c / 3) as usize, y: (c % 3) as usize }
    }

    /// The cell this move fills, as an index into the board (`3 * x + y`).
    pub open spec fn cell(self) -> int {
        (3 * self.col() + self.row()) as int
    }
}

/// A Tic-Tac-Toe position: cell `(x, y)` is `board[3 * x + y]`.
#[derive(Debug, Clone, Copy)]
pub struct TicTacToe {
    pub board: [TTTState; 9],
    pub playing: PlayerId,
}

/// The three cells of line `k`: rows first, then columns, then the two diagonals.
pub open spec fn line(k: int) -> (int, int, int) {
    if k < 3 {
        (3 * k, 3 * k + 1, 3 * k + 2)
    } else if k < 6 {
        (k - 3, k, k + 3)
    } else if k == 6 {
        (0, 4, 8)
    } else {
        (2, 4, 6)
    }
}

fn line_cells(k: usize) -> (r: (usize, usize, usize))
    requires
        k < 8,
    ensures
        r.0 == line(k as int).0,
        r.1 == line(k as int).1,
        r.2 == line(k as int).2,
        r.0 < 9 && r.1 < 9 && r.2 < 9,
{
    if k < 3 {
        (3 * k, 3 * k + 1, 3 * k + 2)
    } else if k < 6 {
        (k - 3, k, k + 3)
    } else if k == 6 {
        (0, 4, 8)
    } else {
        (2, 4, 6)
    }
}

/// The side owning the first complete line, checking lines `k` and later.
pub open spec fn winner_from(b: Seq<TTTState>, k: int) -> Option<PlayerId>
    decreases 8 - k,
{
    if k >= 8 || k < 0 {
        None
    } else {
        let (a, c, d) = line(k);
        if b[a] != TTTState::Empty && b[a] == b[c] && b[a] == b[d] {
            if b[a] == TTTState::X {
                Some(PlayerId::First)
            } else {
                Some(PlayerId::Second)
            }
        } else {
            winner_from(b, k + 1)
        }
    }
}

/// The moves onto empty cells among the first `k` cells, in cell order.
pub open spec fn empties_upto(b: Seq<TTTState>, k: int) -> Seq<TTTMove>
    decreases k,
{
    if k <= 0 {
        Seq::empty()
    } else if b[k - 1] == TTTState::Empty {
        empties_upto(b, k - 1).push(TTTMove::at_cell(k - 1))
    } else {
        empties_upto(b, k - 1)
    }
}

/// A move listed among the first `k` cells fills an empty cell below `k`.
proof fn lemma_empties_open(b: Seq<TTTState>, k: int, m: TTTMove)
    requires
        k <= 9,
        empties_upto(b, k).contains(m),
    ensures
        0 <= m.cell() < k,
        b[m.cell()] == TTTState::Empty,
    decreases k,
{
    if k > 0 {
        let prev = empties_upto(b, k - 1);
        if b[k - 1] == TTTState::Empty {
            let last = TTTMove::at_cell(k - 1);
            assert(empties_upto(b, k) == prev.push(last));
            if m == last {
                assert(((k - 1) / 3) * 3 + (k - 1) % 3 == k - 1);
                assert(m.col() == (k - 1) / 3 && m.row() == (k - 1) % 3);
            } else {
                let j = choose|j: int| 0 <= j < empties_upto(b, k).len() && empties_upto(b, k)[j] == m;
                assert(prev[j] == m);
                lemma_empties_open(b, k - 1, m);
            }
        } else {
            lemma_empties_open(b, k - 1, m);
        }
    }
}

/// Entry `i` of the evaluator encoding: planes for `X`, for `O`, and for the side to move.
pub open spec fn encoding_at(g: TicTacToe, i: int) -> u8 {
    let cell = g.board@[i % 9];
    if i < 9 {
        if cell == TTTState::X { 1 } else { 0 }
    } else if i < 18 {
        if cell == TTTState::O { 1 } else { 0 }
    } else {
        if g.playing == PlayerId::First { 1 } else { 0 }
    }
}

impl TicTacToe {
    pub open spec fn winner(&self) -> Option<PlayerId> {
        winner_from(self.board@, 0)
    }

    fn check_winner(&self) -> (r: Option<PlayerId>)
        ensures
            r == self.winner(),
    {
        let mut k: usize = 0;
        while k < 8
            invariant
                k <= 8,
                winner_from(self.board@, 0) == winner_from(self.board@, k as int),
            decreases 8 - k,
        {
            let (a, c, d) = line_cells(k);
            let ca = self.board[a];
            if ca != TTTState::Empty && ca == self.board[c] && ca == self.board[d] {
                if ca == TTTState::X {
                    return Some(PlayerId::First);
                } else {
                    return Some(PlayerId::Second);
                }
            }
            k = k + 1;
        }
        None
    }

    pub open spec fn spec_result(&self) -> Option<GameResult> {
        match self.winner() {
            Some(p) => Some(GameResult::Winner(p)),
            None => if self.legal().len() == 0 {
                Some(GameResult::Tie)
            } else {
                None
            },
        }
    }

    pub fn get_board(&self) -> (r: [TTTState; 9])
        ensures
            r == self.board,
    {
        self.board
    }
}

impl Game for TicTacToe {
    type Move = TTTMove;

    open spec fn legal(&self) -> Seq<TTTMove> {
        empties_upto(self.board@, 9)
    }

    open spec fn after(&self, m: TTTMove) -> TicTacToe {
        TicTacToe {
            board: spec_array_update(self.board, m.cell(), mark_of(self.playing)),
            playing: self.playing.spec_other(),
        }
    }

    open spec fn over(&self) -> bool {
        self.winner().is_some() || self.legal().len() == 0
    }

    open spec fn mover(&self) -> PlayerId {
        self.playing
    }

    open spec fn move_count() -> nat {
        9
    }

    open spec fn index_of(m: TTTMove) -> nat {
        m.col() + 3 * m.row()
    }

    open spec fn initial() -> TicTacToe {
        TicTacToe { board: spec_array_fill_for_copy_type(TTTState::Empty), playing: PlayerId::First }
    }

    open spec fn remaining(&self) -> nat {
        count_eq(self.board@, TTTState::Empty, 9)
    }

    proof fn lemma_move_progress(&self, m: TTTMove) {
        lemma_empties_open(self.board@, 9, m);
        let mark = mark_of(self.playing);
        assert(self.after(m).board@ == self.board@.update(m.cell(), mark));
        lemma_count_update(self.board@, TTTState::Empty, m.cell(), mark, 9);
    }

    proof fn lemma_over_has_outcome(&self) {
    }

    open spec fn encoded(&self) -> Seq<u8> {
        Seq::new(27, |i: int| encoding_at(*self, i))
    }

    fn new() -> TicTacToe {
        TicTacToe { board: [TTTState::Empty; 9], playing: PlayerId::First }
    }

    fn legal_moves(&self) -> (r: Vec<TTTMove>) {
        let mut moves: Vec<TTTMove> = Vec::new();
        let mut i: usize = 0;
        while i < 9
            invariant
                i <= 9,
                moves@ == empties_upto(self.board@, i as int),
                moves@.len() <= i,
                moves@.no_duplicates(),
            decreases 9 - i,
        {
            if self.board[i] == TTTState::Empty {
                let m = TTTMove { x: i / 3, y: i % 3 };
                proof {
                    if moves@.contains(m) {
                        lemma_empties_open(self.board@, i as int, m);
                        assert(3 * (i / 3) + i % 3 == i);
                    }
                }
                moves.push(m);
            }
            i = i + 1;
        }
        moves
    }

    fn make_move(&mut self, m: TTTMove) {
        proof {
            use_type_invariant(&m);
        }
        let cell = 3 * m.x + m.y;
        let mark = to_state(self.playing);
        self.board[cell] = mark;
        self.playing = self.playing.other();
    }

    fn is_over(&self) -> (r: bool) {
        if self.check_winner().is_some() {
            return true;
        }
        let moves = self.legal_moves();
        moves.len() == 0
    }

    open spec fn outcome(&self) -> Option<GameResult> {
        self.spec_result()
    }

    fn get_result(&self) -> (r: Option<GameResult>) {
        match self.check_winner() {
            Some(p) => Some(GameResult::Winner(p)),
            None => {
                let moves = self.legal_moves();
                if moves.len() == 0 {
                    Some(GameResult::Tie)
                } else {
                    None
                }
            },
        }
    }

    fn current_player(&self) -> (r: PlayerId) {
        self.playing
    }

    fn total_moves() -> (r: usize) {
        9
    }

    fn move_index(m: TTTMove) -> (r: usize) {
        proof {
            use_type_invariant(&m);
        }
        m.x + 3 * m.y
    }

    fn same_state(&self, other: &TicTacToe) -> (r: bool) {
        let mut i: usize = 0;
        while i < 9
            invariant
                i <= 9,
                forall|j: int| 0 <= j < i ==> self.board@[j] == other.board@[j],
            decreases 9 - i,
        {
            if self.board[i] != other.board[i] {
                return false;
            }
            i = i + 1;
        }
        proof {
            assert(self.board =~= other.board);
        }
        self.playing == other.playing
    }

    fn to_nn_input(&self) -> (r: Vec<u8>) {
        let mut out: Vec<u8> = Vec::new();
        let mut i: usize = 0;
        while i < 27
            invariant
                i <= 27,
                out@.len() == i,
                forall|j: int| 0 <= j < i ==> out@[j] == encoding_at(*self, j),
            decreases 27 - i,
        {
            let cell = self.board[i % 9];
            let bit: u8 = if i < 9 {
                if cell == TTTState::X { 1 } else { 0 }
            } else if i < 18 {
                if cell == TTTState::O { 1 } else { 0 }
            } else {
                if self.playing == PlayerId::First { 1 } else { 0 }
            };
            out.push(bit);
            i = i + 1;
        }
        assert(out@ =~= self.encoded());
        out
    }

    fn all_possible_moves() -> (r: Vec<TTTMove>) {
        let mut moves: Vec<TTTMove> = Vec::new();
        let mut i: usize = 0;
        while i < 9
            invariant
                i <= 9,
                moves@.len() == i,
                forall|j: int| 0 <= j < i ==> Self::index_of(#[trigger] moves@[j]) == j,
            decreases 9 - i,
        {
            moves.push(TTTMove { x: i % 3, y: i / 3 });
            i = i + 1;
        }
        moves
    }
}

} // verus!
