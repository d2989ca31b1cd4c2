//! Connect Four: seven columns, eight rows, discs drop to the lowest free row.
use vstd::array::*;
use vstd::prelude::*;

use crate::shared::{count_eq, lemma_count_update, Game, GameResult, PlayerId, MAX_MOVES};

verus! {

/// What stands in one cell.
#[derive(Debug, Copy, Clone, PartialEq, Eq, Structural)]
pub enum Connect4State {
    Empty,
    First,
    Second,
}

pub open spec fn disc_of(p: PlayerId) -> Connect4State {
    match p {
        PlayerId::First => Connect4State::First,
        PlayerId::Second => Connect4State::Second,
    }
}

fn to_state(p: PlayerId) -> (r: Connect4State)
    ensures
        r == disc_of(p),
{
    match p {
        PlayerId::First => Connect4State::First,
        PlayerId::Second => Connect4State::Second,
    }
}

/// A drop into a column.
#[derive(Debug, Clone, Copy, PartialEq, Eq, Hash, Structural)]
pub struct Connect4Move {
    pub column: usize,
}

/// A Connect Four position: cell `(row, col)` is `board[7 * row + col]`, row 0 at the
/// bottom.
#[derive(Debug, Clone, Copy)]
pub struct Connect4 {
    pub board: [Connect4State; 56],
    pub playing: PlayerId,
}

/// The lowest empty row of column `c` from row `r` up, or 8 when there is none.
pub open spec fn drop_row(b: Seq<Connect4State>, c: int, r: int) -> int
    decreases 8 - r,
{
    if r >= 8 || r < 0 {
        8
    } else if cell(b, r, c) == Connect4State::Empty {
        r
    } else {
        drop_row(b, c, r + 1)
    }
}

/// Window `w` of four cells that can make a line: its first cell `(row, col)` and
/// its step `(drow, dcol)`. Rows come first, then columns, then the diagonals going
/// up-left, then those going up-right.
pub open spec fn window(w: int) -> (int, int, int, int) {
    if w < 32 {
        (w / 4, w % 4, 0, 1)
    } else if w < 67 {
        ((w - 32) % 5, (w - 32) / 5, 1, 0)
    } else if w < 87 {
        ((w - 67) / 4, 3 + (w - 67) % 4, 1, -1)
    } else {
        ((w - 87) / 4, (w - 87) % 4, 1, 1)
    }
}

/// The number of windows.
pub const WINDOWS: usize = 107;

pub open spec fn cell(b: Seq<Connect4State>, r: int, c: int) -> Connect4State {
    b[7 * r + c]
}

/// The side owning all four cells of window `w`, if one does.
pub open spec fn window_owner(b: Seq<Connect4State>, w: int) -> Option<PlayerId> {
    let (r, c, dr, dc) = window(w);
    let a = cell(b, r, c);
    if a != Connect4State::Empty && a == cell(b, r + dr, c + dc) && a == cell(b, r + 2 * dr, c + 2 * dc)
        && a == cell(b, r + 3 * dr, c + 3 * dc) {
        if a == Connect4State::First {
            Some(PlayerId::First)
        } else {
            Some(PlayerId::Second)
        }
    } else {
        None
    }
}

/// The owner of the first owned window from `w` on.
pub open spec fn winner_from(b: Seq<Connect4State>, w: int) -> Option<PlayerId>
    decreases 107 - w,
{
    if w >= 107 || w < 0 {
        None
    } else if window_owner(b, w) is Some {
        window_owner(b, w)
    } else {
        winner_from(b, w + 1)
    }
}

/// The drops into columns below `k` whose top cell is free.
pub open spec fn open_columns(b: Seq<Connect4State>, k: int) -> Seq<Connect4Move>
    decreases k,
{
    if k <= 0 {
        Seq::empty()
    } else if cell(b, 7, k - 1) == Connect4State::Empty {
        open_columns(b, k - 1).push(Connect4Move { column: (k - 1) as usize })
    } else {
        open_columns(b, k - 1)
    }
}

/// A listed drop goes into a column below `k` whose top cell is free.
proof fn lemma_open_column(b: Seq<Connect4State>, k: int, m: Connect4Move)
    requires
        k <= 7,
        open_columns(b, k).contains(m),
    ensures
        0 <= m.column < k,
        cell(b, 7, m.column as int) == Connect4State::Empty,
    decreases k,
{
    if k > 0 {
        let prev = open_columns(b, k - 1);
        if cell(b, 7, k - 1) == Connect4State::Empty {
            let last = Connect4Move { column: (k - 1) as usize };
            assert(open_columns(b, k) == prev.push(last));
            if m != last {
                let j = choose|j: int| 0 <= j < open_columns(b, k).len() && open_columns(b, k)[j] == m;
                assert(prev[j] == m);
                lemma_open_column(b, k - 1, m);
            }
        } else {
            lemma_open_column(b, k - 1, m);
        }
    }
}

/// In a column whose top cell is free, the drop lands on a free cell.
proof fn lemma_drop_row(b: Seq<Connect4State>, c: int, r: int)
    requires
        0 <= r <= 7,
        cell(b, 7, c) == Connect4State::Empty,
    ensures
        r <= drop_row(b, c, r) <= 7,
        cell(b, drop_row(b, c, r), c) == Connect4State::Empty,
    decreases 8 - r,
{
    if r < 7 && cell(b, r, c) != Connect4State::Empty {
        lemma_drop_row(b, c, r + 1);
    }
}

/// Entry `i` of the evaluator encoding: planes for the first side's discs, for the
/// second side's, and for the side to move.
pub open spec fn encoding_at(g: Connect4, i: int) -> u8 {
    let c = g.board@[i % 56];
    if i < 56 {
        if c == Connect4State::First { 1 } else { 0 }
    } else if i < 112 {
        if c == Connect4State::Second { 1 } else { 0 }
    } else {
        if g.playing == PlayerId::First { 1 } else { 0 }
    }
}

fn window_at(w: usize) -> (r: (usize, usize, usize, usize, usize, usize, usize, usize))
    requires
        w < 107,
    ensures
        ({
            let (wr, wc, dr, dc) = window(w as int);
            &&& r.0 == wr && r.1 == wc
            &&& r.2 == wr + dr && r.3 == wc + dc
            &&& r.4 == wr + 2 * dr && r.5 == wc + 2 * dc
            &&& r.6 == wr + 3 * dr && r.7 == wc + 3 * dc
        }),
        r.0 < 8 && r.2 < 8 && r.4 < 8 && r.6 < 8,
        r.1 < 7 && r.3 < 7 && r.5 < 7 && r.7 < 7,
{
    if w < 32 {
        let (r, c) = (w / 4, w % 4);
        (r, c, r, c + 1, r, c + 2, r, c + 3)
    } else if w < 67 {
        let (r, c) = ((w - 32) % 5, (w - 32) / 5);
        (r, c, r + 1, c, r + 2, c, r + 3, c)
    } else if w < 87 {
        let (r, c) = ((w - 67) / 4, 3 + (w - 67) % 4);
        (r, c, r + 1, c - 1, r + 2, c - 2, r + 3, c - 3)
    } else {
        let (r, c) = ((w - 87) / 4, (w - 87) % 4);
        (r, c, r + 1, c + 1, r + 2, c + 2, r + 3, c + 3)
    }
}

impl Connect4 {
    pub open spec fn winner(&self) -> Option<PlayerId> {
        winner_from(self.board@, 0)
    }

    /// The owner of the first line of four, checking rows, then columns, then the
    /// diagonals.
    fn check_lines(&self) -> (r: Option<PlayerId>)
        ensures
            r == self.winner(),
    {
        let mut w: usize = 0;
        while w < WINDOWS
            invariant
                w <= 107,
                winner_from(self.board@, 0) == winner_from(self.board@, w as int),
            decreases 107 - w,
        {
            let (r0, c0, r1, c1, r2, c2, r3, c3) = window_at(w);
            let a = self.board[7 * r0 + c0];
            if a != Connect4State::Empty && a == self.board[7 * r1 + c1] && a == self.board[7 * r2 + c2]
                && a == self.board[7 * r3 + c3] {
                if a == Connect4State::First {
                    return Some(PlayerId::First);
                } else {
                    return Some(PlayerId::Second);
                }
            }
            w = w + 1;
        }
        None
    }

    pub open spec fn spec_result(&self) -> Option<GameResult> {
        match self.winner() {
            Some(p) => Some(GameResult::Winner(p)),
            None => if self.legal().len() == 0 {
                Some(GameResult::Tie)
            } else {
                None
            },
        }
    }

    pub fn get_board(&self) -> (r: [Connect4State; 56])
        ensures
            r == self.board,
    {
        self.board
    }
}

impl Game for Connect4 {
    type Move = Connect4Move;

    open spec fn legal(&self) -> Seq<Connect4Move> {
        open_columns(self.board@, 7)
    }

    open spec fn after(&self, m: Connect4Move) -> Connect4 {
        let h = if m.column < 7 {
            drop_row(self.board@, m.column as int, 0)
        } else {
            8
        };
        if h < 8 {
            Connect4 {
                board: spec_array_update(self.board, 7 * h + m.column, disc_of(self.playing)),
                playing: self.playing.spec_other(),
            }
        } else {
            Connect4 { board: self.board, playing: self.playing.spec_other() }
        }
    }

    open spec fn over(&self) -> bool {
        self.spec_result() is Some
    }

    open spec fn mover(&self) -> PlayerId {
        self.playing
    }

    open spec fn move_count() -> nat {
        7
    }

    open spec fn index_of(m: Connect4Move) -> nat {
        if m.column < 7 {
            m.column as nat
        } else {
            7
        }
    }

    open spec fn initial() -> Connect4 {
        Connect4 {
            board: spec_array_fill_for_copy_type(Connect4State::Empty),
            playing: PlayerId::First,
        }
    }

    open spec fn remaining(&self) -> nat {
        count_eq(self.board@, Connect4State::Empty, 56)
    }

    proof fn lemma_move_progress(&self, m: Connect4Move) {
        let b = self.board@;
        lemma_open_column(b, 7, m);
        lemma_drop_row(b, m.column as int, 0);
        let h = drop_row(b, m.column as int, 0);
        let disc = disc_of(self.playing);
        assert(self.after(m).board@ == b.update(7 * h + m.column, disc));
        lemma_count_update(b, Connect4State::Empty, 7 * h + m.column, disc, 56);
    }

    proof fn lemma_over_has_outcome(&self) {
    }

    open spec fn encoded(&self) -> Seq<u8> {
        Seq::new(168, |i: int| encoding_at(*self, i))
    }

    fn new() -> Connect4 {
        Connect4 { board: [Connect4State::Empty; 56], playing: PlayerId::First }
    }

    fn legal_moves(&self) -> (r: Vec<Connect4Move>) {
        let mut moves: Vec<Connect4Move> = Vec::new();
        let mut col: usize = 0;
        while col < 7
            invariant
                col <= 7,
                moves@ == open_columns(self.board@, col as int),
                moves@.len() <= col,
                moves@.no_duplicates(),
            decreases 7 - col,
        {
            if self.board[49 + col] == Connect4State::Empty {
                let m = Connect4Move { column: col };
                proof {
                    if moves@.contains(m) {
                        lemma_open_column(self.board@, col as int, m);
                    }
                }
                moves.push(m);
            }
            col = col + 1;
        }
        moves
    }

    fn make_move(&mut self, m: Connect4Move) {
        let col = m.column;
        if col < 7 {
            let mut row: usize = 0;
            while row < 8 && self.board[7 * row + col] != Connect4State::Empty
                invariant
                    col < 7,
                    row <= 8,
                    self.board == old(self).board,
                    drop_row(self.board@, col as int, 0) == drop_row(self.board@, col as int, row as int),
                decreases 8 - row,
            {
                row = row + 1;
            }
            if row < 8 {
                let disc = to_state(self.playing);
                self.board[7 * row + col] = disc;
            }
        }
        self.playing = self.playing.other();
    }

    fn is_over(&self) -> (r: bool) {
        self.get_result().is_some()
    }

    open spec fn outcome(&self) -> Option<GameResult> {
        self.spec_result()
    }

    fn get_result(&self) -> (r: Option<GameResult>) {
        match self.check_lines() {
            Some(p) => Some(GameResult::Winner(p)),
            None => {
                let moves = self.legal_moves();
                if moves.len() == 0 {
                    Some(GameResult::Tie)
                } else {
                    None
                }
            },
        }
    }

    fn current_player(&self) -> (r: PlayerId) {
        self.playing
    }

    fn total_moves() -> (r: usize) {
        7
    }

    fn move_index(m: Connect4Move) -> (r: usize) {
        if m.column < 7 {
            m.column
        } else {
            7
        }
    }

    fn same_state(&self, other: &Connect4) -> (r: bool) {
        let mut i: usize = 0;
        while i < 56
            invariant
                i <= 56,
                forall|j: int| 0 <= j < i ==> self.board@[j] == other.board@[j],
            decreases 56 - i,
        {
            if self.board[i] != other.board[i] {
                return false;
            }
            i = i + 1;
        }
        proof {
            assert(self.board =~= other.board);
        }
        self.playing == other.playing
    }

    fn to_nn_input(&self) -> (r: Vec<u8>) {
        let mut out: Vec<u8> = Vec::new();
        let mut i: usize = 0;
        while i < 168
            invariant
                i <= 168,
                out@.len() == i,
                forall|j: int| 0 <= j < i ==> out@[j] == encoding_at(*self, j),
            decreases 168 - i,
        {
            let c = self.board[i % 56];
            let bit: u8 = if i < 56 {
                if c == Connect4State::First { 1 } else { 0 }
            } else if i < 112 {
                if c == Connect4State::Second { 1 } else { 0 }
            } else {
                if self.playing == PlayerId::First { 1 } else { 0 }
            };
            out.push(bit);
            i = i + 1;
        }
        assert(out@ =~= self.encoded());
        out
    }

    fn all_possible_moves() -> (r: Vec<Connect4Move>) {
        let mut moves: Vec<Connect4Move> = Vec::new();
        let mut i: usize = 0;
        while i < 7
            invariant
                i <= 7,
                moves@.len() == i,
                forall|j: int| 0 <= j < i ==> Self::index_of(#[trigger] moves@[j]) == j,
            decreases 7 - i,
        {
            moves.push(Connect4Move { column: i });
            i = i + 1;
        }
        moves
    }
}

} // verus!
