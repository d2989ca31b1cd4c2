//! Othello on an 8x8 board.
use vstd::array::*;
use vstd::prelude::*;

use crate::shared::{count_eq, lemma_count_shrinks, Game, GameResult, PlayerId, MAX_MOVES};

verus! {

/// What stands on one square.
#[derive(Debug, Copy, Clone, PartialEq, Eq, Structural)]
pub enum OthelloState {
    Empty,
    White,
    Black,
}

/// The color of a side: black for the first side, white for the second.
pub open spec fn color_of(p: PlayerId) -> OthelloState {
    match p {
        PlayerId::Second => OthelloState::White,
        PlayerId::First => OthelloState::Black,
    }
}

fn to_color(p: PlayerId) -> (r: OthelloState)
    ensures
        r == color_of(p),
{
    match p {
        PlayerId::Second => OthelloState::White,
        PlayerId::First => OthelloState::Black,
    }
}

/// A move: passing, or a disc on column `x` and row `y`.
#[derive(Debug, Clone, Copy, PartialEq, Eq, Hash, Structural)]
pub enum OthelloMove {
    Pass,
    Move(usize, usize),
}

impl OthelloMove {
    pub open spec fn spec_is_corner(self) -> bool {
        match self {
            OthelloMove::Pass => false,
            OthelloMove::Move(x, y) => (x == 0 || x == 7) && (y == 0 || y == 7),
        }
    }

    pub open spec fn spec_is_edge(self) -> bool {
        match self {
            OthelloMove::Pass => false,
            OthelloMove::Move(x, y) => x == 0 || x == 7 || y == 0 || y == 7,
        }
    }

    pub fn is_corner(&self) -> (r: bool)
        ensures
            r == self.spec_is_corner(),
    {
        match self {
            OthelloMove::Pass => false,
            OthelloMove::Move(x, y) => (*x == 0 || *x == 7) && (*y == 0 || *y == 7),
        }
    }

    pub fn is_edge(&self) -> (r: bool)
        ensures
            r == self.spec_is_edge(),
    {
        match self {
            OthelloMove::Pass => false,
            OthelloMove::Move(x, y) => *x == 0 || *x == 7 || *y == 0 || *y == 7,
        }
    }

    pub fn new(x: usize, y: usize) -> (r: OthelloMove)
        ensures
            r == OthelloMove::Move(x, y),
    {
        OthelloMove::Move(x, y)
    }
}

/// An Othello position: square `(x, y)` is `board[8 * y + x]`.
#[derive(Debug, Clone, Copy)]
pub struct Othello {
    pub board: [OthelloState; 64],
    pub playing: PlayerId,
    pub last_was_pass: bool,
}

pub open spec fn on_board(x: int, y: int) -> bool {
    0 <= x < 8 && 0 <= y < 8
}

pub open spec fn at(b: Seq<OthelloState>, x: int, y: int) -> OthelloState {
    b[8 * y + x]
}

/// Coordinate `c` moved `j` steps in direction `d` (-1, 0 or 1).
pub open spec fn step(c: int, d: int, j: int) -> int {
    if d > 0 {
        c + j
    } else if d < 0 {
        c - j
    } else {
        c
    }
}

/// The first step, from `i` on, in direction `(dx, dy)` from `(x, y)` that does not
/// hold a disc of the side opposing `me` (8 once the edge is passed).
pub open spec fn run_end(
    b: Seq<OthelloState>,
    x: int,
    y: int,
    dx: int,
    dy: int,
    me: OthelloState,
    i: int,
) -> int
    decreases 8 - i,
{
    if i >= 8 {
        8
    } else {
        let cx = step(x, dx, i);
        let cy = step(y, dy, i);
        if on_board(cx, cy) && at(b, cx, cy) != OthelloState::Empty && at(b, cx, cy) != me {
            run_end(b, x, y, dx, dy, me, i + 1)
        } else {
            i
        }
    }
}

/// How many discs a disc of `me` at `(x, y)` turns in direction `(dx, dy)`.
pub open spec fn dir_count(b: Seq<OthelloState>, x: int, y: int, dx: int, dy: int, me: OthelloState) -> int {
    let s = run_end(b, x, y, dx, dy, me, 1);
    if s < 8 && on_board(step(x, dx, s), step(y, dy, s)) && at(b, step(x, dx, s), step(y, dy, s)) == me {
        s - 1
    } else {
        0
    }
}

/// The squares turned in direction `(dx, dy)`, nearest first.
pub open spec fn dir_flips(
    b: Seq<OthelloState>,
    x: int,
    y: int,
    dx: int,
    dy: int,
    me: OthelloState,
) -> Seq<OthelloMove> {
    Seq::new(
        dir_count(b, x, y, dx, dy, me) as nat,
        |d: int| OthelloMove::Move(step(x, dx, d + 1) as usize, step(y, dy, d + 1) as usize),
    )
}

/// The column step of direction `k`; directions go by `dx`, then `dy`, each from -1 to 1.
pub open spec fn dir_x(k: int) -> int {
    if k < 3 {
        -1
    } else if k < 5 {
        0
    } else {
        1
    }
}

pub open spec fn dir_y(k: int) -> int {
    if k == 0 || k == 3 || k == 5 {
        -1
    } else if k == 1 || k == 6 {
        0
    } else {
        1
    }
}

/// The squares turned in the first `k` directions.
pub open spec fn flips_upto(b: Seq<OthelloState>, x: int, y: int, me: OthelloState, k: int) -> Seq<OthelloMove>
    decreases k,
{
    if k <= 0 {
        Seq::empty()
    } else {
        flips_upto(b, x, y, me, k - 1) + dir_flips(b, x, y, dir_x(k - 1), dir_y(k - 1), me)
    }
}

/// The board with every square of `f` given to color `c`.
pub open spec fn apply_flips(b: [OthelloState; 64], f: Seq<OthelloMove>, c: OthelloState) -> [OthelloState; 64]
    decreases f.len(),
{
    if f.len() == 0 {
        b
    } else {
        let prev = apply_flips(b, f.drop_last(), c);
        match f.last() {
            OthelloMove::Move(fx, fy) => if fx < 8 && fy < 8 {
                spec_array_update(prev, 8 * fy + fx, c)
            } else {
                prev
            },
            OthelloMove::Pass => prev,
        }
    }
}

/// The board with square `(x, y)` given to color `c`.
pub open spec fn place(b: [OthelloState; 64], x: usize, y: usize, c: OthelloState) -> [OthelloState; 64] {
    if x < 8 && y < 8 {
        spec_array_update(b, 8 * y + x, c)
    } else {
        b
    }
}

/// Turning squares to a color never empties a square.
proof fn lemma_flips_fill(b: [OthelloState; 64], f: Seq<OthelloMove>, c: OthelloState)
    requires
        c != OthelloState::Empty,
    ensures
        forall|i: int| 0 <= i < 64 && (#[trigger] apply_flips(b, f, c)@[i]) == OthelloState::Empty ==> b@[i] == OthelloState::Empty,
    decreases f.len(),
{
    if f.len() > 0 {
        let prev = apply_flips(b, f.drop_last(), c);
        lemma_flips_fill(b, f.drop_last(), c);
        match f.last() {
            OthelloMove::Move(fx, fy) => {
                if fx < 8 && fy < 8 {
                    assert(apply_flips(b, f, c)@ == prev@.update(8 * fy + fx, c));
                }
            },
            OthelloMove::Pass => {},
        }
    }
}

/// Entry `i` of the evaluator encoding: planes for black, for white, and for the side
/// to move.
pub open spec fn encoding_at(g: Othello, i: int) -> u8 {
    let cell = g.board@[i % 64];
    if i < 64 {
        if cell == OthelloState::Black { 1 } else { 0 }
    } else if i < 128 {
        if cell == OthelloState::White { 1 } else { 0 }
    } else {
        if g.playing == PlayerId::First { 1 } else { 0 }
    }
}

/// How many of the first `k` squares hold color `c`.
pub open spec fn count_color(b: Seq<OthelloState>, c: OthelloState, k: int) -> nat
    decreases k,
{
    if k <= 0 {
        0
    } else {
        count_color(b, c, k - 1) + if b[k - 1] == c { 1nat } else { 0nat }
    }
}

impl Othello {
    /// The squares that `m` would turn for the side to move; empty for a pass, an
    /// occupied square or a square off the board.
    pub open spec fn spec_tiles_would_flip(&self, m: OthelloMove) -> Seq<OthelloMove> {
        match m {
            OthelloMove::Pass => Seq::empty(),
            OthelloMove::Move(x, y) => if x < 8 && y < 8 && at(self.board@, x as int, y as int)
                == OthelloState::Empty {
                flips_upto(self.board@, x as int, y as int, color_of(self.playing), 8)
            } else {
                Seq::empty()
            },
        }
    }

    /// The disc moves that turn something, among the first `k` squares in the order
    /// `8 * x + y`.
    pub open spec fn moves_upto(&self, k: int) -> Seq<OthelloMove>
        decreases k,
    {
        if k <= 0 {
            Seq::empty()
        } else {
            let m = OthelloMove::Move(((k - 1) / 8) as usize, ((k - 1) % 8) as usize);
            if self.spec_tiles_would_flip(m).len() > 0 {
                self.moves_upto(k - 1).push(m)
            } else {
                self.moves_upto(k - 1)
            }
        }
    }

    /// A listed disc move turns something.
    proof fn lemma_listed_moves_turn(&self, k: int, m: OthelloMove)
        requires
            k <= 64,
            self.moves_upto(k).contains(m),
        ensures
            m is Move,
            self.spec_tiles_would_flip(m).len() > 0,
            match m {
                OthelloMove::Move(x, y) => 8 * x + y < k,
                OthelloMove::Pass => false,
            },
        decreases k,
    {
        if k > 0 {
            let last = OthelloMove::Move(((k - 1) / 8) as usize, ((k - 1) % 8) as usize);
            let prev = self.moves_upto(k - 1);
            if self.spec_tiles_would_flip(last).len() > 0 {
                assert(self.moves_upto(k) == prev.push(last));
                assert(8 * ((k - 1) / 8) + (k - 1) % 8 == k - 1);
                if m != last {
                    let j = choose|j: int| 0 <= j < self.moves_upto(k).len() && self.moves_upto(k)[j] == m;
                    assert(prev[j] == m);
                    self.lemma_listed_moves_turn(k - 1, m);
                }
            } else {
                self.lemma_listed_moves_turn(k - 1, m);
            }
        }
    }

    fn step_coord(c: usize, d: i8, j: usize) -> (r: Option<usize>)
        requires
            c < 8,
            j <= 8,
        ensures
            r is Some <==> 0 <= step(c as int, d as int, j as int) < 8,
            r is Some ==> r->0 == step(c as int, d as int, j as int),
    {
        if d > 0 {
            if c + j < 8 {
                Some(c + j)
            } else {
                None
            }
        } else if d < 0 {
            if j <= c {
                Some(c - j)
            } else {
                None
            }
        } else {
            Some(c)
        }
    }

    /// The square `j` steps from `(x, y)` in direction `(dx, dy)`, if on the board.
    fn square_at(&self, x: usize, y: usize, dx: i8, dy: i8, j: usize) -> (r: Option<OthelloState>)
        requires
            x < 8,
            y < 8,
            j <= 8,
        ensures
            r is Some <==> on_board(step(x as int, dx as int, j as int), step(y as int, dy as int, j as int)),
            r is Some ==> r->0 == at(
                self.board@,
                step(x as int, dx as int, j as int),
                step(y as int, dy as int, j as int),
            ),
    {
        match Self::step_coord(x, dx, j) {
            Some(cx) => match Self::step_coord(y, dy, j) {
                Some(cy) => Some(self.board[8 * cy + cx]),
                None => None,
            },
            None => None,
        }
    }

    fn direction_flips(&self, x: usize, y: usize, dx: i8, dy: i8, me: OthelloState, out: &mut Vec<OthelloMove>)
        requires
            x < 8,
            y < 8,
        ensures
            final(out)@ == old(out)@ + dir_flips(self.board@, x as int, y as int, dx as int, dy as int, me),
    {
        let ghost b = self.board@;
        let mut i: usize = 1;
        let mut going = true;
        while going && i < 8
            invariant
                b == self.board@,
                x < 8,
                y < 8,
                1 <= i <= 8,
                run_end(b, x as int, y as int, dx as int, dy as int, me, 1) == if going {
                    run_end(b, x as int, y as int, dx as int, dy as int, me, i as int)
                } else {
                    i as int
                },
                forall|j: int|
                    1 <= j < i ==> on_board(
                        #[trigger] step(x as int, dx as int, j),
                        step(y as int, dy as int, j),
                    ),
            decreases 8 - i, if going { 1int } else { 0int },
        {
            let ghost gi = i as int;
            match self.square_at(x, y, dx, dy, i) {
                Some(c) => {
                    if c != OthelloState::Empty && c != me {
                        assert(run_end(b, x as int, y as int, dx as int, dy as int, me, gi) == run_end(
                            b,
                            x as int,
                            y as int,
                            dx as int,
                            dy as int,
                            me,
                            gi + 1,
                        ));
                        i = i + 1;
                    } else {
                        assert(run_end(b, x as int, y as int, dx as int, dy as int, me, gi) == gi);
                        going = false;
                    }
                },
                None => {
                    assert(run_end(b, x as int, y as int, dx as int, dy as int, me, gi) == gi);
                    going = false;
                },
            }
        }
        let ghost s = run_end(b, x as int, y as int, dx as int, dy as int, me, 1);
        assert(s == i);
        let ghost before = out@;
        if i < 8 {
            match self.square_at(x, y, dx, dy, i) {
                Some(c) => {
                    if c == me {
                        let mut d: usize = 1;
                        while d < i
                            invariant
                                b == self.board@,
                                x < 8,
                                y < 8,
                                1 <= d <= i,
                                i < 8,
                                forall|j: int|
                                    1 <= j < i ==> on_board(
                                        #[trigger] step(x as int, dx as int, j),
                                        step(y as int, dy as int, j),
                                    ),
                                out@ == before + Seq::new(
                                    (d - 1) as nat,
                                    |k: int|
                                        OthelloMove::Move(
                                            step(x as int, dx as int, k + 1) as usize,
                                            step(y as int, dy as int, k + 1) as usize,
                                        ),
                                ),
                            decreases i - d,
                        {
                            assert(on_board(step(x as int, dx as int, d as int), step(y as int, dy as int, d as int)));
                            let cx = Self::step_coord(x, dx, d).unwrap();
                            let cy = Self::step_coord(y, dy, d).unwrap();
                            let ghost prev = out@;
                            out.push(OthelloMove::Move(cx, cy));
                            d = d + 1;
                            proof {
                                assert(out@ =~= before + Seq::new(
                                    (d - 1) as nat,
                                    |k: int|
                                        OthelloMove::Move(
                                            step(x as int, dx as int, k + 1) as usize,
                                            step(y as int, dy as int, k + 1) as usize,
                                        ),
                                ));
                            }
                        }
                        proof {
                            assert(out@ =~= before + dir_flips(b, x as int, y as int, dx as int, dy as int, me));
                        }
                        return;
                    }
                },
                None => {},
            }
        }
        assert(dir_flips(b, x as int, y as int, dx as int, dy as int, me) =~= Seq::<OthelloMove>::empty());
        assert(out@ =~= before + dir_flips(b, x as int, y as int, dx as int, dy as int, me));
    }

    /// The squares that `m` would turn for the side to move, nearest first, by
    /// direction.
    pub fn tiles_would_flip(&self, m: OthelloMove) -> (r: Vec<OthelloMove>)
        ensures
            r@ == self.spec_tiles_would_flip(m),
    {
        let mut tiles: Vec<OthelloMove> = Vec::new();
        match m {
            OthelloMove::Pass => tiles,
            OthelloMove::Move(x, y) => {
                if !(x < 8 && y < 8) {
                    return tiles;
                }
                if self.board[8 * y + x] != OthelloState::Empty {
                    return tiles;
                }
                let me = to_color(self.playing);
                let dxs: [i8; 8] = [-1, -1, -1, 0, 0, 1, 1, 1];
                let dys: [i8; 8] = [-1, 0, 1, -1, 1, -1, 0, 1];
                let mut k: usize = 0;
                while k < 8
                    invariant
                        x < 8,
                        y < 8,
                        me == color_of(self.playing),
                        k <= 8,
                        forall|j: int| 0 <= j < 8 ==> dxs@[j] == dir_x(j) && dys@[j] == dir_y(j),
                        tiles@ == flips_upto(self.board@, x as int, y as int, me, k as int),
                    decreases 8 - k,
                {
                    self.direction_flips(x, y, dxs[k], dys[k], me, &mut tiles);
                    k = k + 1;
                }
                tiles
            },
        }
    }

    /// A position with the given squares (`board[y][x]`) and side to move.
    pub fn new_from_board(board: [[OthelloState; 8]; 8], playing: PlayerId) -> (r: Othello)
        ensures
            forall|x: int, y: int| 0 <= x < 8 && 0 <= y < 8 ==> #[trigger] at(r.board@, x, y) == board@[y]@[x],
            r.playing == playing,
            !r.last_was_pass,
    {
        let mut flat: [OthelloState; 64] = [OthelloState::Empty; 64];
        let mut y: usize = 0;
        while y < 8
            invariant
                y <= 8,
                forall|a: int, c: int| 0 <= a < 8 && 0 <= c < y ==> #[trigger] at(flat@, a, c) == board@[c]@[a],
            decreases 8 - y,
        {
            let mut x: usize = 0;
            while x < 8
                invariant
                    y < 8,
                    x <= 8,
                    forall|a: int, c: int| 0 <= a < 8 && 0 <= c < y ==> #[trigger] at(flat@, a, c) == board@[c]@[a],
                    forall|a: int| 0 <= a < x ==> #[trigger] at(flat@, a, y as int) == board@[y as int]@[a],
                decreases 8 - x,
            {
                let row = board[y];
                let ghost prev = flat;
                flat[8 * y + x] = row[x];
                proof {
                    assert forall|a: int, c: int| 0 <= a < 8 && 0 <= c < y implies #[trigger] at(flat@, a, c)
                        == board@[c]@[a] by {
                        assert(at(prev@, a, c) == board@[c]@[a]);
                    }
                    assert forall|a: int| 0 <= a < x + 1 implies #[trigger] at(flat@, a, y as int)
                        == board@[y as int]@[a] by {
                        if a < x {
                            assert(at(prev@, a, y as int) == board@[y as int]@[a]);
                        }
                    }
                }
                x = x + 1;
            }
            y = y + 1;
        }
        Othello { board: flat, playing, last_was_pass: false }
    }

    pub fn get_board(&self) -> (r: [OthelloState; 64])
        ensures
            r == self.board,
    {
        self.board
    }

    pub open spec fn spec_result(&self) -> Option<GameResult> {
        if !self.over() {
            None
        } else {
            let black = count_color(self.board@, OthelloState::Black, 64);
            let white = count_color(self.board@, OthelloState::White, 64);
            if black < white {
                Some(GameResult::Winner(PlayerId::Second))
            } else if black == white {
                Some(GameResult::Tie)
            } else {
                Some(GameResult::Winner(PlayerId::First))
            }
        }
    }
}

/// The starting board: the four middle squares, black on the diagonal.
pub open spec fn start_board() -> [OthelloState; 64] {
    spec_array_update(
        spec_array_update(
            spec_array_update(
                spec_array_update(spec_array_fill_for_copy_type(OthelloState::Empty), 27, OthelloState::Black),
                28,
                OthelloState::White,
            ),
            35,
            OthelloState::White,
        ),
        36,
        OthelloState::Black,
    )
}

impl Game for Othello {
    type Move = OthelloMove;

    open spec fn legal(&self) -> Seq<OthelloMove> {
        let ms = self.moves_upto(64);
        if ms.len() == 0 && !self.last_was_pass {
            seq![OthelloMove::Pass]
        } else {
            ms
        }
    }

    open spec fn after(&self, m: OthelloMove) -> Othello {
        match m {
            OthelloMove::Pass => Othello {
                board: self.board,
                playing: self.playing.spec_other(),
                last_was_pass: true,
            },
            OthelloMove::Move(x, y) => Othello {
                board: place(
                    apply_flips(self.board, self.spec_tiles_would_flip(m), color_of(self.playing)),
                    x,
                    y,
                    color_of(self.playing),
                ),
                playing: self.playing.spec_other(),
                last_was_pass: false,
            },
        }
    }

    open spec fn over(&self) -> bool {
        self.legal().len() == 0 && self.last_was_pass
    }

    open spec fn mover(&self) -> PlayerId {
        self.playing
    }

    open spec fn move_count() -> nat {
        65
    }

    open spec fn index_of(m: OthelloMove) -> nat {
        match m {
            OthelloMove::Pass => 64,
            OthelloMove::Move(x, y) => if x < 8 && y < 8 {
                (8 * x + y) as nat
            } else {
                65
            },
        }
    }

    open spec fn initial() -> Othello {
        Othello { board: start_board(), playing: PlayerId::First, last_was_pass: false }
    }

    open spec fn remaining(&self) -> nat {
        2 * count_eq(self.board@, OthelloState::Empty, 64) + if self.last_was_pass {
            0nat
        } else {
            1nat
        }
    }

    proof fn lemma_move_progress(&self, m: OthelloMove) {
        let ms = self.moves_upto(64);
        if ms.len() == 0 && !self.last_was_pass {
            assert(self.legal() == seq![OthelloMove::Pass]);
            assert(m == OthelloMove::Pass);
        } else {
            self.lemma_listed_moves_turn(64, m);
            match m {
                OthelloMove::Move(x, y) => {
                    let c = color_of(self.playing);
                    let flipped = apply_flips(self.board, self.spec_tiles_would_flip(m), c);
                    lemma_flips_fill(self.board, self.spec_tiles_would_flip(m), c);
                    let after = self.after(m).board@;
                    let j = 8 * y + x;
                    assert(after == flipped@.update(j as int, c));
                    assert forall|i: int| 0 <= i < 64 && after[i] == OthelloState::Empty implies self.board@[i]
                        == OthelloState::Empty by {
                        assert(flipped@[i] == OthelloState::Empty);
                    }
                    lemma_count_shrinks(after, self.board@, OthelloState::Empty, j as int, 64);
                },
                OthelloMove::Pass => {},
            }
        }
    }

    proof fn lemma_over_has_outcome(&self) {
    }

    open spec fn encoded(&self) -> Seq<u8> {
        Seq::new(192, |i: int| encoding_at(*self, i))
    }

    fn new() -> Othello {
        let mut board: [OthelloState; 64] = [OthelloState::Empty; 64];
        board[27] = OthelloState::Black;
        board[28] = OthelloState::White;
        board[35] = OthelloState::White;
        board[36] = OthelloState::Black;
        Othello { board, playing: PlayerId::First, last_was_pass: false }
    }

    fn legal_moves(&self) -> (r: Vec<OthelloMove>) {
        let mut moves: Vec<OthelloMove> = Vec::new();
        let mut k: usize = 0;
        while k < 64
            invariant
                k <= 64,
                moves@ == self.moves_upto(k as int),
                moves@.len() <= k,
                moves@.no_duplicates(),
            decreases 64 - k,
        {
            let m = OthelloMove::Move(k / 8, k % 8);
            let tiles = self.tiles_would_flip(m);
            if tiles.len() > 0 {
                proof {
                    if moves@.contains(m) {
                        self.lemma_listed_moves_turn(k as int, m);
                        assert(8 * (k / 8) + k % 8 == k);
                    }
                }
                moves.push(m);
            }
            k = k + 1;
        }
        if moves.len() == 0 && !self.last_was_pass {
            moves.push(OthelloMove::Pass);
            assert(moves@ =~= seq![OthelloMove::Pass]);
        }
        moves
    }

    fn make_move(&mut self, m: OthelloMove) {
        match m {
            OthelloMove::Pass => {
                self.last_was_pass = true;
            },
            OthelloMove::Move(x, y) => {
                let flips = self.tiles_would_flip(m);
                let me = to_color(self.playing);
                let ghost start = self.board;
                self.last_was_pass = false;
                let mut i: usize = 0;
                while i < flips.len()
                    invariant
                        i <= flips@.len(),
                        self.board == apply_flips(start, flips@.subrange(0, i as int), me),
                        self.playing == old(self).playing,
                        !self.last_was_pass,
                    decreases flips@.len() - i,
                {
                    proof {
                        assert(flips@.subrange(0, i as int + 1).drop_last() =~= flips@.subrange(0, i as int));
                    }
                    match flips[i] {
                        OthelloMove::Move(fx, fy) => {
                            if fx < 8 && fy < 8 {
                                self.board[8 * fy + fx] = me;
                            }
                        },
                        OthelloMove::Pass => {},
                    }
                    i = i + 1;
                }
                assert(flips@.subrange(0, i as int) =~= flips@);
                if x < 8 && y < 8 {
                    self.board[8 * y + x] = me;
                }
            },
        }
        self.playing = self.playing.other();
    }

    fn is_over(&self) -> (r: bool) {
        let moves = self.legal_moves();
        moves.len() == 0 && self.last_was_pass
    }

    open spec fn outcome(&self) -> Option<GameResult> {
        self.spec_result()
    }

    fn get_result(&self) -> (r: Option<GameResult>) {
        if !self.is_over() {
            return None;
        }
        let mut black: usize = 0;
        let mut white: usize = 0;
        let mut i: usize = 0;
        while i < 64
            invariant
                i <= 64,
                black == count_color(self.board@, OthelloState::Black, i as int),
                white == count_color(self.board@, OthelloState::White, i as int),
                black <= i,
                white <= i,
            decreases 64 - i,
        {
            if self.board[i] == OthelloState::Black {
                black = black + 1;
            } else if self.board[i] == OthelloState::White {
                white = white + 1;
            }
            i = i + 1;
        }
        if black < white {
            Some(GameResult::Winner(PlayerId::Second))
        } else if black == white {
            Some(GameResult::Tie)
        } else {
            Some(GameResult::Winner(PlayerId::First))
        }
    }

    fn current_player(&self) -> (r: PlayerId) {
        self.playing
    }

    fn total_moves() -> (r: usize) {
        65
    }

    fn move_index(m: OthelloMove) -> (r: usize) {
        match m {
            OthelloMove::Pass => 64,
            OthelloMove::Move(x, y) => if x < 8 && y < 8 {
                8 * x + y
            } else {
                65
            },
        }
    }

    fn same_state(&self, other: &Othello) -> (r: bool) {
        let mut i: usize = 0;
        while i < 64
            invariant
                i <= 64,
                forall|j: int| 0 <= j < i ==> self.board@[j] == other.board@[j],
            decreases 64 - i,
        {
            if self.board[i] != other.board[i] {
                return false;
            }
            i = i + 1;
        }
        proof {
            assert(self.board =~= other.board);
        }
        self.playing == other.playing && self.last_was_pass == other.last_was_pass
    }

    fn to_nn_input(&self) -> (r: Vec<u8>) {
        let mut out: Vec<u8> = Vec::new();
        let mut i: usize = 0;
        while i < 192
            invariant
                i <= 192,
                out@.len() == i,
                forall|j: int| 0 <= j < i ==> out@[j] == encoding_at(*self, j),
            decreases 192 - i,
        {
            let cell = self.board[i % 64];
            let bit: u8 = if i < 64 {
                if cell == OthelloState::Black { 1 } else { 0 }
            } else if i < 128 {
                if cell == OthelloState::White { 1 } else { 0 }
            } else {
                if self.playing == PlayerId::First { 1 } else { 0 }
            };
            out.push(bit);
            i = i + 1;
        }
        assert(out@ =~= self.encoded());
        out
    }

    fn all_possible_moves() -> (r: Vec<OthelloMove>) {
        let mut moves: Vec<OthelloMove> = Vec::new();
        let mut k: usize = 0;
        while k < 64
            invariant
                k <= 64,
                moves@.len() == k,
                forall|j: int| 0 <= j < k ==> Self::index_of(#[trigger] moves@[j]) == j,
            decreases 64 - k,
        {
            moves.push(OthelloMove::Move(k / 8, k % 8));
            k = k + 1;
        }
        moves.push(OthelloMove::Pass);
        moves
    }
}

} // verus!
