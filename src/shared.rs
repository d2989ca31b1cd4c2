//! Types shared by every game and player.
use vstd::prelude::*;

verus! {

/// The largest number of moves that any position may offer.
pub const MAX_MOVES: usize = 65536;

/// One of the two sides of a game.
#[derive(Debug, Copy, Clone, PartialEq, Eq, Hash, Structural)]
pub enum PlayerId {
    First,
    Second,
}

impl PlayerId {
    /// The side that moves after `self`.
    pub open spec fn spec_other(self) -> PlayerId {
        match self {
            PlayerId::First => PlayerId::Second,
            PlayerId::Second => PlayerId::First,
        }
    }

    /// The side that moves after `self`.
    pub fn other(self) -> (r: PlayerId)
        ensures
            r == self.spec_other(),
    {
        match self {
            PlayerId::First => PlayerId::Second,
            PlayerId::Second => PlayerId::First,
        }
    }
}

/// How a finished game ended.
#[derive(Debug, Clone, PartialEq, Eq)]
pub enum GameResult {
    Winner(PlayerId),
    Tie,
    Ranking(Vec<PlayerId>),
}

/// Why a player could not produce a move.
#[derive(Debug, Copy, Clone, PartialEq, Eq, Structural)]
pub enum PlayerError {
    /// The position offers no legal move.
    NoLegalMoves,
    /// The position handed to a search engine is neither its current position nor
    /// one move after it.
    ReconciliationMismatch,
}

/// How many of the first `k` entries of `s` equal `v`.
pub open spec fn count_eq<T>(s: Seq<T>, v: T, k: int) -> nat
    decreases k,
{
    if k <= 0 {
        0
    } else {
        count_eq(s, v, k - 1) + if s[k - 1] == v {
            1nat
        } else {
            0nat
        }
    }
}

/// Overwriting one entry equal to `v` by something else lowers the count by one.
pub proof fn lemma_count_update<T>(s: Seq<T>, v: T, i: int, w: T, k: int)
    requires
        0 <= i < k <= s.len(),
        s[i] == v,
        w != v,
    ensures
        count_eq(s.update(i, w), v, k) + 1 == count_eq(s, v, k),
    decreases k,
{
    if k - 1 > i {
        lemma_count_update(s, v, i, w, k - 1);
    } else {
        lemma_count_same(s.update(i, w), s, v, k - 1);
    }
}

/// Counts agree on prefixes where the sequences agree.
pub proof fn lemma_count_same<T>(a: Seq<T>, b: Seq<T>, v: T, k: int)
    requires
        k <= a.len(),
        k <= b.len(),
        forall|i: int| 0 <= i < k ==> a[i] == b[i],
    ensures
        count_eq(a, v, k) == count_eq(b, v, k),
    decreases k,
{
    if k > 0 {
        lemma_count_same(a, b, v, k - 1);
    }
}

/// When every entry equal to `v` in `a` also is in `b`, and entry `j` is only in
/// `b`, `a` counts fewer.
pub proof fn lemma_count_shrinks<T>(a: Seq<T>, b: Seq<T>, v: T, j: int, k: int)
    requires
        k <= a.len(),
        k <= b.len(),
        forall|i: int| 0 <= i < k && a[i] == v ==> b[i] == v,
        0 <= j < k,
        b[j] == v,
        a[j] != v,
    ensures
        count_eq(a, v, k) < count_eq(b, v, k),
    decreases k,
{
    if k - 1 > j {
        lemma_count_shrinks(a, b, v, j, k - 1);
    } else {
        lemma_count_within(a, b, v, k - 1);
    }
}

/// When every entry equal to `v` in `a` also is in `b`, `a` counts no more.
pub proof fn lemma_count_within<T>(a: Seq<T>, b: Seq<T>, v: T, k: int)
    requires
        k <= a.len(),
        k <= b.len(),
        forall|i: int| 0 <= i < k && a[i] == v ==> b[i] == v,
    ensures
        count_eq(a, v, k) <= count_eq(b, v, k),
    decreases k,
{
    if k > 0 {
        lemma_count_within(a, b, v, k - 1);
    }
}

/// The rules of a two-player board game, as the search and the players see them.
///
/// Each method is tied to a spec function that states its result, so generic code
/// can reason about positions without knowing the game.
pub trait Game: Sized + Copy {
    type Move: Copy;

    /// The legal moves from this position, in the order the game lists them.
    spec fn legal(&self) -> Seq<Self::Move>;

    /// The position after `m` is played here.
    spec fn after(&self, m: Self::Move) -> Self;

    /// Whether the game has ended.
    spec fn over(&self) -> bool;

    /// The side to move.
    spec fn mover(&self) -> PlayerId;

    /// The size of the game's move space.
    spec fn move_count() -> nat;

    /// The stable index of a move in the move space.
    spec fn index_of(m: Self::Move) -> nat;

    /// The starting position.
    spec fn initial() -> Self;

    /// How the game ended, or `None` while it goes on.
    spec fn outcome(&self) -> Option<GameResult>;

    /// A bound on how long the game can still last: every legal move lowers it.
    spec fn remaining(&self) -> nat;

    /// Every legal move brings the game closer to its end.
    proof fn lemma_move_progress(&self, m: Self::Move)
        requires
            self.legal().contains(m),
        ensures
            self.after(m).remaining() < self.remaining(),
    ;

    /// A finished game has an outcome.
    proof fn lemma_over_has_outcome(&self)
        requires
            self.over(),
        ensures
            self.outcome() is Some,
    ;

    /// The board encoded for an evaluator, one byte (0 or 1) per plane and cell.
    spec fn encoded(&self) -> Seq<u8>;

    fn new() -> (r: Self)
        ensures
            r == Self::initial(),
    ;

    fn legal_moves(&self) -> (r: Vec<Self::Move>)
        ensures
            r@ == self.legal(),
            r@.len() <= MAX_MOVES,
            r@.no_duplicates(),
    ;

    fn make_move(&mut self, m: Self::Move)
        requires
            old(self).legal().contains(m),
        ensures
            *final(self) == old(self).after(m),
    ;

    fn is_over(&self) -> (r: bool)
        ensures
            r == self.over(),
    ;

    fn get_result(&self) -> (r: Option<GameResult>)
        ensures
            r == self.outcome(),
    ;

    fn current_player(&self) -> (r: PlayerId)
        ensures
            r == self.mover(),
    ;

    fn total_moves() -> (r: usize)
        ensures
            r as nat == Self::move_count(),
    ;

    fn move_index(m: Self::Move) -> (r: usize)
        ensures
            r as nat == Self::index_of(m),
    ;

    /// Whether two positions are the same in every respect.
    fn same_state(&self, other: &Self) -> (r: bool)
        ensures
            r == (*self == *other),
    ;

    fn to_nn_input(&self) -> (r: Vec<u8>)
        ensures
            r@ == self.encoded(),
    ;

    /// Every move of the move space, each at its own index.
    fn all_possible_moves() -> (r: Vec<Self::Move>)
        ensures
            r@.len() == Self::move_count(),
            forall|i: int| 0 <= i < r@.len() ==> Self::index_of(#[trigger] r@[i]) == i,
    ;
}

/// Something that picks moves in a game.
pub trait Player<G: Game> {
    /// A legal move for the position, or why there is none.
    fn choose_move(&mut self, game: &G) -> (r: Result<G::Move, PlayerError>)
        ensures
            r is Ok ==> game.legal().contains(r->Ok_0),
    ;

    /// Forgets whatever was learned during the previous game.
    fn reset(&mut self);
}

/// The position reached from `start` by playing `moves` in order, or `None` when
/// one of them is not legal where it is played.
pub open spec fn replay<G: Game>(start: G, moves: Seq<G::Move>) -> Option<G>
    decreases moves.len(),
{
    if moves.len() == 0 {
        Some(start)
    } else {
        match replay(start, moves.drop_last()) {
            Some(g) => if g.legal().contains(moves.last()) {
                Some(g.after(moves.last()))
            } else {
                None
            },
            None => None,
        }
    }
}

} // verus!
