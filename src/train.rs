//! Training examples harvested from search statistics.
use vstd::prelude::*;

use crate::shared::{Game, GameResult, PlayerId};

verus! {

/// A searched position and the visit count of each move tried there, waiting for
/// the game's outcome.
pub struct UnfinishedTrainingExample<G: Game> {
    /// The position, encoded as `Game::to_nn_input` encodes it.
    pub position: Vec<u8>,
    /// Each move tried at the position with its visit count.
    pub next_move_probs: Vec<(G::Move, u64)>,
}

/// A searched position with the final outcome of its game: 1 when the first side
/// won, -1 when the second side won, 0 for a tie.
pub struct TrainingExample<G: Game> {
    pub position: Vec<u8>,
    pub winner: i8,
    pub next_move_probs: Vec<(G::Move, u64)>,
}

impl<G: Game> UnfinishedTrainingExample<G> {
    pub fn new(position: Vec<u8>, next_move_probs: Vec<(G::Move, u64)>) -> (r: Self)
        ensures
            r.position == position,
            r.next_move_probs == next_move_probs,
    {
        UnfinishedTrainingExample { position, next_move_probs }
    }

    /// Attaches the outcome of the game.
    pub fn finish(self, winner: i8) -> (r: TrainingExample<G>)
        ensures
            r.position == self.position,
            r.winner == winner,
            r.next_move_probs == self.next_move_probs,
    {
        TrainingExample { position: self.position, winner, next_move_probs: self.next_move_probs }
    }
}

/// The count that the visit list gives to move index `i`: that of the last entry
/// whose move has index `i`, or zero when no entry has.
pub open spec fn count_for<G: Game>(s: Seq<(G::Move, u64)>, i: int) -> u64
    decreases s.len(),
{
    if s.len() == 0 {
        0
    } else if G::index_of(s.last().0) == i {
        s.last().1
    } else {
        count_for::<G>(s.drop_last(), i)
    }
}

/// No two entries name moves of the same index.
pub open spec fn distinct_moves<G: Game>(s: Seq<(G::Move, u64)>) -> bool {
    forall|a: int, b: int|
        0 <= a < b < s.len() ==> G::index_of(#[trigger] s[a].0) != G::index_of(#[trigger] s[b].0)
}

/// For a visit list with distinct moves, the target count of a move index is zero
/// exactly when no entry with that index was visited.
pub proof fn lemma_target_zero_iff_unvisited<G: Game>(s: Seq<(G::Move, u64)>, i: int)
    requires
        distinct_moves::<G>(s),
    ensures
        count_for::<G>(s, i) == 0 <==> forall|k: int|
            0 <= k < s.len() && G::index_of(#[trigger] s[k].0) == i ==> s[k].1 == 0,
    decreases s.len(),
{
    if s.len() > 0 {
        let t = s.drop_last();
        assert(distinct_moves::<G>(t)) by {
            assert forall|a: int, b: int| 0 <= a < b < t.len() implies G::index_of(#[trigger] t[a].0)
                != G::index_of(#[trigger] t[b].0) by {
                assert(t[a] == s[a]);
                assert(t[b] == s[b]);
            }
        }
        lemma_target_zero_iff_unvisited::<G>(t, i);
        let last = s.len() - 1;
        assert(s.last() == s[last]);
        if G::index_of(s[last].0) == i {
            assert forall|k: int| 0 <= k < last implies G::index_of(#[trigger] s[k].0) != i by {
                assert(G::index_of(s[k].0) != G::index_of(s[last].0));
            }
        } else {
            if count_for::<G>(s, i) == 0 {
                assert forall|k: int| 0 <= k < s.len() && G::index_of(#[trigger] s[k].0) == i implies s[k].1
                    == 0 by {
                    assert(k < last);
                    assert(t[k] == s[k]);
                }
            }
            if forall|k: int| 0 <= k < s.len() && G::index_of(#[trigger] s[k].0) == i ==> s[k].1 == 0 {
                assert forall|k: int| 0 <= k < t.len() && G::index_of(#[trigger] t[k].0) == i implies t[k].1
                    == 0 by {
                    assert(t[k] == s[k]);
                }
            }
        }
    }
}

impl<G: Game> TrainingExample<G> {
    pub fn new(position: Vec<u8>, winner: i8, next_move_probs: Vec<(G::Move, u64)>) -> (r: Self)
        ensures
            r.position == position,
            r.winner == winner,
            r.next_move_probs == next_move_probs,
    {
        TrainingExample { position, winner, next_move_probs }
    }

    /// The visit counts spread over the whole move space, by move index, with zero
    /// for every move that was not tried. A network's policy target is the softmax
    /// of these counts, which sums to one; the softmax gives an untried move a small
    /// positive share, so it is the counts, not the target, that are zero exactly at
    /// the untried moves.
    pub fn to_true_counts(&self) -> (r: Vec<u64>)
        ensures
            r@.len() == G::move_count(),
            forall|i: int| 0 <= i < r@.len() ==> r@[i] == count_for::<G>(self.next_move_probs@, i),
    {
        let total = G::total_moves();
        let mut counts: Vec<u64> = Vec::new();
        let mut i: usize = 0;
        while i < total
            invariant
                i <= total,
                total == G::move_count(),
                counts@.len() == i,
                forall|j: int| 0 <= j < i ==> counts@[j] == 0,
            decreases total - i,
        {
            counts.push(0);
            i = i + 1;
        }
        let mut k: usize = 0;
        while k < self.next_move_probs.len()
            invariant
                k <= self.next_move_probs@.len(),
                counts@.len() == total,
                total == G::move_count(),
                forall|j: int|
                    0 <= j < total ==> counts@[j] == count_for::<G>(
                        self.next_move_probs@.subrange(0, k as int),
                        j,
                    ),
            decreases self.next_move_probs@.len() - k,
        {
            let (m, c) = self.next_move_probs[k];
            let idx = G::move_index(m);
            if idx < counts.len() {
                counts.set(idx, c);
            }
            proof {
                let s = self.next_move_probs@.subrange(0, k as int + 1);
                assert(s.drop_last() =~= self.next_move_probs@.subrange(0, k as int));
                assert(s.last() == (m, c));
                assert forall|j: int| 0 <= j < total implies counts@[j] == count_for::<G>(s, j) by {}
            }
            k = k + 1;
        }
        proof {
            assert(self.next_move_probs@.subrange(0, k as int) =~= self.next_move_probs@);
        }
        counts
    }
}

/// The training target of a finished game: 1 when the first side won, -1 when the
/// second side won, 0 for a tie; `None` for a ranking, which has no such value.
pub fn winner_value(result: &GameResult) -> (r: Option<i8>)
    ensures
        r == match *result {
            GameResult::Winner(PlayerId::First) => Some(1i8),
            GameResult::Winner(PlayerId::Second) => Some(-1i8),
            GameResult::Tie => Some(0i8),
            GameResult::Ranking(_) => None,
        },
{
    match result {
        GameResult::Winner(PlayerId::First) => Some(1),
        GameResult::Winner(PlayerId::Second) => Some(-1),
        GameResult::Tie => Some(0),
        GameResult::Ranking(_) => None,
    }
}

/// Attaches the same outcome to every example of a game, keeping their order.
pub fn finish_all<G: Game>(examples: Vec<UnfinishedTrainingExample<G>>, winner: i8) -> (r: Vec<TrainingExample<G>>)
    ensures
        r@.len() == examples@.len(),
        forall|i: int|
            0 <= i < r@.len() ==> {
                &&& (#[trigger] r@[i]).position == examples@[i].position
                &&& r@[i].winner == winner
                &&& r@[i].next_move_probs == examples@[i].next_move_probs
            },
{
    let mut done: Vec<TrainingExample<G>> = Vec::new();
    let mut rest = examples;
    let ghost all = rest@;
    while rest.len() > 0
        invariant
            done@.len() + rest@.len() == all.len(),
            rest@ == all.subrange(done@.len() as int, all.len() as int),
            forall|i: int|
                0 <= i < done@.len() ==> {
                    &&& (#[trigger] done@[i]).position == all[i].position
                    &&& done@[i].winner == winner
                    &&& done@[i].next_move_probs == all[i].next_move_probs
                },
        decreases rest@.len(),
    {
        let ex = rest.remove(0);
        assert(ex == all[done@.len() as int]);
        done.push(ex.finish(winner));
        assert(rest@ =~= all.subrange(done@.len() as int, all.len() as int));
    }
    done
}

/// Whether a challenger that won `wins` of `games` games replaces the best model:
/// it must win at least 60% of at least one game.
pub fn new_model_won(wins: usize, games: usize) -> (r: bool)
    ensures
        r == (games > 0 && 5 * wins >= 3 * games),
{
    games > 0 && (wins as u128) * 5 >= (games as u128) * 3
}

/// A bounded store of training examples that keeps the newest ones.
pub struct GamesHolder<T> {
    pub games: Vec<T>,
    pub capacity: usize,
}

impl<T> GamesHolder<T> {
    /// Appends `new_games`, then drops the oldest examples until at most `capacity`
    /// remain.
    pub fn extend(&mut self, new_games: Vec<T>)
        ensures
            final(self).capacity == old(self).capacity,
            final(self).games@ == {
                let all = old(self).games@ + new_games@;
                if all.len() > old(self).capacity {
                    all.subrange(all.len() - old(self).capacity, all.len() as int)
                } else {
                    all
                }
            },
    {
        let ghost all = self.games@ + new_games@;
        let mut incoming = new_games;
        self.games.append(&mut incoming);
        assert(self.games@ =~= all);
        if self.games.len() > self.capacity {
            let excess = self.games.len() - self.capacity;
            let kept = self.games.split_off(excess);
            self.games = kept;
        }
    }
}

} // verus!
