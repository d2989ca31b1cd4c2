//! Playing a whole game between two players.
use vstd::prelude::*;

use crate::shared::{replay, Game, GameResult, Player, PlayerError, PlayerId};

verus! {

/// Plays one game from the starting position, `first` moving for the first side and
/// `second` for the second, and returns how the finished position, reached by legal
/// moves, ended. The only error is that of a player asked to move in a position
/// reached by legal moves where the game goes on: the game stops there. Every game
/// ends, since every legal move lowers `Game::remaining`.
pub fn play_full_game<G: Game, A: Player<G>, B: Player<G>>(first: &mut A, second: &mut B) -> (r: Result<
    GameResult,
    PlayerError,
>)
    ensures
        r is Ok ==> exists|moves: Seq<G::Move>, g: G|
            replay(G::initial(), moves) == Some(g) && g.over() && g.outcome() == Some(r->Ok_0),
        r is Err ==> exists|moves: Seq<G::Move>, g: G| replay(G::initial(), moves) == Some(g) && !g.over(),
{
    let mut game = G::new();
    let ghost mut played: Seq<G::Move> = Seq::empty();
    while !game.is_over()
        invariant
            replay(G::initial(), played) == Some(game),
        decreases game.remaining(),
    {
        let next = match game.current_player() {
            PlayerId::First => first.choose_move(&game),
            PlayerId::Second => second.choose_move(&game),
        };
        match next {
            Ok(m) => {
                proof {
                    game.lemma_move_progress(m);
                }
                proof {
                    assert(played.push(m).drop_last() =~= played);
                    played = played.push(m);
                }
                game.make_move(m);
            },
            Err(e) => {
                assert(replay(G::initial(), played) == Some(game) && !game.over());
                return Err(e);
            },
        }
    }
    proof {
        game.lemma_over_has_outcome();
    }
    match game.get_result() {
        Some(res) => {
            assert(replay(G::initial(), played) == Some(game) && game.over() && game.outcome() == Some(res));
            Ok(res)
        },
        None => Err(PlayerError::NoLegalMoves),
    }
}

} // verus!
