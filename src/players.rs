//! Players that need no search: random, corner-seeking and greedy.
use rand::seq::SliceRandom;
use std::marker::PhantomData;
use vstd::prelude::*;

use crate::othello::{Othello, OthelloMove};
use crate::shared::{Game, Player, PlayerError};

verus! {

/// Relies on rand's `SliceRandom::choose`: `None` exactly for an empty slice,
/// otherwise one of its elements.
#[verifier::external_body]
fn choose_random<T: Copy>(items: &Vec<T>) -> (r: Option<T>)
    ensures
        r is None <==> items@.len() == 0,
        r is Some ==> items@.contains(r->0),
{
    items.choose(&mut rand::thread_rng()).copied()
}

/// Plays a uniformly random legal move.
pub struct Random<G: Game> {
    game: PhantomData<G>,
}

impl<G: Game> Random<G> {
    pub fn new() -> Random<G> {
        Random { game: PhantomData }
    }
}

impl<G: Game> Player<G> for Random<G> {
    fn choose_move(&mut self, game: &G) -> (r: Result<G::Move, PlayerError>)
        ensures
            r is Err <==> game.legal().len() == 0,
            r is Err ==> r->Err_0 == PlayerError::NoLegalMoves,
    {
        let moves = game.legal_moves();
        match choose_random(&moves) {
            Some(m) => Ok(m),
            None => Err(PlayerError::NoLegalMoves),
        }
    }

    fn reset(&mut self) {
    }
}

/// The moves of `moves` onto a corner (`corner`) or onto an edge (`!corner`), in order.
fn keep_border_moves(moves: &Vec<OthelloMove>, corner: bool) -> (r: Vec<OthelloMove>)
    ensures
        forall|m: OthelloMove|
            r@.contains(m) <==> moves@.contains(m) && (if corner {
                m.spec_is_corner()
            } else {
                m.spec_is_edge()
            }),
{
    let mut kept: Vec<OthelloMove> = Vec::new();
    let mut i: usize = 0;
    while i < moves.len()
        invariant
            i <= moves@.len(),
            forall|m: OthelloMove|
                kept@.contains(m) <==> (exists|j: int| 0 <= j < i && moves@[j] == m) && (if corner {
                    m.spec_is_corner()
                } else {
                    m.spec_is_edge()
                }),
        decreases moves@.len() - i,
    {
        let m = moves[i];
        let keep = if corner {
            m.is_corner()
        } else {
            m.is_edge()
        };
        let ghost prev = kept@;
        if keep {
            kept.push(m);
        }
        proof {
            assert forall|q: OthelloMove| kept@.contains(q) <==> (exists|j: int| 0 <= j < i + 1 && moves@[j] == q)
                && (if corner {
                q.spec_is_corner()
            } else {
                q.spec_is_edge()
            }) by {
                if kept@.contains(q) {
                    if q == m {
                        assert(moves@[i as int] == q);
                    } else {
                        assert(prev.contains(q)) by {
                            let k = choose|k: int| 0 <= k < kept@.len() && kept@[k] == q;
                            assert(k < prev.len());
                            assert(prev[k] == q);
                        }
                    }
                }
                if (exists|j: int| 0 <= j < i + 1 && moves@[j] == q) && (if corner {
                    q.spec_is_corner()
                } else {
                    q.spec_is_edge()
                }) {
                    let j = choose|j: int| 0 <= j < i + 1 && moves@[j] == q;
                    if j == i {
                        assert(kept@[kept@.len() - 1] == q);
                    } else {
                        assert(prev.contains(q));
                        let k = choose|k: int| 0 <= k < prev.len() && prev[k] == q;
                        assert(kept@[k] == q);
                    }
                }
            }
        }
        i = i + 1;
    }
    proof {
        assert forall|m: OthelloMove| (exists|j: int| 0 <= j < moves@.len() && moves@[j] == m) <==> moves@.contains(m) by {}
    }
    kept
}

/// Takes a corner when it can, else an edge, else any legal move, at random among
/// those.
pub struct Corners;

impl Corners {
    pub fn new() -> Corners {
        Corners
    }
}

impl Player<Othello> for Corners {
    fn choose_move(&mut self, game: &Othello) -> (r: Result<OthelloMove, PlayerError>)
        ensures
            r is Err <==> game.legal().len() == 0,
            r is Err ==> r->Err_0 == PlayerError::NoLegalMoves,
            r is Ok && (exists|m: OthelloMove| game.legal().contains(m) && m.spec_is_corner())
                ==> r->Ok_0.spec_is_corner(),
            r is Ok && (exists|m: OthelloMove| game.legal().contains(m) && m.spec_is_edge())
                ==> r->Ok_0.spec_is_edge(),
    {
        let moves = game.legal_moves();
        let corners = keep_border_moves(&moves, true);
        let edges = keep_border_moves(&moves, false);
        let picked = if corners.len() > 0 {
            choose_random(&corners)
        } else if edges.len() > 0 {
            choose_random(&edges)
        } else {
            choose_random(&moves)
        };
        proof {
            if exists|m: OthelloMove| game.legal().contains(m) && m.spec_is_corner() {
                let m = choose|m: OthelloMove| game.legal().contains(m) && m.spec_is_corner();
                assert(corners@.contains(m));
            }
            if exists|m: OthelloMove| game.legal().contains(m) && m.spec_is_edge() {
                let m = choose|m: OthelloMove| game.legal().contains(m) && m.spec_is_edge();
                assert(edges@.contains(m));
            }
            if game.legal().len() > 0 {
                assert(moves@.contains(moves@[0]));
            }
        }
        match picked {
            Some(m) => Ok(m),
            None => Err(PlayerError::NoLegalMoves),
        }
    }

    fn reset(&mut self) {
    }
}

/// Takes the legal move that turns the most discs (the first such), or passes when
/// passing is the only legal move.
pub struct Greedy;

impl Greedy {
    pub fn new() -> Greedy {
        Greedy
    }
}

impl Player<Othello> for Greedy {
    fn choose_move(&mut self, game: &Othello) -> (r: Result<OthelloMove, PlayerError>)
        ensures
            r is Err <==> game.legal().len() == 0,
            r is Err ==> r->Err_0 == PlayerError::NoLegalMoves,
            r is Ok ==> exists|i: int|
                0 <= i < game.legal().len() && #[trigger] game.legal()[i] == r->Ok_0 && (forall|k: int|
                    0 <= k < game.legal().len() ==> game.spec_tiles_would_flip(#[trigger] game.legal()[k]).len()
                        <= game.spec_tiles_would_flip(r->Ok_0).len()) && (forall|k: int|
                    0 <= k < i ==> game.spec_tiles_would_flip(#[trigger] game.legal()[k]).len()
                        < game.spec_tiles_would_flip(r->Ok_0).len()),
    {
        let moves = game.legal_moves();
        if moves.len() == 0 {
            return Err(PlayerError::NoLegalMoves);
        }
        let mut best: usize = 0;
        let mut flipped: usize = game.tiles_would_flip(moves[0]).len();
        let mut i: usize = 1;
        while i < moves.len()
            invariant
                moves@ == game.legal(),
                1 <= i <= moves@.len(),
                best < i,
                flipped == game.spec_tiles_would_flip(moves@[best as int]).len(),
                forall|k: int| 0 <= k < i ==> game.spec_tiles_would_flip(#[trigger] moves@[k]).len() <= flipped,
                forall|k: int| 0 <= k < best ==> game.spec_tiles_would_flip(#[trigger] moves@[k]).len() < flipped,
            decreases moves@.len() - i,
        {
            let amt = game.tiles_would_flip(moves[i]).len();
            if amt > flipped {
                best = i;
                flipped = amt;
            }
            i = i + 1;
        }
        assert(moves@.contains(moves@[best as int]));
        assert(game.legal()[best as int] == moves@[best as int]);
        Ok(moves[best])
    }

    fn reset(&mut self) {
    }
}

} // verus!
