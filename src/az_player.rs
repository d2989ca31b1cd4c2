//! A player that picks its moves with the tree search.
use vstd::prelude::*;

use crate::mcts::{Evaluator, MAX_TEMPERATURE, MCTS};
use crate::shared::{Game, Player, PlayerError};

verus! {

/// A player backed by a search engine that starts from the game's initial position.
pub struct AlphaZeroPlayer<G: Game, E: Evaluator<G>> {
    pub mcts: MCTS<G, E>,
}

/// The same player under its shorter name.
pub type AlphaZero<G, E> = AlphaZeroPlayer<G, E>;

impl<G: Game, E: Evaluator<G>> AlphaZeroPlayer<G, E> {
    pub fn new(model: E, temperature: u32, training: bool, traversal_iter: usize) -> (r: Self)
        requires
            temperature <= MAX_TEMPERATURE,
        ensures
            r.mcts.spec_root().post_state == G::initial(),
            r.mcts.spec_root().n == 0,
            r.mcts.spec_temperature() == temperature,
            r.mcts.spec_traverse_iter() == traversal_iter,
            r.mcts.spec_examples() is Some <==> training,
    {
        let start = G::new();
        AlphaZeroPlayer { mcts: MCTS::new(start, model, temperature, training, traversal_iter) }
    }
}

impl<G: Game, E: Evaluator<G>> Player<G> for AlphaZeroPlayer<G, E> {
    fn choose_move(&mut self, game: &G) -> (r: Result<G::Move, PlayerError>)
        ensures
            MCTS::chooses_move(old(self).mcts, final(self).mcts, *game, r),
    {
        self.mcts.choose_move(game)
    }

    fn reset(&mut self)
        ensures
            final(self).mcts.spec_root().post_state == G::initial(),
            final(self).mcts.spec_root().n == 0,
            final(self).mcts.spec_root().children@.len() == 0,
    {
        self.mcts.reset_board();
    }
}

} // verus!
