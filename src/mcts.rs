//! The search engine: it owns a tree, reconciles it with the game, searches, and
//! commits to moves.
use vstd::prelude::*;

use crate::search_tree::{
    expands_to, first_match, lemma_terminal_leaves_unexpanded, pass_to, passes_to,
    terminal_leaves_unexpanded,
};
use crate::shared::{Game, PlayerError};
use crate::train::UnfinishedTrainingExample;

pub use crate::search_tree::{
    ActionNode, Evaluation, Evaluator, UniformEvaluator, MAX_TEMPERATURE, MAX_VISITS, ONE,
};

verus! {

/// The position `game` is the root's own, or one legal move after it while the
/// root's game goes on.
pub open spec fn can_reconcile<G: Game>(root: ActionNode<G>, game: G) -> bool {
    ||| root.post_state == game
    ||| (!root.post_state.over() && exists|i: int|
        0 <= i < root.post_state.legal().len() && #[trigger] root.post_state.after(
            root.post_state.legal()[i],
        ) == game)
}

/// `new` is the root after reconciling `root` with `game`: `root` itself when it is
/// at `game`, otherwise the first child at `game` of `root` expanded by `model`.
pub open spec fn reconciles_to<G: Game, E: Evaluator<G>>(root: ActionNode<G>, game: G, new: ActionNode<G>, model: E) -> bool {
    if root.post_state == game {
        new == root
    } else {
        exists|e: ActionNode<G>, i: int| expands_to(root, e, model) && first_match(e.children@, game, i) && new == e.children@[i]
    }
}

/// How many passes a search from a root with `n` visits runs: `iter`, or fewer
/// where the root's count would pass `MAX_VISITS`.
pub open spec fn search_passes(iter: usize, n: u64) -> nat {
    if iter <= MAX_VISITS - n {
        iter as nat
    } else {
        (MAX_VISITS - n) as nat
    }
}

/// `s` is the tree a search leaves from `rec`: `k` passes, then an expansion of the
/// root if it is still a leaf whose game goes on.
pub open spec fn searched_to<G: Game, E: Evaluator<G>>(rec: ActionNode<G>, s: ActionNode<G>, c: int, model: E, k: nat) -> bool {
    exists|s0: ActionNode<G>|
        #[trigger] passes_to(rec, s0, c, model, k) && if s0.post_state.over() {
            s == s0
        } else {
            expands_to(s0, s, model)
        }
}

/// The search engine: a tree rooted at the current position, an evaluator, and the
/// search settings.
///
/// The temperature is a whole number. It is the exploration constant of the PUCT
/// score, and the exponent of visit counts when the move to play is sampled; zero
/// makes that choice greedy.
pub struct MCTS<G: Game, E: Evaluator<G>> {
    root: ActionNode<G>,
    model: E,
    temperature: u32,
    train_examples: Option<Vec<UnfinishedTrainingExample<G>>>,
    traverse_iter: usize,
}

/// The settings of an engine.
pub struct MCTSConfig {
    pub traversal_iter: usize,
    pub temperature: u32,
}

impl<G: Game, E: Evaluator<G>> MCTS<G, E> {
    #[verifier::type_invariant]
    spec fn inv(self) -> bool {
        &&& self.root.wf()
        &&& self.temperature <= MAX_TEMPERATURE
    }

    pub closed spec fn spec_root(self) -> ActionNode<G> {
        self.root
    }

    pub closed spec fn spec_temperature(self) -> u32 {
        self.temperature
    }

    pub closed spec fn spec_model(self) -> E {
        self.model
    }

    pub closed spec fn spec_traverse_iter(self) -> usize {
        self.traverse_iter
    }

    /// The examples recorded so far, or `None` when the engine does not record.
    pub closed spec fn spec_examples(self) -> Option<Seq<UnfinishedTrainingExample<G>>> {
        match self.train_examples {
            Some(v) => Some(v@),
            None => None,
        }
    }

    /// An engine rooted at `root`, evaluated once; it records training examples
    /// when `training` holds.
    pub fn new(root: G, model: E, temperature: u32, training: bool, traverse_iter: usize) -> (r: Self)
        requires
            temperature <= MAX_TEMPERATURE,
        ensures
            r.spec_root().post_state == root,
            r.spec_root().action is None,
            r.spec_root().n == 0,
            r.spec_root().total == 0,
            r.spec_root().children@.len() == 0,
            r.spec_root().evaluated_by(model),
            r.spec_model() == model,
            r.spec_temperature() == temperature,
            r.spec_traverse_iter() == traverse_iter,
            r.spec_examples() == if training {
                Some(Seq::<UnfinishedTrainingExample<G>>::empty())
            } else {
                None
            },
    {
        let node = ActionNode::new_leaf(None, root, &model);
        let train_examples = if training {
            Some(Vec::new())
        } else {
            None
        };
        let r = MCTS { root: node, model, temperature, train_examples, traverse_iter };
        proof {
            if training {
                assert(r.spec_examples()->0 =~= Seq::<UnfinishedTrainingExample<G>>::empty());
            }
        }
        r
    }

    pub fn root(&self) -> (r: &ActionNode<G>)
        ensures
            *r == self.spec_root(),
            r.wf(),
    {
        proof {
            use_type_invariant(self);
        }
        &self.root
    }

    pub fn temperature(&self) -> (r: u32)
        ensures
            r == self.spec_temperature(),
            r <= MAX_TEMPERATURE,
    {
        proof {
            use_type_invariant(self);
        }
        self.temperature
    }

    pub fn model(&self) -> &E {
        &self.model
    }

    /// Runs `k` traversal passes from the root.
    pub fn traverse(&mut self, k: usize)
        requires
            old(self).spec_root().n + k <= MAX_VISITS,
        ensures
            final(self).spec_root().n == old(self).spec_root().n + k,
            final(self).spec_root().post_state == old(self).spec_root().post_state,
            final(self).spec_root().action == old(self).spec_root().action,
            k > 0 && final(self).spec_root().children@.len() == 0 ==> old(self).spec_root().post_state.over()
                || old(self).spec_root().post_state.legal().len() == 0,
            final(self).spec_temperature() == old(self).spec_temperature(),
            final(self).spec_traverse_iter() == old(self).spec_traverse_iter(),
            final(self).spec_examples() == old(self).spec_examples(),
            final(self).spec_model() == old(self).spec_model(),
            passes_to(
                old(self).spec_root(),
                final(self).spec_root(),
                old(self).spec_temperature() as int,
                old(self).spec_model(),
                k as nat,
            ),
            terminal_leaves_unexpanded(final(self).spec_root()),
    {
        proof {
            use_type_invariant(&*self);
        }
        let mut root = ActionNode::placeholder(self.root.post_state);
        self.swap_root(&mut root);
        let mut i: usize = 0;
        while i < k
            invariant
                i <= k,
                root.wf(),
                root.n == old(self).root.n + i,
                old(self).root.n + k <= MAX_VISITS,
                root.post_state == old(self).root.post_state,
                root.action == old(self).root.action,
                i > 0 && root.children@.len() == 0 ==> old(self).root.post_state.over()
                    || old(self).root.post_state.legal().len() == 0,
                self.temperature == old(self).temperature,
                self.temperature <= MAX_TEMPERATURE,
                self.traverse_iter == old(self).traverse_iter,
                self.train_examples == old(self).train_examples,
                self.model == old(self).model,
                passes_to(old(self).root, root, self.temperature as int, self.model, i as nat),
            decreases k - i,
        {
            let ghost mid = root;
            let v = root.traverse_pass(self.temperature, &self.model);
            proof {
                assert(passes_to(old(self).root, mid, self.temperature as int, self.model, i as nat)
                    && pass_to(mid, root, self.temperature as int, self.model, v));
            }
            i = i + 1;
        }
        proof {
            lemma_terminal_leaves_unexpanded(root);
        }
        self.swap_root(&mut root);
    }

    /// Replaces the tree by a fresh root at the starting position and discards the
    /// examples recorded so far.
    pub fn reset_board(&mut self)
        ensures
            final(self).spec_root().post_state == G::initial(),
            final(self).spec_root().action is None,
            final(self).spec_root().n == 0,
            final(self).spec_root().total == 0,
            final(self).spec_root().children@.len() == 0,
            final(self).spec_root().evaluated_by(old(self).spec_model()),
            final(self).spec_model() == old(self).spec_model(),
            final(self).spec_temperature() == old(self).spec_temperature(),
            final(self).spec_traverse_iter() == old(self).spec_traverse_iter(),
            final(self).spec_examples() == match old(self).spec_examples() {
                Some(_) => Some(Seq::<UnfinishedTrainingExample<G>>::empty()),
                None => None,
            },
    {
        let g = G::new();
        let mut node = ActionNode::new_leaf(None, g, &self.model);
        self.swap_root(&mut node);
        let mut examples = self.take_examples();
        if examples.is_some() {
            examples = Some(Vec::new());
        }
        self.put_examples(examples);
        proof {
            if self.spec_examples() is Some {
                assert(self.spec_examples()->0 =~= Seq::<UnfinishedTrainingExample<G>>::empty());
            }
        }
    }

    /// Hands out the examples recorded so far and starts a new list; empty when the
    /// engine does not record.
    pub fn drain_training_examples(&mut self) -> (r: Vec<UnfinishedTrainingExample<G>>)
        ensures
            r@ == match old(self).spec_examples() {
                Some(v) => v,
                None => Seq::<UnfinishedTrainingExample<G>>::empty(),
            },
            final(self).spec_examples() == match old(self).spec_examples() {
                Some(_) => Some(Seq::<UnfinishedTrainingExample<G>>::empty()),
                None => None,
            },
            final(self).spec_root() == old(self).spec_root(),
            final(self).spec_temperature() == old(self).spec_temperature(),
            final(self).spec_traverse_iter() == old(self).spec_traverse_iter(),
    {
        let examples = self.take_examples();
        match examples {
            Some(v) => {
                self.put_examples(Some(Vec::new()));
                proof {
                    assert(self.spec_examples()->0 =~= Seq::<UnfinishedTrainingExample<G>>::empty());
                }
                v
            },
            None => {
                self.put_examples(None);
                Vec::new()
            },
        }
    }

    fn take_examples(&mut self) -> (r: Option<Vec<UnfinishedTrainingExample<G>>>)
        ensures
            r == old(self).train_examples,
            final(self).train_examples is None,
            final(self).root == old(self).root,
            final(self).temperature == old(self).temperature,
            final(self).traverse_iter == old(self).traverse_iter,
            final(self).model == old(self).model,
    {
        proof {
            use_type_invariant(&*self);
        }
        let mut out = None;
        std::mem::swap(&mut self.train_examples, &mut out);
        out
    }

    fn put_examples(&mut self, examples: Option<Vec<UnfinishedTrainingExample<G>>>)
        ensures
            final(self).train_examples == examples,
            final(self).root == old(self).root,
            final(self).temperature == old(self).temperature,
            final(self).traverse_iter == old(self).traverse_iter,
            final(self).model == old(self).model,
    {
        proof {
            use_type_invariant(&*self);
        }
        let mut slot = examples;
        std::mem::swap(&mut self.train_examples, &mut slot);
    }

    /// Moves the root to `game`: keeps it when it already is `game`, otherwise
    /// expands it if needed and promotes the first child whose position is `game`,
    /// discarding its siblings.
    pub fn reconcile(&mut self, game: &G) -> (r: Result<(), PlayerError>)
        ensures
            r is Ok <==> can_reconcile(old(self).spec_root(), *game),
            r is Err ==> r->Err_0 == PlayerError::ReconciliationMismatch,
            r is Ok ==> final(self).spec_root().post_state == *game,
            r is Ok && old(self).spec_root().post_state == *game ==> final(self).spec_root() == old(
                self,
            ).spec_root(),
            r is Ok && old(self).spec_root().post_state != *game ==> exists|e: ActionNode<G>, i: int|
                expands_to(old(self).spec_root(), e, old(self).spec_model()) && first_match(e.children@, *game, i)
                    && final(self).spec_root() == e.children@[i],
            r is Ok ==> reconciles_to(old(self).spec_root(), *game, final(self).spec_root(), old(self).spec_model()),
            final(self).spec_root().n <= old(self).spec_root().n,
            final(self).spec_model() == old(self).spec_model(),
            final(self).spec_temperature() == old(self).spec_temperature(),
            final(self).spec_traverse_iter() == old(self).spec_traverse_iter(),
            final(self).spec_examples() == old(self).spec_examples(),
    {
        proof {
            use_type_invariant(&*self);
        }
        if self.root.post_state.same_state(game) {
            return Ok(());
        }
        if self.root.post_state.is_over() {
            return Err(PlayerError::ReconciliationMismatch);
        }
        let mut root = ActionNode::placeholder(self.root.post_state);
        self.swap_root(&mut root);
        let ghost start = root;
        root.expand(&self.model);
        let ghost expanded = root;
        proof {
            let legal = start.post_state.legal();
            assert(expanded.children@.len() == legal.len());
            assert forall|j: int| 0 <= j < legal.len() implies #[trigger] expanded.children@[j].post_state
                == start.post_state.after(legal[j]) by {}
        }
        match root.find_child(game) {
            Some(i) => {
                proof {
                    root.lemma_child_wf(i as int);
                    assert(expands_to(start, expanded, self.model) && first_match(expanded.children@, *game, i as int));
                }
                let mut child = root.children.remove(i);
                self.swap_root(&mut child);
                Ok(())
            },
            None => {
                proof {
                    let legal = start.post_state.legal();
                    assert forall|j: int| 0 <= j < legal.len() implies #[trigger] start.post_state.after(
                        legal[j],
                    ) != *game by {
                        assert(expanded.children@[j].post_state == start.post_state.after(legal[j]));
                    }
                }
                self.swap_root(&mut root);
                Err(PlayerError::ReconciliationMismatch)
            },
        }
    }

    /// What `choose_move` does, from engine `old` to engine `new` with result `r`:
    /// - it fails with `ReconciliationMismatch` exactly when `game` is neither the
    ///   root's position nor one legal move after it (a driving loop that feeds such a
    ///   position has lost track of the game; the error leaves the choice between
    ///   stopping and starting afresh to the caller);
    /// - otherwise, with `rec` the reconciled root and `s` the tree the search leaves
    ///   from it, a training example of `s` is recorded when recording, and either
    ///   the move of child `i` of `s` is returned, `i` being a final choice, and that
    ///   child, with its counts and subtree, becomes the root; or `s` has no child and
    ///   `NoLegalMoves` is returned;
    /// - it succeeds whenever `game` goes on and has a legal move.
    pub open spec fn chooses_move(old: Self, new: Self, game: G, r: Result<G::Move, PlayerError>) -> bool {
        &&& (r == Err::<G::Move, PlayerError>(PlayerError::ReconciliationMismatch)) <==> !can_reconcile(
            old.spec_root(),
            game,
        )
        &&& new.spec_temperature() == old.spec_temperature()
        &&& new.spec_traverse_iter() == old.spec_traverse_iter()
        &&& new.spec_model() == old.spec_model()
        &&& !can_reconcile(old.spec_root(), game) ==> new.spec_examples() == old.spec_examples()
        &&& can_reconcile(old.spec_root(), game) ==> exists|rec: ActionNode<G>, s: ActionNode<G>|
            {
                &&& reconciles_to(old.spec_root(), game, rec, old.spec_model())
                &&& #[trigger] searched_to(
                    rec,
                    s,
                    old.spec_temperature() as int,
                    old.spec_model(),
                    search_passes(old.spec_traverse_iter(), rec.n),
                )
                &&& s.post_state == game
                &&& match old.spec_examples() {
                    None => new.spec_examples() is None,
                    Some(v) => {
                        &&& new.spec_examples() is Some
                        &&& new.spec_examples()->0.len() == v.len() + 1
                        &&& new.spec_examples()->0.subrange(0, v.len() as int) == v
                        &&& new.spec_examples()->0.last().position@ == game.encoded()
                        &&& new.spec_examples()->0.last().next_move_probs@ == s.example_moves()
                    },
                }
                &&& r is Ok ==> exists|i: int|
                    {
                        &&& #[trigger] s.is_final_choice(old.spec_temperature() as int, i)
                        &&& new.spec_root() == s.children@[i]
                        &&& s.children@[i].action == Some(r->Ok_0)
                    }
                &&& r is Err ==> {
                    &&& r->Err_0 == PlayerError::NoLegalMoves
                    &&& s.children@.len() == 0
                    &&& new.spec_root() == s
                }
            }
        &&& r is Ok ==> {
            &&& game.legal().contains(r->Ok_0)
            &&& new.spec_root().action == Some(r->Ok_0)
            &&& new.spec_root().post_state == game.after(r->Ok_0)
        }
        &&& can_reconcile(old.spec_root(), game) && !game.over() && game.legal().len() > 0 ==> r is Ok
        &&& can_reconcile(old.spec_root(), game) && (game.over() || game.legal().len() == 0) ==> r
            == Err::<G::Move, PlayerError>(PlayerError::NoLegalMoves)
    }

    /// Reconciles the root with `game`, runs the configured number of traversal
    /// passes, expands the root if it is still a leaf whose game goes on, records a
    /// training example of the root when recording, then commits to a child chosen
    /// by `best_child_visitcount`: it becomes the root, its siblings are discarded,
    /// and its move is returned. `chooses_move` states all of it.
    pub fn choose_move(&mut self, game: &G) -> (r: Result<G::Move, PlayerError>)
        ensures
            Self::chooses_move(*old(self), *final(self), *game, r),
    {
        let ghost start = *self;
        match self.reconcile(game) {
            Err(e) => {
                return Err(e);
            },
            Ok(()) => {},
        }
        proof {
            use_type_invariant(&*self);
        }
        let ghost rec = self.root;
        let room: u64 = MAX_VISITS - self.root.n;
        let passes: usize = if (self.traverse_iter as u64) <= room {
            self.traverse_iter
        } else {
            room as usize
        };
        self.traverse(passes);
        proof {
            use_type_invariant(&*self);
        }
        let ghost s0 = self.root;
        if self.root.children.len() == 0 && !self.root.post_state.is_over() {
            let mut root = ActionNode::placeholder(self.root.post_state);
            self.swap_root(&mut root);
            root.expand(&self.model);
            self.swap_root(&mut root);
        }
        proof {
            use_type_invariant(&*self);
        }
        let ghost s = self.root;
        assert(searched_to(rec, s, self.temperature as int, self.model, search_passes(self.traverse_iter, rec.n)));
        let ghost before = self.spec_examples();
        let recorded = self.take_examples();
        let updated = match recorded {
            Some(v) => {
                let mut list = v;
                let ex = self.root.to_unfinished_example();
                list.push(ex);
                Some(list)
            },
            None => None,
        };
        self.put_examples(updated);
        proof {
            if before is Some {
                assert(self.spec_examples()->0.subrange(0, before->0.len() as int) =~= before->0);
            }
        }
        proof {
            use_type_invariant(&*self);
        }
        let choice = self.root.best_child_visitcount(self.temperature);
        match choice {
            Some(i) => {
                let mut root = ActionNode::placeholder(self.root.post_state);
                self.swap_root(&mut root);
                proof {
                    root.lemma_child_wf(i as int);
                    assert(game.legal()[i as int] == root.post_state.legal()[i as int]);
                }
                let child = root.children.remove(i);
                let m = child.action.unwrap();
                let mut next = child;
                self.swap_root(&mut next);
                proof {
                    assert(reconciles_to(start.spec_root(), *game, rec, start.spec_model()));
                    assert(s.is_final_choice(self.temperature as int, i as int));
                }
                Ok(m)
            },
            None => {
                proof {
                    assert(reconciles_to(start.spec_root(), *game, rec, start.spec_model()));
                }
                Err(PlayerError::NoLegalMoves)
            },
        }
    }

    /// Exchanges the tree with `node`.
    fn swap_root(&mut self, node: &mut ActionNode<G>)
        requires
            old(node).wf(),
        ensures
            final(self).root == *old(node),
            *final(node) == old(self).root,
            final(node).wf(),
            final(self).temperature == old(self).temperature,
            final(self).temperature <= MAX_TEMPERATURE,
            final(self).traverse_iter == old(self).traverse_iter,
            final(self).train_examples == old(self).train_examples,
            final(self).model == old(self).model,
    {
        proof {
            use_type_invariant(&*self);
        }
        std::mem::swap(&mut self.root, node);
    }
}

} // verus!
