//! The search tree: nodes, their invariant, and the operations on one node.
//!
//! Values and priors are fixed-point integers: an evaluator reports a position's value
//! as an `i16` (`ONE` stands for a sure win of the first side, `-ONE` for a sure win
//! of the second) and each prior as a `u16` (`ONE` stands for probability 1). A node
//! keeps the sum of the values backed up through it, so its mean value is exact.
use vstd::prelude::*;

use crate::numeric::{
    isqrt, isqrt_spec, lemma_power_positive, lemma_weight_sum_zero, power, sample_weighted, visit_weight,
    weight_sum,
};
use crate::shared::{Game, PlayerId, MAX_MOVES};
use crate::train::UnfinishedTrainingExample;

verus! {

/// The largest visit count a node may reach.
pub const MAX_VISITS: u64 = 4294967295;

/// Added to mean values so that the exploitation term is never negative.
pub const VALUE_OFFSET: u64 = 32768;

/// Square roots in the exploration term are taken to this many parts of one.
pub const SQRT_SCALE: u64 = 65536;

/// The fixed-point unit of values and priors.
pub const ONE: u16 = 10000;

/// The largest temperature an engine accepts, so that visit counts raised to it,
/// summed over all children, stay within 128 bits.
pub const MAX_TEMPERATURE: u32 = 3;

/// What an evaluator says of a position: a prior for every move of the move space
/// (by move index) and the position's value, for the first side.
pub struct Evaluation {
    pub policy: Vec<u16>,
    pub value: i16,
}

/// The inference port: maps a position to a policy and a value.
///
/// An evaluator is a function of the position: `spec_policy` and `spec_value` name
/// what it returns. The search assumes nothing else of the result: a policy shorter
/// than the move space reads as zero beyond its end.
pub trait Evaluator<G: Game> {
    /// The priors given at `state`, by move index. An evaluator written in plain
    /// Rust keeps this default, which says no more than that the priors depend on
    /// the evaluator and the position alone.
    closed spec fn spec_policy(&self, state: G) -> Seq<u16> {
        arbitrary()
    }

    /// The value given at `state`; the default says as little as `spec_policy`'s.
    closed spec fn spec_value(&self, state: G) -> i16 {
        arbitrary()
    }

    fn evaluate(&self, state: &G) -> (r: Evaluation)
        ensures
            r.policy@ == self.spec_policy(*state),
            r.value == self.spec_value(*state),
    ;
}

/// An evaluator with no knowledge: every move gets the same prior,
/// `ONE / move count`, and every position the value zero.
pub struct UniformEvaluator;

impl<G: Game> Evaluator<G> for UniformEvaluator {
    open spec fn spec_policy(&self, state: G) -> Seq<u16> {
        Seq::new(G::move_count(), |i: int| (ONE as nat / G::move_count()) as u16)
    }

    open spec fn spec_value(&self, state: G) -> i16 {
        0
    }

    fn evaluate(&self, state: &G) -> (r: Evaluation) {
        let total = G::total_moves();
        let share: u16 = if total == 0 {
            0
        } else {
            (ONE as usize / total) as u16
        };
        let mut policy: Vec<u16> = Vec::new();
        let mut i: usize = 0;
        while i < total
            invariant
                i <= total,
                total == G::move_count(),
                total > 0 ==> share == ONE as nat / G::move_count(),
                policy@.len() == i,
                forall|j: int| 0 <= j < i ==> policy@[j] == share,
            decreases total - i,
        {
            policy.push(share);
            i = i + 1;
        }
        assert(policy@ =~= self.spec_policy(*state));
        Evaluation { policy, value: 0 }
    }
}

/// One explored position of the search tree.
pub struct ActionNode<G: Game> {
    /// The move that led here from the parent; `None` at the root.
    pub action: Option<G::Move>,
    /// The position after `action`.
    pub post_state: G,
    /// The sum of the values backed up through this node.
    pub total: i64,
    /// How many traversal passes went through this node.
    pub n: u64,
    /// The evaluator's value of `post_state`.
    pub v: i16,
    /// The evaluator's priors at `post_state`, by move index.
    pub p: Vec<u16>,
    /// One child per legal move once expanded; empty before.
    pub children: Vec<ActionNode<G>>,
}

impl<G: Game> ActionNode<G> {
    /// The prior this node's own policy gives to the move that led to it.
    pub open spec fn spec_prior(&self) -> int {
        match self.action {
            Some(m) => if G::index_of(m) < self.p@.len() {
                self.p@[G::index_of(m) as int] as int
            } else {
                0
            },
            None => 0,
        }
    }

    /// The mean value, seen from `mover`'s side, shifted by `VALUE_OFFSET`
    /// (an unvisited node counts as value zero).
    pub open spec fn spec_exploit(&self, mover: PlayerId) -> int {
        if self.n == 0 {
            VALUE_OFFSET as int
        } else if mover == PlayerId::First {
            (VALUE_OFFSET * self.n + self.total) / (self.n as int)
        } else {
            (VALUE_OFFSET * self.n - self.total) / (self.n as int)
        }
    }

    /// `c * prior * sqrt(parent visits) / (1 + n)`, with the root `rt` taken in
    /// `SQRT_SCALE` parts of one.
    pub open spec fn spec_explore(&self, c: int, rt: int) -> int {
        (c * self.spec_prior() * rt) / (SQRT_SCALE * (1 + self.n))
    }

    /// The PUCT score of this node as a child of a node where `mover` is to move.
    pub open spec fn spec_score(&self, mover: PlayerId, c: int, rt: int) -> int {
        self.spec_exploit(mover) + self.spec_explore(c, rt)
    }

    /// The square root of this node's visit count, in `SQRT_SCALE` parts of one.
    pub open spec fn root_term(&self) -> nat {
        isqrt_spec((self.n * (SQRT_SCALE * SQRT_SCALE)) as nat)
    }

    /// The PUCT score of child `i` with exploration constant `c`.
    pub open spec fn child_score(&self, i: int, c: int) -> int {
        self.children@[i].spec_score(self.post_state.mover(), c, self.root_term() as int)
    }

    /// Child `i` has the highest score, and no child before it scores as high.
    pub open spec fn is_traversal_choice(&self, i: int, c: int) -> bool {
        &&& 0 <= i < self.children@.len()
        &&& forall|j: int| 0 <= j < self.children@.len() ==> self.child_score(j, c) <= self.child_score(i, c)
        &&& forall|j: int| 0 <= j < i ==> self.child_score(j, c) < self.child_score(i, c)
    }

    /// The visit count fits and the value sum stays within what the visits allow.
    pub open spec fn value_bounded(&self) -> bool {
        &&& self.n <= MAX_VISITS
        &&& -(VALUE_OFFSET * self.n) <= self.total <= VALUE_OFFSET * self.n
    }

    /// Once expanded, the children are exactly the legal moves, in order.
    pub open spec fn children_match(&self) -> bool {
        self.children@.len() > 0 ==> {
            &&& self.children@.len() == self.post_state.legal().len()
            &&& forall|i: int|
                0 <= i < self.children@.len() ==> {
                    &&& (#[trigger] self.children@[i]).action == Some(self.post_state.legal()[i])
                    &&& self.children@[i].post_state == self.post_state.after(self.post_state.legal()[i])
                }
        }
    }

    /// `v` and `p` are what `model` gives at this node's position.
    pub open spec fn evaluated_by<E: Evaluator<G>>(&self, model: E) -> bool {
        &&& self.v == model.spec_value(self.post_state)
        &&& self.p@ == model.spec_policy(self.post_state)
    }

    /// The tree invariant, at this node and below.
    pub open spec fn wf(&self) -> bool
        decreases self,
    {
        &&& self.value_bounded()
        &&& self.children@.len() <= MAX_MOVES
        &&& (self.post_state.over() ==> self.children@.len() == 0)
        &&& self.children_match()
        &&& visit_sum(self.children@) <= self.n
        &&& forall|i: int|
            0 <= i < self.children@.len() ==> (#[trigger] self.children@[i]).wf()
                && self.children@[i].n <= self.n
    }

    /// What the tree invariant gives of one child.
    pub proof fn lemma_child_wf(&self, i: int)
        requires
            self.wf(),
            0 <= i < self.children@.len(),
        ensures
            self.children@[i].wf(),
            self.children@[i].value_bounded(),
            self.children@[i].n <= self.n,
            self.children@[i].children@.len() <= MAX_MOVES,
    {
        assert(self.children@[i].wf());
    }

    fn prior(&self) -> (r: u16)
        ensures
            r as int == self.spec_prior(),
    {
        match self.action {
            Some(m) => {
                let idx = G::move_index(m);
                if idx < self.p.len() {
                    self.p[idx]
                } else {
                    0
                }
            },
            None => 0,
        }
    }

    fn score(&self, mover: PlayerId, c: u32, rt: u64) -> (r: u128)
        requires
            self.value_bounded(),
            rt < 4294967296,
        ensures
            r as int == self.spec_score(mover, c as int, rt as int),
    {
        let exploit: u64 = if self.n == 0 {
            VALUE_OFFSET
        } else {
            assert(VALUE_OFFSET * self.n <= 32768 * 4294967295) by (nonlinear_arith)
                requires
                    self.n <= 4294967295,
            ;
            let base: i64 = (VALUE_OFFSET * self.n) as i64;
            let num: i64 = if mover == PlayerId::First {
                base + self.total
            } else {
                base - self.total
            };
            (num as u64) / self.n
        };
        let pr = self.prior();
        assert((c as int) * (pr as int) * (rt as int) < 4294967296 * 65536 * 4294967296)
            by (nonlinear_arith)
            requires
                c < 4294967296,
                pr < 65536,
                rt < 4294967296,
        ;
        assert((c as int) * (pr as int) < 4294967296 * 65536) by (nonlinear_arith)
            requires
                c < 4294967296,
                pr < 65536,
        ;
        let cp: u128 = (c as u128) * (pr as u128);
        let num: u128 = cp * (rt as u128);
        let den: u128 = (SQRT_SCALE as u128) * (1 + self.n as u128);
        let explore: u128 = num / den;
        exploit as u128 + explore
    }

    /// The child to descend into during a traversal pass: the first child of highest
    /// PUCT score, `None` when there is no child. The score is the child's mean value
    /// for the side to move here plus
    /// `temperature * prior * sqrt(visits here) / (1 + child visits)`.
    pub fn best_child_traversal(&self, temperature: u32) -> (r: Option<usize>)
        requires
            self.wf(),
        ensures
            r is None <==> self.children@.len() == 0,
            r is Some ==> self.is_traversal_choice(r->0 as int, temperature as int),
    {
        if self.children.len() == 0 {
            return None;
        }
        assert(self.n * (SQRT_SCALE * SQRT_SCALE) < 4294967296 * 4294967296) by (nonlinear_arith)
            requires
                self.n <= 4294967295,
        ;
        let rt = isqrt(self.n * (SQRT_SCALE * SQRT_SCALE));
        proof {
            self.lemma_child_wf(0);
        }
        let mover = self.post_state.current_player();
        let mut best: usize = 0;
        let mut best_score: u128 = self.children[0].score(mover, temperature, rt);
        let mut i: usize = 1;
        while i < self.children.len()
            invariant
                self.wf(),
                self.children@.len() > 0,
                1 <= i <= self.children@.len(),
                best < i,
                rt == self.root_term(),
                rt < 4294967296,
                mover == self.post_state.mover(),
                best_score as int == self.child_score(best as int, temperature as int),
                forall|j: int| 0 <= j < i ==> self.child_score(j, temperature as int) <= best_score,
                forall|j: int| 0 <= j < best ==> self.child_score(j, temperature as int) < best_score,
            decreases self.children@.len() - i,
        {
            proof {
                self.lemma_child_wf(i as int);
            }
            let s = self.children[i].score(mover, temperature, rt);
            if s > best_score {
                best = i;
                best_score = s;
            }
            i = i + 1;
        }
        Some(best)
    }
}

/// The visit counts of `s`, summed.
pub open spec fn visit_sum<G: Game>(s: Seq<ActionNode<G>>) -> nat
    decreases s.len(),
{
    if s.len() == 0 {
        0
    } else {
        visit_sum(s.drop_last()) + (s.last().n as nat)
    }
}

proof fn lemma_visit_sum_zero<G: Game>(s: Seq<ActionNode<G>>)
    requires
        forall|i: int| 0 <= i < s.len() ==> (#[trigger] s[i]).n == 0,
    ensures
        visit_sum(s) == 0,
    decreases s.len(),
{
    if s.len() > 0 {
        assert(s.last() == s[s.len() - 1]);
        assert forall|i: int| 0 <= i < s.drop_last().len() implies (#[trigger] s.drop_last()[i]).n == 0 by {
            assert(s.drop_last()[i] == s[i]);
        }
        lemma_visit_sum_zero(s.drop_last());
    }
}

proof fn lemma_visit_sum_bump<G: Game>(s: Seq<ActionNode<G>>, i: int, x: ActionNode<G>)
    requires
        0 <= i < s.len(),
        x.n == s[i].n + 1,
    ensures
        visit_sum(s.update(i, x)) == visit_sum(s) + 1,
    decreases s.len(),
{
    let t = s.update(i, x);
    if i == s.len() - 1 {
        assert(t.drop_last() =~= s.drop_last());
    } else {
        assert(t.drop_last() =~= s.drop_last().update(i, x));
        lemma_visit_sum_bump(s.drop_last(), i, x);
    }
}

/// `new` is `old` after `k` traversal passes with exploration constant `c`.
pub open spec fn passes_to<G: Game, E: Evaluator<G>>(
    old: ActionNode<G>,
    new: ActionNode<G>,
    c: int,
    model: E,
    k: nat,
) -> bool
    decreases k,
{
    if k == 0 {
        new == old
    } else {
        exists|mid: ActionNode<G>, v: i16|
            passes_to(old, mid, c, model, (k - 1) as nat) && #[trigger] pass_to(mid, new, c, model, v)
    }
}

/// The index `is_traversal_choice` picks out (unique by
/// `lemma_traversal_choice_unique`).
pub open spec fn traversal_index<G: Game>(node: ActionNode<G>, c: int) -> int {
    choose|i: int| node.is_traversal_choice(i, c)
}

/// At most one child meets the traversal choice, so repeated selections on the same
/// node with the same constant return the same child.
pub proof fn lemma_traversal_choice_unique<G: Game>(node: ActionNode<G>, c: int, i: int, j: int)
    requires
        node.is_traversal_choice(i, c),
        node.is_traversal_choice(j, c),
    ensures
        i == j,
{
    if i < j {
        assert(node.child_score(i, c) < node.child_score(j, c));
    }
    if j < i {
        assert(node.child_score(j, c) < node.child_score(i, c));
    }
}

/// `children` are what expanding `old` adds: one fresh, unvisited, unexpanded child
/// per legal move, in order, each holding what `model` says of its position. The
/// legal moves are distinct, so the children's moves are too.
pub open spec fn expanded_children<G: Game, E: Evaluator<G>>(
    old: ActionNode<G>,
    children: Seq<ActionNode<G>>,
    model: E,
) -> bool {
    &&& old.post_state.legal().no_duplicates()
    &&& children.len() == old.post_state.legal().len()
    &&& forall|i: int|
        0 <= i < children.len() ==> {
            &&& (#[trigger] children[i]).action == Some(old.post_state.legal()[i])
            &&& children[i].post_state == old.post_state.after(old.post_state.legal()[i])
            &&& children[i].n == 0
            &&& children[i].total == 0
            &&& children[i].children@.len() == 0
            &&& children[i].evaluated_by(model)
        }
}

/// `new` is what `expand` makes of `old`: nothing changes when `old` already has
/// children or its position has no legal move; otherwise the children of
/// `expanded_children` are added and nothing else changes.
pub open spec fn expands_to<G: Game, E: Evaluator<G>>(old: ActionNode<G>, new: ActionNode<G>, model: E) -> bool {
    if old.children@.len() > 0 || old.post_state.legal().len() == 0 {
        new == old
    } else {
        &&& new.action == old.action
        &&& new.post_state == old.post_state
        &&& new.total == old.total
        &&& new.n == old.n
        &&& new.v == old.v
        &&& new.p == old.p
        &&& expanded_children(old, new.children@, model)
    }
}

/// `new` is `old` after one traversal pass with exploration constant `c` that backs
/// up `v`: every node on the path gains one visit and `v`; the path follows
/// `is_traversal_choice` down to a node without children, whose own value is `v`
/// and which is expanded unless its position is finished or has no legal move;
/// every node off the path is unchanged.
pub open spec fn pass_to<G: Game, E: Evaluator<G>>(
    old: ActionNode<G>,
    new: ActionNode<G>,
    c: int,
    model: E,
    v: i16,
) -> bool
    decreases old,
{
    &&& new.action == old.action
    &&& new.post_state == old.post_state
    &&& new.v == old.v
    &&& new.p == old.p
    &&& new.n == old.n + 1
    &&& new.total == old.total + v
    &&& if old.children@.len() == 0 {
        &&& v == old.v
        &&& if old.post_state.over() || old.post_state.legal().len() == 0 {
            new.children == old.children
        } else {
            expanded_children(old, new.children@, model)
        }
    } else {
        let i = traversal_index(old, c);
        &&& old.is_traversal_choice(i, c)
        &&& new.children@.len() == old.children@.len()
        &&& forall|j: int| 0 <= j < old.children@.len() && j != i ==> new.children@[j] == old.children@[j]
        &&& 0 <= i < old.children@.len()
        &&& pass_to(old.children@[i], new.children@[i], c, model, v)
    }
}

/// Expanding a node a second time changes nothing.
pub proof fn lemma_expand_idempotent<G: Game, E: Evaluator<G>>(
    a: ActionNode<G>,
    b: ActionNode<G>,
    c: ActionNode<G>,
    model: E,
)
    requires
        expands_to(a, b, model),
        expands_to(b, c, model),
    ensures
        c == b,
{
}

impl<G: Game> ActionNode<G> {
    /// A fresh, unvisited node for `state`, reached by `action`, with the evaluator's
    /// verdict on it.
    pub fn new_leaf<E: Evaluator<G>>(action: Option<G::Move>, state: G, model: &E) -> (r: ActionNode<G>)
        ensures
            r.action == action,
            r.post_state == state,
            r.n == 0,
            r.total == 0,
            r.children@.len() == 0,
            r.evaluated_by(*model),
            r.wf(),
    {
        let e = model.evaluate(&state);
        ActionNode { action, post_state: state, total: 0, n: 0, v: e.value, p: e.policy, children: Vec::new() }
    }

    /// Adds one child per legal move, each evaluated once; does nothing when the node
    /// already has children.
    pub fn expand<E: Evaluator<G>>(&mut self, model: &E)
        requires
            old(self).wf(),
            !old(self).post_state.over(),
        ensures
            expands_to(*old(self), *final(self), *model),
            final(self).wf(),
    {
        if self.children.len() > 0 {
            return;
        }
        let moves = self.post_state.legal_moves();
        if moves.len() == 0 {
            return;
        }
        let ghost start = *self;
        let mut i: usize = 0;
        while i < moves.len()
            invariant
                start.children@.len() == 0,
                !start.post_state.over(),
                start.wf(),
                moves@ == start.post_state.legal(),
                moves@.len() <= MAX_MOVES,
                moves@.no_duplicates(),
                i <= moves@.len(),
                self.action == start.action,
                self.post_state == start.post_state,
                self.total == start.total,
                self.n == start.n,
                self.v == start.v,
                self.p == start.p,
                self.children@.len() == i,
                forall|j: int|
                    0 <= j < i ==> {
                        &&& (#[trigger] self.children@[j]).action == Some(moves@[j])
                        &&& self.children@[j].post_state == start.post_state.after(moves@[j])
                        &&& self.children@[j].n == 0
                        &&& self.children@[j].total == 0
                        &&& self.children@[j].children@.len() == 0
                        &&& self.children@[j].evaluated_by(*model)
                        &&& self.children@[j].wf()
                    },
            decreases moves@.len() - i,
        {
            let m = moves[i];
            let mut sub = self.post_state;
            proof {
                assert(sub.legal().contains(m)) by {
                    assert(sub.legal()[i as int] == m);
                }
            }
            sub.make_move(m);
            let child = ActionNode::new_leaf(Some(m), sub, model);
            self.children.push(child);
            i = i + 1;
        }
        proof {
            assert(self.children_match());
            assert(self.value_bounded());
            lemma_visit_sum_zero(self.children@);
        }
    }
}

/// No finished position in the tree has children.
pub open spec fn terminal_leaves_unexpanded<G: Game>(node: ActionNode<G>) -> bool
    decreases node,
{
    &&& (node.post_state.over() ==> node.children@.len() == 0)
    &&& forall|i: int|
        0 <= i < node.children@.len() ==> terminal_leaves_unexpanded(#[trigger] node.children@[i])
}

/// A well-formed tree never holds an expanded finished position.
pub proof fn lemma_terminal_leaves_unexpanded<G: Game>(node: ActionNode<G>)
    requires
        node.wf(),
    ensures
        terminal_leaves_unexpanded(node),
    decreases node,
{
    assert forall|i: int| 0 <= i < node.children@.len() implies terminal_leaves_unexpanded(
        #[trigger] node.children@[i],
    ) by {
        node.lemma_child_wf(i);
        lemma_terminal_leaves_unexpanded(node.children@[i]);
    }
}

impl<G: Game> ActionNode<G> {
    /// One traversal pass below this node: descends by PUCT choice to a node without
    /// children, expands it unless its position is finished, and adds that node's
    /// value to every node on the way, this one and the leaf included.
    /// Returns the value backed up.
    pub fn traverse_pass<E: Evaluator<G>>(&mut self, temperature: u32, model: &E) -> (r: i16)
        requires
            old(self).wf(),
            old(self).n < MAX_VISITS,
        ensures
            final(self).wf(),
            final(self).n == old(self).n + 1,
            final(self).total == old(self).total + r,
            final(self).action == old(self).action,
            final(self).post_state == old(self).post_state,
            final(self).children@.len() == 0 ==> old(self).post_state.over()
                || old(self).post_state.legal().len() == 0,
            pass_to(*old(self), *final(self), temperature as int, *model, r),
        decreases *old(self),
    {
        if self.children.len() == 0 {
            let value = self.v;
            let ghost start = *self;
            if !self.post_state.is_over() {
                self.expand(model);
            }
            assert(VALUE_OFFSET * self.n + VALUE_OFFSET == VALUE_OFFSET * (self.n + 1)) by (nonlinear_arith);
            self.total = self.total + value as i64;
            self.n = self.n + 1;
            proof {
                assert forall|i: int| 0 <= i < self.children@.len() implies (#[trigger] self.children@[i]).wf()
                    && self.children@[i].n <= self.n by {
                    assert(self.children@[i].wf());
                }
                if start.post_state.over() || start.post_state.legal().len() == 0 {
                    assert(self.children == start.children);
                }
            }
            value
        } else {
            let i = self.best_child_traversal(temperature).unwrap();
            proof {
                self.lemma_child_wf(i as int);
            }
            let ghost before = *self;
            let value = self.children[i].traverse_pass(temperature, model);
            assert(VALUE_OFFSET * self.n + VALUE_OFFSET == VALUE_OFFSET * (self.n + 1)) by (nonlinear_arith);
            self.total = self.total + value as i64;
            self.n = self.n + 1;
            proof {
                assert forall|j: int| 0 <= j < self.children@.len() implies (#[trigger] self.children@[j]).wf()
                    && self.children@[j].n <= self.n by {
                    if j != i {
                        before.lemma_child_wf(j);
                    }
                }
                assert(self.children_match()) by {
                    assert forall|j: int| 0 <= j < self.children@.len() implies
                        (#[trigger] self.children@[j]).action == before.children@[j].action
                        && self.children@[j].post_state == before.children@[j].post_state by {}
                }
                assert(self.children@ == before.children@.update(i as int, self.children@[i as int]));
                lemma_visit_sum_bump(before.children@, i as int, self.children@[i as int]);
                let k = traversal_index(before, temperature as int);
                lemma_traversal_choice_unique(before, temperature as int, k, i as int);
            }
            value
        }
    }
}

impl<G: Game> ActionNode<G> {
    /// Child `i` has the most visits, and no child before it has as many.
    pub open spec fn is_greedy_choice(&self, i: int) -> bool {
        &&& 0 <= i < self.children@.len()
        &&& forall|j: int| 0 <= j < self.children@.len() ==> self.children@[j].n <= self.children@[i].n
        &&& forall|j: int| 0 <= j < i ==> self.children@[j].n < self.children@[i].n
    }

    /// Child `i` may be the move to play at temperature `t`: the first most visited
    /// child when `t` is zero or no child has been visited, otherwise a visited one
    /// (sampled with weight `visits ^ t`).
    pub open spec fn is_final_choice(&self, t: int, i: int) -> bool {
        &&& 0 <= i < self.children@.len()
        &&& (t == 0 || !self.any_child_visited()) ==> self.is_greedy_choice(i)
        &&& (t > 0 && self.any_child_visited()) ==> self.children@[i].n > 0
    }

    /// Each child's move with its visit count, in order.
    pub open spec fn example_moves(&self) -> Seq<(G::Move, u64)> {
        Seq::new(self.children@.len(), |i: int| (self.post_state.legal()[i], self.children@[i].n))
    }

    /// Some child has been visited.
    pub open spec fn any_child_visited(&self) -> bool {
        exists|j: int| 0 <= j < self.children@.len() && self.children@[j].n > 0
    }

    fn most_visited_child(&self) -> (r: usize)
        requires
            self.children@.len() > 0,
        ensures
            self.is_greedy_choice(r as int),
    {
        let mut best: usize = 0;
        let mut i: usize = 1;
        while i < self.children.len()
            invariant
                1 <= i <= self.children@.len(),
                best < i,
                forall|j: int| 0 <= j < i ==> self.children@[j].n <= self.children@[best as int].n,
                forall|j: int| 0 <= j < best ==> self.children@[j].n < self.children@[best as int].n,
            decreases self.children@.len() - i,
        {
            if self.children[i].n > self.children[best].n {
                best = i;
            }
            i = i + 1;
        }
        best
    }

    /// The move to play once the search is done: sampled with weight
    /// `visits ^ temperature`, or the first most visited child when the temperature
    /// is zero or no child has been visited. `None` when there is no child.
    pub fn best_child_visitcount(&self, temperature: u32) -> (r: Option<usize>)
        requires
            self.wf(),
            temperature <= MAX_TEMPERATURE,
        ensures
            r is None <==> self.children@.len() == 0,
            r is Some ==> self.is_final_choice(temperature as int, r->0 as int),
    {
        if self.children.len() == 0 {
            return None;
        }
        if temperature == 0 {
            return Some(self.most_visited_child());
        }
        let mut weights: Vec<u128> = Vec::new();
        let mut i: usize = 0;
        while i < self.children.len()
            invariant
                self.wf(),
                0 < temperature <= MAX_TEMPERATURE,
                i <= self.children@.len(),
                self.children@.len() <= MAX_MOVES,
                weights@.len() == i,
                forall|j: int| 0 <= j < i ==> weights@[j] == power(#[trigger] self.children@[j].n as nat, temperature as nat),
                weight_sum(weights@) <= i * 79228162514264337593543950336,
            decreases self.children@.len() - i,
        {
            proof {
                self.lemma_child_wf(i as int);
            }
            let w = visit_weight(self.children[i].n, temperature);
            let ghost prev = weights@;
            weights.push(w);
            proof {
                assert(weights@.drop_last() =~= prev);
            }
            i = i + 1;
        }
        assert(weight_sum(weights@) <= u128::MAX) by (nonlinear_arith)
            requires
                weight_sum(weights@) <= i * 79228162514264337593543950336,
                i <= 65536,
        ;
        proof {
            lemma_weight_sum_zero(weights@);
            assert forall|j: int| 0 <= j < weights@.len() implies (weights@[j] > 0 <==> self.children@[j].n > 0) by {
                lemma_power_positive(self.children@[j].n as nat, temperature as nat);
            }
        }
        match sample_weighted(&weights) {
            Some(k) => Some(k),
            None => Some(self.most_visited_child()),
        }
    }
}

impl<G: Game> ActionNode<G> {
    /// The first child whose position is `game`.
    pub fn find_child(&self, game: &G) -> (r: Option<usize>)
        ensures
            r is Some ==> first_match(self.children@, *game, r->0 as int),
            r is None ==> forall|j: int| 0 <= j < self.children@.len() ==> #[trigger] self.children@[j].post_state != *game,
    {
        let mut i: usize = 0;
        while i < self.children.len()
            invariant
                i <= self.children@.len(),
                forall|j: int| 0 <= j < i ==> #[trigger] self.children@[j].post_state != *game,
            decreases self.children@.len() - i,
        {
            if self.children[i].post_state.same_state(game) {
                return Some(i);
            }
            i = i + 1;
        }
        None
    }

    /// An unvisited, unevaluated node for `state`.
    pub(crate) fn placeholder(state: G) -> (r: ActionNode<G>)
        ensures
            r.wf(),
            r.post_state == state,
    {
        ActionNode { action: None, post_state: state, total: 0, n: 0, v: 0, p: Vec::new(), children: Vec::new() }
    }

    /// The position and the visit count of every child's move, for training.
    pub fn to_unfinished_example(&self) -> (r: UnfinishedTrainingExample<G>)
        requires
            self.wf(),
        ensures
            r.position@ == self.post_state.encoded(),
            r.next_move_probs@ == self.example_moves(),
    {
        let position = self.post_state.to_nn_input();
        let mut visits: Vec<(G::Move, u64)> = Vec::new();
        let mut i: usize = 0;
        while i < self.children.len()
            invariant
                self.wf(),
                i <= self.children@.len(),
                visits@.len() == i,
                forall|j: int|
                    0 <= j < i ==> #[trigger] visits@[j] == (
                        self.post_state.legal()[j],
                        self.children@[j].n,
                    ),
            decreases self.children@.len() - i,
        {
            let child = &self.children[i];
            let m = child.action.unwrap();
            visits.push((m, child.n));
            i = i + 1;
        }
        assert(visits@ =~= self.example_moves());
        UnfinishedTrainingExample::new(position, visits)
    }
}

/// Child `i` is the first child whose position is `game`.
pub open spec fn first_match<G: Game>(children: Seq<ActionNode<G>>, game: G, i: int) -> bool {
    &&& 0 <= i < children.len()
    &&& children[i].post_state == game
    &&& forall|j: int| 0 <= j < i ==> children[j].post_state != game
}

} // verus!
