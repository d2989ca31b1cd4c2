use rust_games::mcts::{ActionNode, Evaluation, Evaluator, MCTS};
use rust_games::{
    finish_all, new_model_won, winner_value, AlphaZeroPlayer, Game, GameResult, GamesHolder,
    Player, PlayerError, PlayerId, TTTMove, TicTacToe, TrainingExample, UniformEvaluator,
    UnfinishedTrainingExample,
};

fn play(cells: &[(usize, usize)]) -> TicTacToe {
    let mut g = TicTacToe::new();
    for &(x, y) in cells {
        g.make_move(TTTMove::new(x, y));
    }
    g
}

/// Prefers the center: a prior of 5000 on index 4, 625 elsewhere, value 0.
struct CenterEvaluator;

impl Evaluator<TicTacToe> for CenterEvaluator {
    fn evaluate(&self, _state: &TicTacToe) -> Evaluation {
        let mut policy = vec![625u16; 9];
        policy[4] = 5000;
        Evaluation { policy, value: 0 }
    }
}

#[test]
fn uniform_search_counts_every_pass_at_the_root() {
    let mut engine = MCTS::new(TicTacToe::new(), UniformEvaluator, 1, false, 50);
    engine.traverse(50);
    assert_eq!(engine.root().n, 50);
    assert_eq!(engine.root().children.len(), 9);
    let child_visits: u64 = engine.root().children.iter().map(|c| c.n).sum();
    assert_eq!(child_visits, 49);
}

#[test]
fn uniform_search_opens_with_a_legal_move() {
    let start = TicTacToe::new();
    let mut engine = MCTS::new(start, UniformEvaluator, 1, false, 50);
    let m = engine.choose_move(&start).unwrap();
    assert!(m.x() < 3 && m.y() < 3);
    assert_eq!(engine.root().action, Some(m));
    let mut expected = start;
    expected.make_move(m);
    assert!(engine.root().post_state.same_state(&expected));
}

#[test]
fn visit_count_equals_number_of_passes() {
    for k in [0usize, 1, 2, 7, 30] {
        let mut engine = MCTS::new(TicTacToe::new(), UniformEvaluator, 1, false, 0);
        engine.traverse(k);
        assert_eq!(engine.root().n, k as u64);
    }
}

#[test]
fn traversal_tie_break_takes_lowest_index() {
    let mut engine = MCTS::new(TicTacToe::new(), UniformEvaluator, 1, false, 0);
    engine.traverse(1);
    let root = engine.root();
    assert_eq!(root.best_child_traversal(1), Some(0));
    assert_eq!(root.best_child_traversal(1), Some(0));
    assert_eq!(root.best_child_traversal(0), Some(0));
}

#[test]
fn traversal_prefers_higher_prior() {
    let mut engine = MCTS::new(TicTacToe::new(), CenterEvaluator, 1, false, 0);
    engine.traverse(2);
    let root = engine.root();
    assert_eq!(root.best_child_traversal(1), Some(4));
    assert_eq!(root.children[4].n, 1);
}

#[test]
fn expanding_twice_changes_nothing() {
    let mut node = ActionNode::new_leaf(None, TicTacToe::new(), &UniformEvaluator);
    node.expand(&UniformEvaluator);
    assert_eq!(node.children.len(), 9);
    let states: Vec<TicTacToe> = node.children.iter().map(|c| c.post_state).collect();
    node.expand(&UniformEvaluator);
    assert_eq!(node.children.len(), 9);
    for (c, s) in node.children.iter().zip(states.iter()) {
        assert!(c.post_state.same_state(s));
        assert_eq!(c.n, 0);
        assert_eq!(c.total, 0);
        assert!(c.children.is_empty());
    }
}

#[test]
fn finished_root_is_never_expanded() {
    // X takes the top row.
    let won = play(&[(0, 0), (1, 0), (0, 1), (1, 1), (0, 2)]);
    assert!(won.is_over());
    let mut engine = MCTS::new(won, UniformEvaluator, 1, false, 0);
    engine.traverse(5);
    assert_eq!(engine.root().n, 5);
    assert!(engine.root().children.is_empty());
}

#[test]
fn finished_leaves_stay_leaves() {
    // One move from a win for X: (0, 2) completes the line x = 0.
    let g = play(&[(0, 0), (1, 0), (0, 1), (1, 1)]);
    let mut engine = MCTS::new(g, UniformEvaluator, 1, false, 0);
    engine.traverse(40);
    for child in engine.root().children.iter() {
        if child.post_state.is_over() {
            assert!(child.children.is_empty());
        }
    }
}

#[test]
fn reconcile_promotes_the_matching_child() {
    let start = TicTacToe::new();
    let mut engine = MCTS::new(start, UniformEvaluator, 1, false, 10);
    engine.traverse(3);
    let target = play(&[(1, 1)]);
    let expected_visits = engine
        .root()
        .children
        .iter()
        .find(|c| c.post_state.same_state(&target))
        .unwrap()
        .n;
    assert_eq!(engine.reconcile(&target), Ok(()));
    assert!(engine.root().post_state.same_state(&target));
    assert_eq!(engine.root().n, expected_visits);
    assert_eq!(engine.root().action, Some(TTTMove::new(1, 1)));
    // Only the promoted subtree remains: its children are replies to the center.
    for c in engine.root().children.iter() {
        assert_eq!(c.post_state.board[4], rust_games::TTTState::X);
    }
}

#[test]
fn reconcile_rejects_a_distant_position() {
    let start = TicTacToe::new();
    let mut engine = MCTS::new(start, UniformEvaluator, 1, false, 10);
    let far = play(&[(1, 1), (0, 0)]);
    assert_eq!(engine.reconcile(&far), Err(PlayerError::ReconciliationMismatch));
    assert_eq!(engine.choose_move(&far), Err(PlayerError::ReconciliationMismatch));
}

#[test]
fn full_board_has_no_legal_move() {
    // X O X / X O O / O X X, no line.
    let full = play(&[
        (0, 0),
        (0, 1),
        (0, 2),
        (1, 1),
        (1, 0),
        (1, 2),
        (2, 1),
        (2, 0),
        (2, 2),
    ]);
    assert!(full.legal_moves().is_empty());
    let mut engine = MCTS::new(full, UniformEvaluator, 1, false, 20);
    engine.traverse(3);
    assert_eq!(engine.root().best_child_visitcount(1), None);
    assert_eq!(engine.choose_move(&full), Err(PlayerError::NoLegalMoves));
}

#[test]
fn greedy_final_choice_takes_most_visited() {
    let mut engine = MCTS::new(TicTacToe::new(), CenterEvaluator, 1, false, 0);
    engine.traverse(30);
    let root = engine.root();
    let best = root.children.iter().map(|c| c.n).max().unwrap();
    let i = root.best_child_visitcount(0).unwrap();
    assert_eq!(root.children[i].n, best);
    assert!(root.children[..i].iter().all(|c| c.n < best));
}

#[test]
fn sampled_final_choice_has_visits() {
    let mut engine = MCTS::new(TicTacToe::new(), UniformEvaluator, 1, false, 0);
    engine.traverse(4);
    for _ in 0..20 {
        let i = engine.root().best_child_visitcount(2).unwrap();
        assert!(engine.root().children[i].n > 0);
    }
}

#[test]
fn training_examples_are_recorded_and_drained() {
    let start = TicTacToe::new();
    let mut engine = MCTS::new(start, UniformEvaluator, 1, true, 12);
    let m = engine.choose_move(&start).unwrap();
    let examples = engine.drain_training_examples();
    assert_eq!(examples.len(), 1);
    assert_eq!(examples[0].position, start.to_nn_input());
    assert_eq!(examples[0].next_move_probs.len(), 9);
    let visits: u64 = examples[0].next_move_probs.iter().map(|p| p.1).sum();
    assert_eq!(visits, 11);
    assert!(engine.drain_training_examples().is_empty());
    let mut after = start;
    after.make_move(m);
    assert!(engine.root().post_state.same_state(&after));
}

#[test]
fn reset_board_starts_over() {
    let start = TicTacToe::new();
    let mut engine = MCTS::new(start, UniformEvaluator, 1, true, 5);
    engine.choose_move(&start).unwrap();
    engine.reset_board();
    assert!(engine.root().post_state.same_state(&start));
    assert_eq!(engine.root().n, 0);
    assert!(engine.root().children.is_empty());
    assert!(engine.drain_training_examples().is_empty());
}

#[test]
fn target_counts_cover_the_move_space() {
    let ex = UnfinishedTrainingExample::<TicTacToe>::new(
        vec![0; 27],
        vec![(TTTMove::new(1, 1), 7), (TTTMove::new(2, 0), 3), (TTTMove::new(0, 2), 0)],
    );
    let done = ex.finish(1);
    assert_eq!(done.winner, 1);
    let counts = done.to_true_counts();
    assert_eq!(counts, vec![0, 0, 3, 0, 7, 0, 0, 0, 0]);
}

#[test]
fn test_cap() {
    let ex = || TrainingExample::<TicTacToe>::new(vec![0; 27], 0, vec![]);
    let mut gh = GamesHolder { games: vec![ex(), ex()], capacity: 3 };
    gh.extend(vec![ex(), ex()]);
    assert!(gh.games.len() == gh.capacity);
}

#[test]
fn games_holder_keeps_newest() {
    let mut gh = GamesHolder { games: vec![1, 2], capacity: 3 };
    gh.extend(vec![3, 4, 5, 6]);
    assert_eq!(gh.games, vec![4, 5, 6]);
    gh.extend(vec![]);
    assert_eq!(gh.games, vec![4, 5, 6]);
    let mut small = GamesHolder { games: vec![1], capacity: 3 };
    small.extend(vec![2]);
    assert_eq!(small.games, vec![1, 2]);
}

#[test]
fn alphazero_player_plays_a_whole_game() {
    let mut first = AlphaZeroPlayer::<TicTacToe, UniformEvaluator>::new(UniformEvaluator, 1, false, 30);
    let mut second = AlphaZeroPlayer::<TicTacToe, UniformEvaluator>::new(UniformEvaluator, 1, false, 30);
    let mut g = TicTacToe::new();
    let mut plies = 0;
    while !g.is_over() {
        let m = match g.current_player() {
            PlayerId::First => first.choose_move(&g),
            PlayerId::Second => second.choose_move(&g),
        }
        .unwrap();
        assert!(g.legal_moves().contains(&m));
        g.make_move(m);
        plies += 1;
    }
    assert!(plies >= 5 && plies <= 9);
    assert!(g.get_result().is_some());
    first.reset();
    assert_eq!(first.mcts.root().n, 0);
}

#[test]
fn outcome_values() {
    assert_eq!(winner_value(&GameResult::Winner(PlayerId::First)), Some(1));
    assert_eq!(winner_value(&GameResult::Winner(PlayerId::Second)), Some(-1));
    assert_eq!(winner_value(&GameResult::Tie), Some(0));
    assert_eq!(winner_value(&GameResult::Ranking(vec![PlayerId::First])), None);
}

#[test]
fn finishing_a_game_keeps_every_example() {
    let a = UnfinishedTrainingExample::<TicTacToe>::new(vec![1; 27], vec![(TTTMove::new(0, 0), 2)]);
    let b = UnfinishedTrainingExample::<TicTacToe>::new(vec![0; 27], vec![]);
    let done = finish_all(vec![a, b], -1);
    assert_eq!(done.len(), 2);
    assert_eq!(done[0].position, vec![1; 27]);
    assert_eq!(done[0].next_move_probs, vec![(TTTMove::new(0, 0), 2)]);
    assert!(done.iter().all(|e| e.winner == -1));
    assert!(done[1].next_move_probs.is_empty());
}

#[test]
fn challenger_needs_sixty_percent() {
    assert!(new_model_won(6, 10));
    assert!(!new_model_won(5, 10));
    assert!(new_model_won(3, 5));
    assert!(!new_model_won(0, 0));
}

#[test]
fn choose_move_without_passes_still_moves() {
    let start = TicTacToe::new();
    let mut engine = MCTS::new(start, UniformEvaluator, 1, false, 0);
    let m = engine.choose_move(&start).unwrap();
    assert!(start.legal_moves().contains(&m));
    assert_eq!(engine.root().action, Some(m));
}

#[test]
fn greedy_engine_keeps_the_searched_subtree() {
    let start = TicTacToe::new();
    // With no exploration and all values zero, every pass after the first one goes
    // through the first child, which keeps its 29 visits and its subtree as the root.
    let mut engine = MCTS::new(start, CenterEvaluator, 0, false, 30);
    let m = engine.choose_move(&start).unwrap();
    assert_eq!(m, TTTMove::new(0, 0));
    assert_eq!(engine.root().n, 29);
    assert_eq!(engine.root().children.len(), 8);
}
