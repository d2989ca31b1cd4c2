use rust_games::{
    play_full_game, AlphaZeroPlayer, Connect4, Corners, Game, GameResult, Greedy, Othello,
    OthelloMove, OthelloState, Player, PlayerError, PlayerId, Random, TTTMove, TicTacToe,
    UniformEvaluator,
};

#[test]
fn greedy_takes_the_biggest_capture() {
    let e = OthelloState::Empty;
    let w = OthelloState::White;
    let k = OthelloState::Black;
    let mut board = [[e; 8]; 8];
    // (1,0) turns two discs to the right; (2,2) turns one.
    board[0][0] = k;
    board[0][4] = k;
    board[1][1] = w;
    board[0][2] = w;
    board[0][3] = w;
    let g = Othello::new_from_board(board, PlayerId::First);
    let mut p = Greedy::new();
    assert_eq!(p.choose_move(&g), Ok(OthelloMove::Move(1, 0)));
}

#[test]
fn greedy_opening_takes_first_of_equals() {
    let mut p = Greedy::new();
    assert_eq!(p.choose_move(&Othello::new()), Ok(OthelloMove::Move(2, 4)));
}

#[test]
fn greedy_and_corners_pass_when_they_must() {
    let e = OthelloState::Empty;
    let mut board = [[e; 8]; 8];
    board[0][0] = OthelloState::Black;
    board[7][7] = OthelloState::White;
    let mut g = Othello::new_from_board(board, PlayerId::First);
    assert_eq!(Greedy::new().choose_move(&g), Ok(OthelloMove::Pass));
    assert_eq!(Corners::new().choose_move(&g), Ok(OthelloMove::Pass));
    g.make_move(OthelloMove::Pass);
    assert_eq!(Greedy::new().choose_move(&g), Err(PlayerError::NoLegalMoves));
    assert_eq!(Corners::new().choose_move(&g), Err(PlayerError::NoLegalMoves));
    assert_eq!(Random::<Othello>::new().choose_move(&g), Err(PlayerError::NoLegalMoves));
}

#[test]
fn corners_prefers_a_corner() {
    let e = OthelloState::Empty;
    let w = OthelloState::White;
    let k = OthelloState::Black;
    let mut board = [[e; 8]; 8];
    // (0,0) is a corner capture along the diagonal; (5,4) captures in the middle.
    board[1][1] = w;
    board[2][2] = k;
    board[5][5] = w;
    board[6][5] = k;
    let g = Othello::new_from_board(board, PlayerId::First);
    let moves = g.legal_moves();
    assert!(moves.contains(&OthelloMove::Move(0, 0)));
    assert!(moves.contains(&OthelloMove::Move(5, 4)));
    for _ in 0..10 {
        assert_eq!(Corners::new().choose_move(&g), Ok(OthelloMove::Move(0, 0)));
    }
}

#[test]
fn corners_falls_back_to_any_move() {
    let g = Othello::new();
    for _ in 0..10 {
        let m = Corners::new().choose_move(&g).unwrap();
        assert!(g.legal_moves().contains(&m));
    }
}

#[test]
fn random_plays_legal_moves() {
    let mut p = Random::<TicTacToe>::new();
    let mut g = TicTacToe::new();
    while !g.is_over() {
        let m = p.choose_move(&g).unwrap();
        assert!(g.legal_moves().contains(&m));
        g.make_move(m);
    }
    p.reset();
}

#[test]
fn az_player_first_move() {
    let mut player = AlphaZeroPlayer::<Othello, UniformEvaluator>::new(UniformEvaluator, 1, false, 100);
    let mut g = Othello::new();
    let m = player.choose_move(&g).unwrap();
    assert!(g.legal_moves().contains(&m));
    g.make_move(m);
    assert_eq!(g.current_player(), PlayerId::Second);
}

#[test]
fn alphazero_first_move() {
    let mut player = AlphaZeroPlayer::<Othello, UniformEvaluator>::new(UniformEvaluator, 1, false, 30);
    let g = Othello::new();
    let m = player.choose_move(&g).unwrap();
    assert!(Othello::new().legal_moves().contains(&m));
    let mut after = g;
    after.make_move(m);
    assert!(player.mcts.root().post_state.same_state(&after));
}

#[test]
fn alphazero_follows_an_opponent_move() {
    let mut player = AlphaZeroPlayer::<TicTacToe, UniformEvaluator>::new(UniformEvaluator, 1, false, 20);
    let mut g = TicTacToe::new();
    let m = player.choose_move(&g).unwrap();
    g.make_move(m);
    let reply = g.legal_moves()[0];
    g.make_move(reply);
    let next = player.choose_move(&g).unwrap();
    assert!(g.legal_moves().contains(&next));
    let _ = TTTMove::new(0, 0);
}

#[test]
fn whole_games_end_with_a_result() {
    let r = play_full_game::<Othello, _, _>(&mut Greedy::new(), &mut Corners::new()).unwrap();
    assert!(matches!(r, GameResult::Winner(_) | GameResult::Tie));
    let r = play_full_game::<TicTacToe, _, _>(&mut Random::new(), &mut Random::new()).unwrap();
    assert!(matches!(r, GameResult::Winner(_) | GameResult::Tie));
    let mut az = AlphaZeroPlayer::<Connect4, UniformEvaluator>::new(UniformEvaluator, 1, false, 10);
    let r = play_full_game::<Connect4, _, _>(&mut az, &mut Random::new()).unwrap();
    assert!(matches!(r, GameResult::Winner(_) | GameResult::Tie));
}

#[test]
fn greedy_beats_itself_deterministically() {
    let a = play_full_game::<Othello, _, _>(&mut Greedy::new(), &mut Greedy::new()).unwrap();
    let b = play_full_game::<Othello, _, _>(&mut Greedy::new(), &mut Greedy::new()).unwrap();
    assert_eq!(a, b);
}
