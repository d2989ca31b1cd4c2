use rust_games::{
    Connect4, Connect4Move, Connect4State, Game, GameResult, Othello, OthelloMove, OthelloState,
    PlayerId, TTTMove, TTTState, TicTacToe,
};

fn ttt(cells: &[(usize, usize)]) -> TicTacToe {
    let mut g = TicTacToe::new();
    for &(x, y) in cells {
        g.make_move(TTTMove::new(x, y));
    }
    g
}

fn c4(cols: &[usize]) -> Connect4 {
    let mut g = Connect4::new();
    for &c in cols {
        g.make_move(Connect4Move { column: c });
    }
    g
}

#[test]
fn tictactoe_empty_board_offers_every_cell() {
    let g = TicTacToe::new();
    let moves = g.legal_moves();
    assert_eq!(moves.len(), 9);
    assert_eq!((moves[0].x(), moves[0].y()), (0, 0));
    assert_eq!((moves[1].x(), moves[1].y()), (0, 1));
    assert_eq!((moves[3].x(), moves[3].y()), (1, 0));
    assert!(!g.is_over());
    assert_eq!(g.get_result(), None);
    assert_eq!(g.current_player(), PlayerId::First);
}

#[test]
fn tictactoe_move_indices_follow_the_move_space() {
    let all = TicTacToe::all_possible_moves();
    assert_eq!(all.len(), TicTacToe::total_moves());
    for (i, m) in all.iter().enumerate() {
        assert_eq!(TicTacToe::move_index(*m), i);
    }
    assert_eq!(TicTacToe::move_index(TTTMove::new(2, 1)), 5);
}

#[test]
fn tictactoe_detects_each_kind_of_line() {
    // Column x = 1 for X.
    let g = ttt(&[(1, 0), (0, 0), (1, 1), (0, 1), (1, 2)]);
    assert_eq!(g.get_result(), Some(GameResult::Winner(PlayerId::First)));
    assert!(g.is_over());
    // Row y = 2 for O.
    let g = ttt(&[(0, 0), (0, 2), (1, 1), (1, 2), (0, 1), (2, 2)]);
    assert_eq!(g.get_result(), Some(GameResult::Winner(PlayerId::Second)));
    // Diagonal for X.
    let g = ttt(&[(0, 0), (0, 1), (1, 1), (0, 2), (2, 2)]);
    assert_eq!(g.get_result(), Some(GameResult::Winner(PlayerId::First)));
    // Anti-diagonal for X.
    let g = ttt(&[(0, 2), (0, 0), (1, 1), (0, 1), (2, 0)]);
    assert_eq!(g.get_result(), Some(GameResult::Winner(PlayerId::First)));
}

#[test]
fn tictactoe_full_board_without_line_ties() {
    let g = ttt(&[(0, 0), (0, 1), (0, 2), (1, 1), (1, 0), (1, 2), (2, 1), (2, 0), (2, 2)]);
    assert_eq!(g.get_result(), Some(GameResult::Tie));
    assert!(g.is_over());
}

#[test]
fn tictactoe_make_move_marks_and_switches() {
    let g = ttt(&[(2, 1)]);
    assert_eq!(g.get_board()[7], TTTState::X);
    assert_eq!(g.current_player(), PlayerId::Second);
    assert_eq!(g.legal_moves().len(), 8);
    let mut copy = g;
    assert!(copy.same_state(&g));
    copy.make_move(TTTMove::new(0, 0));
    assert!(!copy.same_state(&g));
}

#[test]
fn tictactoe_encoding_has_three_planes() {
    let g = ttt(&[(0, 0), (1, 1)]);
    let enc = g.to_nn_input();
    assert_eq!(enc.len(), 27);
    assert_eq!(enc[0], 1);
    assert_eq!(enc[4], 0);
    assert_eq!(enc[9 + 4], 1);
    assert_eq!(enc[9], 0);
    assert!(enc[18..].iter().all(|&b| b == 1));
}

#[test]
fn othello_empty_board() {
    let g = Othello::new();
    let b = g.get_board();
    assert_eq!(b[27], OthelloState::Black);
    assert_eq!(b[28], OthelloState::White);
    assert_eq!(b[35], OthelloState::White);
    assert_eq!(b[36], OthelloState::Black);
    assert_eq!(b.iter().filter(|s| **s == OthelloState::Empty).count(), 60);
    assert_eq!(g.current_player(), PlayerId::First);
}

#[test]
fn othello_opening_moves() {
    let g = Othello::new();
    let moves = g.legal_moves();
    assert_eq!(
        moves,
        vec![
            OthelloMove::Move(2, 4),
            OthelloMove::Move(3, 5),
            OthelloMove::Move(4, 2),
            OthelloMove::Move(5, 3)
        ]
    );
    assert_eq!(g.tiles_would_flip(OthelloMove::Move(2, 4)), vec![OthelloMove::Move(3, 4)]);
    assert!(g.tiles_would_flip(OthelloMove::Move(0, 0)).is_empty());
    assert!(g.tiles_would_flip(OthelloMove::Move(3, 3)).is_empty());
    assert!(g.tiles_would_flip(OthelloMove::Pass).is_empty());
}

#[test]
fn othello_move_turns_discs() {
    let mut g = Othello::new();
    g.make_move(OthelloMove::Move(2, 4));
    let b = g.get_board();
    assert_eq!(b[8 * 4 + 2], OthelloState::Black);
    assert_eq!(b[8 * 4 + 3], OthelloState::Black);
    assert_eq!(b.iter().filter(|s| **s == OthelloState::Black).count(), 4);
    assert_eq!(b.iter().filter(|s| **s == OthelloState::White).count(), 1);
    assert_eq!(g.current_player(), PlayerId::Second);
}

#[test]
fn othello_flips_in_several_directions() {
    let e = OthelloState::Empty;
    let w = OthelloState::White;
    let k = OthelloState::Black;
    let mut board = [[e; 8]; 8];
    // Black at (0,0) and (4,0); white at (1,1), (2,0), (3,0).
    board[0][0] = k;
    board[0][4] = k;
    board[1][1] = w;
    board[0][2] = w;
    board[0][3] = w;
    let g = Othello::new_from_board(board, PlayerId::First);
    // Playing (1,0): right turns (2,0),(3,0); nothing else.
    assert_eq!(
        g.tiles_would_flip(OthelloMove::Move(1, 0)),
        vec![OthelloMove::Move(2, 0), OthelloMove::Move(3, 0)]
    );
    // Playing (2,2): up-left turns (1,1).
    assert_eq!(g.tiles_would_flip(OthelloMove::Move(2, 2)), vec![OthelloMove::Move(1, 1)]);
}

#[test]
fn othello_pass_and_game_end() {
    let e = OthelloState::Empty;
    let mut board = [[e; 8]; 8];
    board[0][0] = OthelloState::Black;
    board[7][7] = OthelloState::White;
    let mut g = Othello::new_from_board(board, PlayerId::First);
    assert_eq!(g.legal_moves(), vec![OthelloMove::Pass]);
    assert!(!g.is_over());
    g.make_move(OthelloMove::Pass);
    assert!(g.legal_moves().is_empty());
    assert!(g.is_over());
    assert_eq!(g.get_result(), Some(GameResult::Tie));
}

#[test]
fn othello_move_indices() {
    assert_eq!(Othello::move_index(OthelloMove::Pass), 64);
    assert_eq!(Othello::move_index(OthelloMove::Move(2, 3)), 19);
    let all = Othello::all_possible_moves();
    assert_eq!(all.len(), 65);
    for (i, m) in all.iter().enumerate() {
        assert_eq!(Othello::move_index(*m), i);
    }
    assert!(OthelloMove::Move(0, 7).is_corner());
    assert!(!OthelloMove::Move(0, 3).is_corner());
    assert!(OthelloMove::Move(0, 3).is_edge());
    assert!(!OthelloMove::Move(3, 3).is_edge());
    assert!(!OthelloMove::Pass.is_edge());
}

#[test]
fn connect4_vertical_win() {
    let g = c4(&[0, 1, 0, 1, 0, 1]);
    assert_eq!(g.get_result(), None);
    let g = c4(&[0, 1, 0, 1, 0, 1, 0]);
    assert_eq!(g.get_result(), Some(GameResult::Winner(PlayerId::First)));
    assert!(g.is_over());
}

#[test]
fn connect4_horizontal_and_diagonal_wins() {
    let g = c4(&[0, 0, 1, 1, 2, 2, 3]);
    assert_eq!(g.get_result(), Some(GameResult::Winner(PlayerId::First)));
    // Second builds the up-right diagonal (0,1)..(3,4) on row r at column r + 1.
    let g = c4(&[0, 1, 2, 2, 3, 3, 3, 4, 4, 4, 6, 4]);
    assert_eq!(g.get_result(), None);
    let g = c4(&[1, 2, 2, 3, 3, 4, 3, 4, 4, 6, 4]);
    assert_eq!(g.get_result(), Some(GameResult::Winner(PlayerId::First)));
}

#[test]
fn connect4_full_column_is_not_legal() {
    let g = c4(&[0, 0, 0, 0, 0, 0, 0, 0]);
    let moves = g.legal_moves();
    assert_eq!(moves.len(), 6);
    assert!(!moves.contains(&Connect4Move { column: 0 }));
    assert_eq!(g.get_board()[0], Connect4State::First);
    assert_eq!(g.get_board()[7], Connect4State::Second);
    assert_eq!(g.get_board()[49], Connect4State::Second);
    assert_eq!(g.to_nn_input().len(), 168);
    assert_eq!(Connect4::move_index(Connect4Move { column: 3 }), 3);
}
