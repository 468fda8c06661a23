use reversi::game::{GameBoard, GameState, PieceColor, Position};

const B: Option<PieceColor> = Some(PieceColor::Black);
const W: Option<PieceColor> = Some(PieceColor::White);
const E: Option<PieceColor> = None;

fn discs(board: &[[Option<PieceColor>; 4]; 4], color: PieceColor) -> usize {
    let mut n = 0;
    for row in board {
        for cell in row {
            if *cell == Some(color) {
                n += 1;
            }
        }
    }
    n
}

fn game_on(board: [[Option<PieceColor>; 4]; 4], turn: PieceColor) -> GameBoard {
    let mut game = GameBoard::new();
    game.board = board;
    game.current_turn = turn;
    game.update_score();
    game
}

#[test]
fn new_game_has_four_discs_in_the_centre() {
    let state = GameBoard::new().get_state();
    assert_eq!(
        state.board,
        [[E, E, E, E], [E, B, W, E], [E, W, B, E], [E, E, E, E]]
    );
    assert_eq!(state.black_score, 2);
    assert_eq!(state.white_score, 2);
    assert_eq!(state.current_turn, PieceColor::Black);
    assert!(!state.game_over);
}

#[test]
fn new_game_is_not_over_and_has_no_winner_yet() {
    let game = GameBoard::new();
    assert!(!game.is_game_over());
    assert!(game.has_valid_moves());
    assert_eq!(game.get_winner(), None);
}

#[test]
fn first_moves_come_row_by_row() {
    let game = GameBoard::new();
    assert_eq!(
        game.get_valid_moves(),
        vec![
            Position { row: 0, col: 2 },
            Position { row: 1, col: 3 },
            Position { row: 2, col: 0 },
            Position { row: 3, col: 1 },
        ]
    );
}

#[test]
fn white_would_start_from_the_other_four_squares() {
    let mut game = GameBoard::new();
    game.switch_turn();
    assert_eq!(game.current_turn, PieceColor::White);
    assert_eq!(
        game.get_valid_moves(),
        vec![
            Position { row: 0, col: 1 },
            Position { row: 1, col: 0 },
            Position { row: 2, col: 3 },
            Position { row: 3, col: 2 },
        ]
    );
}

#[test]
fn every_listed_move_is_valid_and_no_other() {
    let game = game_on(
        [[E, E, E, E], [W, W, W, E], [E, W, B, B], [E, B, W, E]],
        PieceColor::Black,
    );
    let moves = game.get_valid_moves();
    for row in 0..4 {
        for col in 0..4 {
            let position = Position { row, col };
            assert_eq!(moves.contains(&position), game.is_valid_move(position));
        }
    }
    assert_eq!(game.has_valid_moves(), !moves.is_empty());
}

#[test]
fn a_move_needs_an_empty_square_on_the_board() {
    let game = GameBoard::new();
    assert!(!game.is_valid_move(Position { row: 1, col: 1 }));
    assert!(!game.is_valid_move(Position { row: 1, col: 2 }));
    assert!(!game.is_valid_move(Position { row: 4, col: 2 }));
    assert!(!game.is_valid_move(Position { row: 0, col: 4 }));
    assert!(!game.is_valid_move(Position { row: usize::MAX, col: usize::MAX }));
    assert!(game.is_valid_move(Position { row: 0, col: 2 }));
}

#[test]
fn a_move_needs_a_disc_to_turn_over() {
    let game = GameBoard::new();
    // Next to a white disc, but with no black disc behind it.
    assert!(!game.is_valid_move(Position { row: 0, col: 3 }));
    // Next to a black disc only.
    assert!(!game.is_valid_move(Position { row: 0, col: 1 }));
    // Next to nothing.
    assert!(!game.is_valid_move(Position { row: 0, col: 0 }));
}

#[test]
fn is_valid_move_does_not_touch_the_game() {
    let game = GameBoard::new();
    let before = game.get_state();
    let _ = game.is_valid_move(Position { row: 1, col: 3 });
    let _ = game.get_valid_moves();
    let _ = game.has_valid_moves();
    let after = game.get_state();
    assert_eq!(after.board, before.board);
    assert_eq!(after.current_turn, before.current_turn);
    assert_eq!(after.game_over, before.game_over);
    assert_eq!(after.black_score, before.black_score);
    assert_eq!(after.white_score, before.white_score);
}

#[test]
fn placing_a_disc_flips_and_rescores() {
    let mut game = GameBoard::new();
    assert!(game.place_piece(Position { row: 1, col: 3 }));
    let state = game.get_state();
    assert_eq!(
        state.board,
        [[E, E, E, E], [E, B, B, B], [E, W, B, E], [E, E, E, E]]
    );
    assert_eq!(state.board[1][3], Some(PieceColor::Black));
    assert_eq!(state.board[1][2], Some(PieceColor::Black));
    assert_eq!(state.current_turn, PieceColor::White);
    assert_eq!(state.black_score, 4);
    assert_eq!(state.white_score, 1);
    assert!(!state.game_over);
}

#[test]
fn a_disc_turns_over_runs_in_several_directions_at_once() {
    let mut game = game_on(
        [[E, E, E, E], [W, W, W, E], [E, W, B, B], [E, B, W, E]],
        PieceColor::Black,
    );
    assert!(game.place_piece(Position { row: 0, col: 1 }));
    // Two discs downwards, one down to the right; the white disc down to the left has
    // nothing behind it and stays.
    assert_eq!(
        game.board,
        [[E, B, E, E], [W, B, B, E], [E, B, B, B], [E, B, W, E]]
    );
    assert_eq!(game.black_score, 7);
    assert_eq!(game.white_score, 2);
    assert_eq!(game.current_turn, PieceColor::White);
}

#[test]
fn a_run_that_ends_on_an_empty_square_or_the_edge_stays() {
    let mut game = game_on(
        [[E, W, W, E], [W, E, E, E], [W, E, E, E], [B, E, E, E]],
        PieceColor::Black,
    );
    // To the right two white discs and then an empty square: nothing to take there.
    // Downwards two white discs and then a black one.
    assert!(game.place_piece(Position { row: 0, col: 0 }));
    assert_eq!(
        game.board,
        [[B, W, W, E], [B, E, E, E], [B, E, E, E], [B, E, E, E]]
    );
    let mut edge = game_on(
        [[E, W, W, W], [E, E, E, E], [E, E, E, E], [E, E, E, E]],
        PieceColor::Black,
    );
    assert!(!edge.place_piece(Position { row: 0, col: 0 }));
    assert_eq!(
        edge.board,
        [[E, W, W, W], [E, E, E, E], [E, E, E, E], [E, E, E, E]]
    );
}

#[test]
fn a_refused_move_changes_nothing() {
    let refused = [
        Position { row: 1, col: 1 },
        Position { row: 4, col: 0 },
        Position { row: 0, col: 4 },
        Position { row: 0, col: 0 },
        Position { row: 3, col: 3 },
        Position { row: 0, col: 2 },
        Position { row: 17, col: 99 },
    ];
    let mut game = GameBoard::new();
    assert!(game.place_piece(Position { row: 1, col: 3 }));
    let before = game.get_state();
    for position in refused {
        assert!(!game.place_piece(position));
        let after = game.get_state();
        assert_eq!(after.board, before.board);
        assert_eq!(after.current_turn, before.current_turn);
        assert_eq!(after.game_over, before.game_over);
        assert_eq!(after.black_score, before.black_score);
        assert_eq!(after.white_score, before.white_score);
    }
}

#[test]
fn the_same_refused_move_is_refused_again() {
    let mut game = GameBoard::new();
    let before = game.get_state();
    assert!(!game.place_piece(Position { row: 0, col: 0 }));
    assert!(!game.place_piece(Position { row: 0, col: 0 }));
    let after = game.get_state();
    assert_eq!(after.board, before.board);
    assert_eq!(after.current_turn, PieceColor::Black);
    assert_eq!(after.black_score, 2);
    assert_eq!(after.white_score, 2);
    assert!(!after.game_over);
    // The game goes on as if nothing had been tried.
    assert!(game.place_piece(Position { row: 0, col: 2 }));
}

#[test]
fn scores_count_the_discs_all_through_a_game() {
    let mut game = GameBoard::new();
    let mut placed = 4;
    while !game.is_game_over() {
        let position = game.get_valid_moves()[0];
        assert!(game.place_piece(position));
        placed += 1;
        let state = game.get_state();
        assert_eq!(state.black_score, discs(&state.board, PieceColor::Black));
        assert_eq!(state.white_score, discs(&state.board, PieceColor::White));
        assert_eq!(state.black_score + state.white_score, placed);
        assert!(placed <= 16);
    }
    assert_eq!(
        game.board,
        [[B, B, B, W], [B, B, B, W], [B, B, B, W], [B, W, B, B]]
    );
    assert_eq!(game.black_score, 12);
    assert_eq!(game.white_score, 4);
    assert_eq!(game.get_winner(), Some(PieceColor::Black));
}

#[test]
fn a_game_move_by_move() {
    let moves = [
        (0, 2, PieceColor::White, 4, 1),
        (0, 1, PieceColor::Black, 3, 3),
        (0, 0, PieceColor::White, 6, 1),
        (0, 3, PieceColor::Black, 5, 3),
        (1, 3, PieceColor::White, 7, 2),
        (2, 3, PieceColor::Black, 5, 5),
        (3, 0, PieceColor::White, 7, 4),
        (1, 0, PieceColor::Black, 5, 7),
        (2, 0, PieceColor::Black, 8, 5),
        (3, 2, PieceColor::White, 11, 3),
        (3, 1, PieceColor::Black, 10, 5),
        (3, 3, PieceColor::Black, 12, 4),
    ];
    let mut game = GameBoard::new();
    for (i, (row, col, next, black, white)) in moves.into_iter().enumerate() {
        assert!(!game.is_game_over());
        assert!(game.place_piece(Position { row, col }));
        assert_eq!(game.current_turn, next);
        assert_eq!(game.black_score, black);
        assert_eq!(game.white_score, white);
        assert_eq!(game.is_game_over(), i == 11);
    }
}

#[test]
fn an_ended_game_takes_no_more_moves() {
    let mut game = GameBoard::new();
    while !game.is_game_over() {
        let position = game.get_valid_moves()[0];
        assert!(game.place_piece(position));
    }
    let ended = game.get_state();
    for _ in 0..2 {
        for row in 0..6 {
            for col in 0..6 {
                assert!(!game.place_piece(Position { row, col }));
                let state = game.get_state();
                assert!(state.game_over);
                assert_eq!(state.board, ended.board);
                assert_eq!(state.current_turn, ended.current_turn);
                assert_eq!(state.black_score, ended.black_score);
                assert_eq!(state.white_score, ended.white_score);
            }
        }
    }
    assert!(game.get_valid_moves().is_empty());
}

#[test]
fn a_game_can_end_with_empty_squares_left() {
    let mut game = game_on(
        [[E, B, E, B], [W, B, B, W], [E, B, B, E], [B, B, B, B]],
        PieceColor::Black,
    );
    assert!(game.place_piece(Position { row: 2, col: 3 }));
    let state = game.get_state();
    assert_eq!(
        state.board,
        [[E, B, E, B], [W, B, B, B], [E, B, B, B], [B, B, B, B]]
    );
    // Neither player can move: the game has ended, and the turn stays with the mover.
    assert!(state.game_over);
    assert_eq!(state.current_turn, PieceColor::Black);
    assert_eq!(state.black_score, 12);
    assert_eq!(state.white_score, 1);
    assert_eq!(game.get_winner(), Some(PieceColor::Black));
    assert!(!game.has_valid_moves());
    game.switch_turn();
    assert!(!game.has_valid_moves());
}

#[test]
fn a_player_without_a_move_is_passed_over() {
    let mut game = game_on(
        [[E, W, W, B], [E, W, W, B], [W, W, W, W], [B, B, E, E]],
        PieceColor::Black,
    );
    assert!(game.place_piece(Position { row: 3, col: 3 }));
    let state = game.get_state();
    assert_eq!(
        state.board,
        [[E, W, W, B], [E, W, W, B], [W, W, W, B], [B, B, E, B]]
    );
    // White has no move, Black has one: Black moves again.
    assert_eq!(state.current_turn, PieceColor::Black);
    assert!(!state.game_over);
    assert!(game.has_valid_moves());
    assert_eq!(
        game.get_valid_moves(),
        vec![Position { row: 0, col: 0 }, Position { row: 1, col: 0 }]
    );
    let mut white = game_on(state.board, PieceColor::White);
    assert!(!white.has_valid_moves());
    assert!(white.get_valid_moves().is_empty());
    assert!(!white.place_piece(Position { row: 0, col: 0 }));
}

#[test]
fn a_pass_comes_up_in_play_from_the_start() {
    let moves = [
        (1, 3),
        (2, 3),
        (3, 0),
        (0, 2),
        (0, 3),
        (0, 1),
        (3, 1),
        (2, 0),
    ];
    let mut game = GameBoard::new();
    let mut mover = PieceColor::Black;
    for (row, col) in moves {
        assert_eq!(game.current_turn, mover);
        assert!(game.place_piece(Position { row, col }));
        mover = mover.opposite();
    }
    assert_eq!(game.current_turn, PieceColor::Black);
    assert!(game.place_piece(Position { row: 3, col: 3 }));
    assert_eq!(game.current_turn, PieceColor::Black);
    assert!(!game.is_game_over());
}

#[test]
fn process_turn_hands_the_turn_on_where_the_opponent_can_move() {
    let mut game = GameBoard::new();
    game.process_turn();
    assert_eq!(game.current_turn, PieceColor::White);
    assert!(!game.game_over);
    game.process_turn();
    assert_eq!(game.current_turn, PieceColor::Black);
    assert!(!game.game_over);
}

#[test]
fn process_turn_keeps_the_turn_where_only_the_mover_can_move() {
    let board = [[E, W, W, B], [E, W, W, B], [W, W, W, B], [B, B, E, B]];
    let mut game = game_on(board, PieceColor::Black);
    game.process_turn();
    assert_eq!(game.current_turn, PieceColor::Black);
    assert!(!game.game_over);
    assert_eq!(game.board, board);
    // With White as the mover the turn goes to Black, who can move.
    let mut other = game_on(board, PieceColor::White);
    other.process_turn();
    assert_eq!(other.current_turn, PieceColor::Black);
    assert!(!other.game_over);
}

#[test]
fn process_turn_ends_the_game_where_nobody_can_move() {
    let mut game = game_on(
        [[E, E, E, E], [E, E, E, E], [E, E, E, E], [E, E, E, E]],
        PieceColor::White,
    );
    game.process_turn();
    assert!(game.game_over);
    assert_eq!(game.current_turn, PieceColor::White);
    assert_eq!(game.get_winner(), None);
    // Ended stays ended.
    game.process_turn();
    assert!(game.game_over);
}

#[test]
fn update_score_counts_each_colour() {
    let mut game = GameBoard::new();
    game.board = [[B, B, B, W], [E, W, E, B], [B, E, E, E], [W, W, B, B]];
    game.black_score = 0;
    game.white_score = 99;
    game.update_score();
    assert_eq!(game.black_score, 7);
    assert_eq!(game.white_score, 4);
    game.board = [[E, E, E, E], [E, E, E, E], [E, E, E, E], [E, E, E, E]];
    game.update_score();
    assert_eq!(game.black_score, 0);
    assert_eq!(game.white_score, 0);
    game.board = [[W, W, W, W], [W, W, W, W], [W, W, W, W], [W, W, W, W]];
    game.update_score();
    assert_eq!(game.black_score, 0);
    assert_eq!(game.white_score, 16);
}

#[test]
fn the_winner_is_who_has_more_discs() {
    let mut game = GameBoard::new();
    game.black_score = 10;
    game.white_score = 6;
    assert_eq!(game.get_winner(), Some(PieceColor::Black));
    game.black_score = 8;
    game.white_score = 8;
    assert_eq!(game.get_winner(), None);
    game.black_score = 3;
    game.white_score = 13;
    assert_eq!(game.get_winner(), Some(PieceColor::White));
    game.black_score = 0;
    game.white_score = 0;
    assert_eq!(game.get_winner(), None);
}

#[test]
fn opposite_swaps_the_colours() {
    assert_eq!(PieceColor::Black.opposite(), PieceColor::White);
    assert_eq!(PieceColor::White.opposite(), PieceColor::Black);
    assert_eq!(PieceColor::Black.opposite().opposite(), PieceColor::Black);
    assert_eq!(PieceColor::White.opposite().opposite(), PieceColor::White);
}

#[test]
fn switch_turn_and_set_game_over_touch_one_field_each() {
    let mut game = GameBoard::new();
    let before = game.get_state();
    game.switch_turn();
    assert_eq!(game.current_turn, PieceColor::White);
    assert!(!game.game_over);
    assert_eq!(game.board, before.board);
    game.switch_turn();
    assert_eq!(game.current_turn, PieceColor::Black);
    game.set_game_over();
    assert!(game.is_game_over());
    assert_eq!(game.current_turn, PieceColor::Black);
    assert_eq!(game.board, before.board);
    assert_eq!(game.black_score, 2);
    assert_eq!(game.white_score, 2);
}

#[test]
fn a_snapshot_does_not_follow_the_game() {
    let mut game = GameBoard::new();
    let snapshot: GameState = game.get_state();
    assert!(game.place_piece(Position { row: 1, col: 3 }));
    assert_eq!(
        snapshot.board,
        [[E, E, E, E], [E, B, W, E], [E, W, B, E], [E, E, E, E]]
    );
    assert_eq!(snapshot.current_turn, PieceColor::Black);
    assert_eq!(snapshot.black_score, 2);
    assert_eq!(snapshot.white_score, 2);
    assert!(!snapshot.game_over);
    let later = game.get_state();
    assert_eq!(later.board[1][2], B);
    assert_eq!(later.black_score, 4);
}

#[test]
fn positions_on_the_board_are_zero_to_three() {
    for row in -2..7 {
        for col in -2..7 {
            let on = (0..4).contains(&row) && (0..4).contains(&col);
            assert_eq!(GameBoard::is_valid_position(row, col), on);
        }
    }
    assert!(!GameBoard::is_valid_position(isize::MIN, 0));
    assert!(!GameBoard::is_valid_position(0, isize::MAX));
}
