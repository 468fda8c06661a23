use reversi::commands::{
    get_valid_moves, make_move, new_game, serialize_game_state, SerializedGameState,
};
use reversi::game::{GameBoard, GameState, PieceColor, Position};

fn black() -> Option<String> {
    Some("Black".to_string())
}

fn white() -> Option<String> {
    Some("White".to_string())
}

fn color_of(name: &str) -> PieceColor {
    match name {
        "Black" => PieceColor::Black,
        "White" => PieceColor::White,
        other => panic!("no colour is called {}", other),
    }
}

fn read_back(text: &SerializedGameState) -> GameState {
    let mut board = [[None; 4]; 4];
    assert_eq!(text.board.len(), 4);
    for (r, row) in text.board.iter().enumerate() {
        assert_eq!(row.len(), 4);
        for (c, cell) in row.iter().enumerate() {
            board[r][c] = cell.as_deref().map(color_of);
        }
    }
    GameState {
        board,
        current_turn: color_of(&text.current_turn),
        game_over: text.game_over,
        black_score: text.black_score,
        white_score: text.white_score,
    }
}

#[test]
fn a_new_game_written_out() {
    let state = GameBoard::new().get_state();
    let text = serialize_game_state(&state);
    assert_eq!(
        text.board,
        vec![
            vec![None, None, None, None],
            vec![None, black(), white(), None],
            vec![None, white(), black(), None],
            vec![None, None, None, None],
        ]
    );
    assert_eq!(text.current_turn, "Black");
    assert!(!text.game_over);
    assert_eq!(text.black_score, 2);
    assert_eq!(text.white_score, 2);
}

#[test]
fn every_field_is_written_out() {
    let state = GameState {
        board: [
            [Some(PieceColor::White), None, None, Some(PieceColor::Black)],
            [None; 4],
            [None; 4],
            [Some(PieceColor::Black), None, None, Some(PieceColor::White)],
        ],
        current_turn: PieceColor::White,
        game_over: true,
        black_score: 7,
        white_score: 9,
    };
    let text = serialize_game_state(&state);
    assert_eq!(
        text.board,
        vec![
            vec![white(), None, None, black()],
            vec![None, None, None, None],
            vec![None, None, None, None],
            vec![black(), None, None, white()],
        ]
    );
    assert_eq!(text.current_turn, "White");
    assert!(text.game_over);
    assert_eq!(text.black_score, 7);
    assert_eq!(text.white_score, 9);
}

#[test]
fn what_is_written_out_reads_back_as_the_same_state() {
    let mut game = GameBoard::new();
    loop {
        let state = game.get_state();
        let back = read_back(&serialize_game_state(&state));
        assert_eq!(back.board, state.board);
        assert_eq!(back.current_turn, state.current_turn);
        assert_eq!(back.game_over, state.game_over);
        assert_eq!(back.black_score, state.black_score);
        assert_eq!(back.white_score, state.white_score);
        if game.is_game_over() {
            break;
        }
        let moves = game.get_valid_moves();
        assert!(game.place_piece(moves[moves.len() - 1]));
    }
}

#[test]
fn new_game_starts_over() {
    let mut game = GameBoard::new();
    assert!(game.place_piece(Position { row: 1, col: 3 }));
    game.set_game_over();
    let text = new_game(&mut game);
    assert_eq!(text.current_turn, "Black");
    assert!(!text.game_over);
    assert_eq!(text.black_score, 2);
    assert_eq!(text.white_score, 2);
    assert_eq!(text.board[1], vec![None, black(), white(), None]);
    assert_eq!(text.board[2], vec![None, white(), black(), None]);
    assert_eq!(game.board, GameBoard::new().board);
    assert_eq!(game.current_turn, PieceColor::Black);
    assert!(!game.game_over);
    assert_eq!(game.black_score, 2);
    assert_eq!(game.white_score, 2);
}

#[test]
fn make_move_hands_back_the_new_state() {
    let mut game = GameBoard::new();
    let text = match make_move(&mut game, Position { row: 1, col: 3 }) {
        Ok(text) => text,
        Err(message) => panic!("refused: {}", message),
    };
    assert_eq!(
        text.board,
        vec![
            vec![None, None, None, None],
            vec![None, black(), black(), black()],
            vec![None, white(), black(), None],
            vec![None, None, None, None],
        ]
    );
    assert_eq!(text.current_turn, "White");
    assert!(!text.game_over);
    assert_eq!(text.black_score, 4);
    assert_eq!(text.white_score, 1);
    assert_eq!(game.current_turn, PieceColor::White);
    assert_eq!(game.board[1][2], Some(PieceColor::Black));
}

#[test]
fn make_move_refuses_an_invalid_move_and_says_so() {
    let mut game = GameBoard::new();
    let before = game.get_state();
    for position in [
        Position { row: 1, col: 1 },
        Position { row: 4, col: 0 },
        Position { row: 0, col: 0 },
    ] {
        match make_move(&mut game, position) {
            Ok(_) => panic!("an invalid move was made"),
            Err(message) => assert_eq!(message, "Invalid move"),
        }
        assert_eq!(game.board, before.board);
        assert_eq!(game.current_turn, before.current_turn);
        assert_eq!(game.game_over, before.game_over);
        assert_eq!(game.black_score, before.black_score);
        assert_eq!(game.white_score, before.white_score);
    }
}

#[test]
fn the_valid_moves_of_a_game_are_those_of_its_board() {
    let mut game = GameBoard::new();
    assert_eq!(get_valid_moves(&game), game.get_valid_moves());
    assert_eq!(get_valid_moves(&game).len(), 4);
    assert!(game.place_piece(Position { row: 1, col: 3 }));
    assert_eq!(
        get_valid_moves(&game),
        vec![
            Position { row: 0, col: 1 },
            Position { row: 0, col: 3 },
            Position { row: 2, col: 3 },
        ]
    );
}
