//! What a host application asks of a game, and the state in the form in which a user
//! interface takes it: colours by name.

use vstd::prelude::*;
use crate::game::{GameBoard, GameState, PieceColor, Position};
use crate::rules::{legal_move, legal_moves, well_shaped, Cell, GameModel};

verus! {

/// The state of a game with each colour written as its name.
pub struct SerializedGameState {
    /// The squares, row by row; `None` is an empty square.
    pub board: Vec<Vec<Option<String>>>,
    /// The name of the player to move.
    pub current_turn: String,
    pub game_over: bool,
    pub black_score: usize,
    pub white_score: usize,
}

/// What a `SerializedGameState` holds, as plain text and numbers.
pub struct SerializedModel {
    pub board: Seq<Seq<Option<Seq<char>>>>,
    pub current_turn: Seq<char>,
    pub game_over: bool,
    pub black_score: nat,
    pub white_score: nat,
}

/// The text of each name in a row of names.
pub open spec fn row_text(names: Seq<Option<String>>) -> Seq<Option<Seq<char>>> {
    names.map_values(
        |name: Option<String>|
            match name {
                Some(text) => Some(text@),
                None => None,
            },
    )
}

impl View for SerializedGameState {
    type V = SerializedModel;

    open spec fn view(&self) -> SerializedModel {
        SerializedModel {
            board: self.board@.map_values(|row: Vec<Option<String>>| row_text(row@)),
            current_turn: self.current_turn@,
            game_over: self.game_over,
            black_score: self.black_score as nat,
            white_score: self.white_score as nat,
        }
    }
}

/// The name of a colour.
pub open spec fn color_name(color: PieceColor) -> Seq<char> {
    match color {
        PieceColor::Black => "Black"@,
        PieceColor::White => "White"@,
    }
}

/// What stands for a square: the name of the colour of its disc, or nothing.
pub open spec fn cell_name(cell: Cell) -> Option<Seq<char>> {
    match cell {
        Some(color) => Some(color_name(color)),
        None => None,
    }
}

/// A state with each colour written as its name.
pub open spec fn encode(s: GameModel) -> SerializedModel {
    SerializedModel {
        board: s.grid.map_values(|row: Seq<Cell>| row.map_values(|cell: Cell| cell_name(cell))),
        current_turn: color_name(s.turn),
        game_over: s.over,
        black_score: s.black,
        white_score: s.white,
    }
}

/// What is said to a caller whose move was refused.
pub open spec fn invalid_move() -> Seq<char> {
    "Invalid move"@
}

/// The name of a colour, as a string.
fn name_of(color: PieceColor) -> (name: String)
    ensures
        name@ == color_name(color),
{
    match color {
        PieceColor::Black => "Black".to_string(),
        PieceColor::White => "White".to_string(),
    }
}

/// Writes a state with each colour as its name.
pub fn serialize_game_state(state: &GameState) -> (out: SerializedGameState)
    ensures
        out@ == encode(state@),
{
    let ghost grid = state@.grid;
    let mut board: Vec<Vec<Option<String>>> = Vec::with_capacity(4);
    for r in 0..4usize
        invariant
            grid == state@.grid,
            board@.len() == r,
            forall|i: int|
                0 <= i < r ==> row_text(#[trigger] board@[i]@) == grid[i].map_values(
                    |cell: Cell| cell_name(cell),
                ),
    {
        let mut serialized_row: Vec<Option<String>> = Vec::with_capacity(4);
        for c in 0..4usize
            invariant
                r < 4,
                grid == state@.grid,
                serialized_row@.len() == c,
                forall|j: int|
                    0 <= j < c ==> (match #[trigger] serialized_row@[j] {
                        Some(text) => Some(text@),
                        None => None,
                    }) == cell_name(grid[r as int][j]),
        {
            match state.board[r][c] {
                Some(color) => serialized_row.push(Some(name_of(color))),
                None => serialized_row.push(None),
            }
        }
        assert(row_text(serialized_row@) =~= grid[r as int].map_values(
            |cell: Cell| cell_name(cell),
        ));
        board.push(serialized_row);
    }
    let out = SerializedGameState {
        board,
        current_turn: name_of(state.current_turn),
        game_over: state.game_over,
        black_score: state.black_score,
        white_score: state.white_score,
    };
    assert(out@.board =~= encode(state@).board);
    out
}

/// Starts the game anew and hands back its first state.
pub fn new_game(game: &mut GameBoard) -> (out: SerializedGameState)
    ensures
        final(game)@ == GameModel::initial(),
        final(game)@.wf(),
        out@ == encode(GameModel::initial()),
{
    *game = GameBoard::new();
    let state = game.get_state();
    serialize_game_state(&state)
}

/// Makes the move of the player to move on `position` and hands back the state that it leads
/// to. A move that is not legal changes nothing and is answered with an error that says so.
pub fn make_move(game: &mut GameBoard, position: Position) -> (out: Result<
    SerializedGameState,
    String,
>)
    ensures
        out is Ok <==> legal_move(
            old(game)@.grid,
            old(game)@.turn,
            position.row as int,
            position.col as int,
        ),
        final(game)@ == old(game)@.step(position),
        out matches Ok(state) ==> state@ == encode(final(game)@),
        out matches Err(message) ==> message@ == invalid_move() && *final(game) == *old(game),
        old(game)@.wf() ==> final(game)@.wf(),
{
    if !game.place_piece(position) {
        return Err("Invalid move".to_string());
    }
    let state = game.get_state();
    Ok(serialize_game_state(&state))
}

/// The legal moves of the player to move, row by row.
pub fn get_valid_moves(game: &GameBoard) -> (moves: Vec<Position>)
    ensures
        moves@ == legal_moves(game@.grid, game@.turn),
{
    game.get_valid_moves()
}

/// The two colours have different names, so a name stands for one colour only.
pub proof fn lemma_names_tell_colors_apart(a: PieceColor, b: PieceColor)
    ensures
        color_name(a) == color_name(b) <==> a == b,
{
    reveal_strlit("Black");
    reveal_strlit("White");
    assert("Black"@[0] != "White"@[0]);
}

/// Writing the colours as names loses nothing: two states that are written alike are the same
/// state.
pub proof fn lemma_encode_loses_nothing(s: GameModel, t: GameModel)
    requires
        well_shaped(s.grid),
        well_shaped(t.grid),
        encode(s) == encode(t),
    ensures
        s == t,
{
    lemma_names_tell_colors_apart(s.turn, t.turn);
    assert forall|i: int, j: int| 0 <= i < 4 && 0 <= j < 4 implies s.grid[i][j] == t.grid[i][j] by {
        assert(encode(s).board[i][j] == cell_name(s.grid[i][j]));
        assert(encode(t).board[i][j] == cell_name(t.grid[i][j]));
        match (s.grid[i][j], t.grid[i][j]) {
            (Some(a), Some(b)) => {
                lemma_names_tell_colors_apart(a, b);
            },
            _ => {},
        }
    }
    assert(s.grid =~~= t.grid);
}

} // verus!
