//! The board, the players and the operations of one game.

use vstd::prelude::*;
use crate::capture::{
    bracketed_run, direction, direction_index, flip_run, flipped_within, lemma_directions,
    DIRECTIONS,
};
use crate::laws::lemma_step_keeps_wf;
use crate::rules::{
    all_squares, brackets, can_move, count, count_in_row, flipped, flipped_along, initial_grid,
    is_direction, is_legal, legal_move, legal_moves, lemma_initial_scores, on_board, place_grid,
    GameModel, Grid,
};

verus! {

/// One of the two players, and the colour of that player's discs.
#[derive(Clone, Copy, PartialEq, Eq, Debug, Structural)]
pub enum PieceColor {
    Black,
    White,
}

impl PieceColor {
    /// The other player.
    pub open spec fn spec_opposite(&self) -> PieceColor {
        match self {
            PieceColor::Black => PieceColor::White,
            PieceColor::White => PieceColor::Black,
        }
    }

    /// The other player.
    #[verifier::when_used_as_spec(spec_opposite)]
    pub fn opposite(&self) -> (other: PieceColor)
        ensures
            other == self.spec_opposite(),
    {
        match self {
            PieceColor::Black => PieceColor::White,
            PieceColor::White => PieceColor::Black,
        }
    }
}

/// A square of the board, by row and column. Both count from zero; a position with a row or
/// column of four or more names no square.
#[derive(Clone, Copy, PartialEq, Eq, Debug, Structural)]
pub struct Position {
    pub row: usize,
    pub col: usize,
}

/// The squares of a board as the engine stores them; `None` is an empty square.
pub type Squares = [[Option<PieceColor>; 4]; 4];

/// The grid that an array of squares stands for.
pub open spec fn grid_of(squares: Squares) -> Grid {
    Seq::new(4, |r: int| squares[r]@)
}

/// A game in progress.
#[derive(Clone, Debug)]
pub struct GameBoard {
    /// The squares of the board.
    pub board: Squares,
    /// The player to move.
    pub current_turn: PieceColor,
    /// Whether the game has ended.
    pub game_over: bool,
    /// The number of black discs on the board.
    pub black_score: usize,
    /// The number of white discs on the board.
    pub white_score: usize,
}

impl View for GameBoard {
    type V = GameModel;

    open spec fn view(&self) -> GameModel {
        GameModel {
            grid: grid_of(self.board),
            turn: self.current_turn,
            over: self.game_over,
            black: self.black_score as nat,
            white: self.white_score as nat,
        }
    }
}

/// A copy of the state of a game, for a caller to keep or hand on. It shares nothing with the
/// game that it was taken from.
#[derive(Clone, Debug)]
pub struct GameState {
    pub board: Squares,
    pub current_turn: PieceColor,
    pub game_over: bool,
    pub black_score: usize,
    pub white_score: usize,
}

impl View for GameState {
    type V = GameModel;

    open spec fn view(&self) -> GameModel {
        GameModel {
            grid: grid_of(self.board),
            turn: self.current_turn,
            over: self.game_over,
            black: self.black_score as nat,
            white: self.white_score as nat,
        }
    }
}

impl GameBoard {
    /// A new game: two discs of each colour on the four centre squares, Black on `(1, 1)` and
    /// `(2, 2)`, White on `(1, 2)` and `(2, 1)`. Black moves first.
    pub fn new() -> (game: GameBoard)
        ensures
            game@ == GameModel::initial(),
            game@.wf(),
    {
        let mut board: Squares = [[None; 4]; 4];
        board[1][1] = Some(PieceColor::Black);
        board[1][2] = Some(PieceColor::White);
        board[2][1] = Some(PieceColor::White);
        board[2][2] = Some(PieceColor::Black);
        let mut game = GameBoard {
            board,
            current_turn: PieceColor::Black,
            game_over: false,
            black_score: 2,
            white_score: 2,
        };
        game.update_score();
        proof {
            assert(grid_of(board) =~~= initial_grid());
            lemma_initial_scores();
        }
        game
    }

    /// Whether `(row, col)` lies on the board.
    pub fn is_valid_position(row: isize, col: isize) -> (valid: bool)
        ensures
            valid == on_board(row as int, col as int),
    {
        row >= 0 && row < 4 && col >= 0 && col < 4
    }

    /// Whether the player to move may put a disc on `position`. A position off the board is
    /// no legal move.
    pub fn is_valid_move(&self, position: Position) -> (legal: bool)
        ensures
            legal == legal_move(
                self@.grid,
                self@.turn,
                position.row as int,
                position.col as int,
            ),
    {
        let row = position.row;
        let col = position.col;
        if row >= 4 || col >= 4 || self.board[row][col].is_some() {
            return false;
        }
        let ghost grid = self@.grid;
        let who = self.current_turn;
        proof {
            lemma_directions();
        }
        for d in 0..8usize
            invariant
                row == position.row < 4,
                col == position.col < 4,
                grid == grid_of(self.board),
                who == self.current_turn,
                grid[row as int][col as int] is None,
                forall|e: int|
                    0 <= e < 8 ==> is_direction(#[trigger] direction(e).0, direction(e).1),
                forall|e: int, m: int|
                    0 <= e < d ==> !#[trigger] brackets(
                        grid,
                        who,
                        row as int,
                        col as int,
                        direction(e).0,
                        direction(e).1,
                        m,
                    ),
        {
            let (dr, dc) = DIRECTIONS[d];
            assert(direction(d as int) == (dr as int, dc as int));
            if bracketed_run(&self.board, who, row, col, dr, dc) > 0 {
                return true;
            }
        }
        proof {
            assert forall|dr: int, dc: int, m: int|
                is_direction(dr, dc) implies !#[trigger] brackets(
                grid,
                who,
                row as int,
                col as int,
                dr,
                dc,
                m,
            ) by {
                let e = direction_index(dr, dc);
                assert(direction(e) == (dr, dc));
            }
        }
        false
    }

    /// The legal moves of the player to move, row by row and from left to right within a row.
    pub fn get_valid_moves(&self) -> (moves: Vec<Position>)
        ensures
            moves@ == legal_moves(self@.grid, self@.turn),
    {
        let ghost legal = is_legal(self@.grid, self@.turn);
        let mut valid_moves: Vec<Position> = Vec::new();
        assert(all_squares().take(0).filter(legal) == Seq::<Position>::empty()) by {
            reveal(Seq::filter);
        }
        for row in 0..4usize
            invariant
                legal == is_legal(self@.grid, self@.turn),
                valid_moves@ == all_squares().take(4 * row).filter(legal),
        {
            for col in 0..4usize
                invariant
                    row < 4,
                    legal == is_legal(self@.grid, self@.turn),
                    valid_moves@ == all_squares().take(4 * row + col).filter(legal),
            {
                let position = Position { row, col };
                let ghost seen = all_squares().take(4 * row + col + 1);
                proof {
                    reveal(Seq::filter);
                    assert(seen.drop_last() == all_squares().take(4 * row + col));
                    assert(seen.last() == position);
                }
                if self.is_valid_move(position) {
                    valid_moves.push(position);
                }
            }
        }
        assert(all_squares().take(16) == all_squares());
        valid_moves
    }

    /// Puts a disc of the player to move on `position` and turns over every disc that it
    /// brackets, counts the scores anew and settles who moves next. Where the move is not legal
    /// nothing changes and the answer is `false`.
    pub fn place_piece(&mut self, position: Position) -> (placed: bool)
        ensures
            placed == legal_move(
                old(self)@.grid,
                old(self)@.turn,
                position.row as int,
                position.col as int,
            ),
            !placed ==> *final(self) == *old(self),
            final(self)@ == old(self)@.step(position),
            old(self)@.wf() ==> final(self)@.wf(),
    {
        proof {
            if self@.wf() {
                lemma_step_keeps_wf(self@, position);
            }
        }
        if !self.is_valid_move(position) {
            return false;
        }
        let row = position.row;
        let col = position.col;
        let who = self.current_turn;
        let before = self.board;
        let ghost grid = grid_of(before);
        self.board[row][col] = Some(who);
        proof {
            lemma_directions();
        }
        for d in 0..8usize
            invariant
                row == position.row < 4,
                col == position.col < 4,
                grid == grid_of(before),
                who == self.current_turn,
                self.current_turn == old(self).current_turn,
                self.game_over == old(self).game_over,
                forall|e: int|
                    0 <= e < 8 ==> is_direction(#[trigger] direction(e).0, direction(e).1),
                forall|i: int, j: int| #[trigger]
                    on_board(i, j) ==> self.board[i][j] == (if (i == row && j == col)
                        || flipped_within(grid, who, row as int, col as int, d as int, i, j) {
                        Some(who)
                    } else {
                        before[i][j]
                    }),
        {
            let (dr, dc) = DIRECTIONS[d];
            assert(direction(d as int) == (dr as int, dc as int));
            flip_run(&mut self.board, &before, who, row, col, dr, dc);
        }
        proof {
            let placed = place_grid(grid, who, row as int, col as int);
            assert forall|i: int, j: int| #[trigger] on_board(i, j) implies flipped_within(
                grid,
                who,
                row as int,
                col as int,
                8,
                i,
                j,
            ) == flipped(grid, who, row as int, col as int, i, j) by {
                if flipped(grid, who, row as int, col as int, i, j) {
                    let (dr, dc) = choose|dr: int, dc: int|
                        is_direction(dr, dc) && #[trigger] flipped_along(
                            grid,
                            who,
                            row as int,
                            col as int,
                            dr,
                            dc,
                            i,
                            j,
                        );
                    let e = direction_index(dr, dc);
                    assert(direction(e) == (dr, dc));
                }
            }
            assert forall|i: int, j: int| 0 <= i < 4 && 0 <= j < 4 implies grid_of(self.board)[i][j]
                == placed[i][j] by {
                assert(on_board(i, j));
            }
            assert(grid_of(self.board) =~~= placed);
        }
        self.update_score();
        self.process_turn();
        true
    }

    /// Hands the turn to the other player.
    pub fn switch_turn(&mut self)
        ensures
            *final(self) == (GameBoard {
                current_turn: old(self).current_turn.opposite(),
                ..*old(self)
            }),
    {
        self.current_turn = self.current_turn.opposite();
    }

    /// Counts the discs of each colour on the board and sets both scores to what it finds.
    pub fn update_score(&mut self)
        ensures
            *final(self) == (GameBoard {
                black_score: final(self).black_score,
                white_score: final(self).white_score,
                ..*old(self)
            }),
            final(self)@ == old(self)@.rescored(),
    {
        let ghost grid = self@.grid;
        let mut black_count: usize = 0;
        let mut white_count: usize = 0;
        for row in 0..4usize
            invariant
                *self == *old(self),
                grid == grid_of(self.board),
                black_count == count(grid.take(row as int), PieceColor::Black),
                white_count == count(grid.take(row as int), PieceColor::White),
                black_count + white_count <= 4 * row,
        {
            let ghost cells = grid[row as int];
            let ghost black_before = black_count;
            let ghost white_before = white_count;
            for col in 0..4usize
                invariant
                    row < 4,
                    *self == *old(self),
                    grid == grid_of(self.board),
                    cells == grid[row as int],
                    black_count == black_before + count_in_row(
                        cells.take(col as int),
                        PieceColor::Black,
                    ),
                    white_count == white_before + count_in_row(
                        cells.take(col as int),
                        PieceColor::White,
                    ),
                    black_before + white_before <= 4 * row,
                    black_count + white_count <= 4 * row + col,
            {
                assert(cells.take(col + 1).drop_last() == cells.take(col as int));
                match self.board[row][col] {
                    Some(PieceColor::Black) => black_count += 1,
                    Some(PieceColor::White) => white_count += 1,
                    None => {},
                }
            }
            assert(cells.take(4) == cells);
            assert(grid.take(row + 1).drop_last() == grid.take(row as int));
        }
        assert(grid.take(4) == grid);
        self.black_score = black_count;
        self.white_score = white_count;
    }

    /// Whether the player to move has a legal move.
    pub fn has_valid_moves(&self) -> (any: bool)
        ensures
            any == can_move(self@.grid, self@.turn),
    {
        let ghost grid = self@.grid;
        let ghost who = self@.turn;
        for row in 0..4usize
            invariant
                grid == self@.grid,
                who == self@.turn,
                forall|r: int, c: int| 0 <= r < row ==> !#[trigger] legal_move(grid, who, r, c),
        {
            for col in 0..4usize
                invariant
                    row < 4,
                    grid == self@.grid,
                    who == self@.turn,
                    forall|r: int, c: int| 0 <= r < row ==> !#[trigger] legal_move(grid, who, r, c),
                    forall|c: int|
                        0 <= c < col ==> !#[trigger] legal_move(grid, who, row as int, c),
            {
                if self.is_valid_move(Position { row, col }) {
                    return true;
                }
            }
        }
        false
    }

    /// Marks the game as ended.
    pub fn set_game_over(&mut self)
        ensures
            *final(self) == (GameBoard { game_over: true, ..*old(self) }),
    {
        self.game_over = true;
    }

    /// The player with more discs by the scores, or nobody where both have as many. The
    /// answer is final only once the game has ended.
    pub fn get_winner(&self) -> (winner: Option<PieceColor>)
        ensures
            winner == self@.winner(),
    {
        if self.black_score > self.white_score {
            Some(PieceColor::Black)
        } else if self.white_score > self.black_score {
            Some(PieceColor::White)
        } else {
            None
        }
    }

    /// Whether the game has ended.
    pub fn is_game_over(&self) -> (over: bool)
        ensures
            over == self@.over,
    {
        self.game_over
    }

    /// A copy of the state of the game.
    pub fn get_state(&self) -> (state: GameState)
        ensures
            state.board == self.board,
            state.current_turn == self.current_turn,
            state.game_over == self.game_over,
            state.black_score == self.black_score,
            state.white_score == self.white_score,
            state@ == self@,
    {
        GameState {
            board: self.board,
            current_turn: self.current_turn,
            game_over: self.game_over,
            black_score: self.black_score,
            white_score: self.white_score,
        }
    }

    /// Settles who moves after the player to move has put down a disc: the opponent, if the
    /// opponent has a legal move; else the same player again, if that player has one; else the
    /// game has ended, and the turn stays where it was.
    pub fn process_turn(&mut self)
        ensures
            *final(self) == (GameBoard {
                current_turn: final(self).current_turn,
                game_over: final(self).game_over,
                ..*old(self)
            }),
            final(self)@ == old(self)@.advance(),
    {
        self.switch_turn();
        if !self.has_valid_moves() {
            self.switch_turn();
            if !self.has_valid_moves() {
                self.set_game_over();
            }
        }
    }
}

} // verus!
