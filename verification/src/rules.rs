//! The rules of the game, stated over a mathematical model of the board.
//!
//! A board is a grid of four rows of four squares. A move puts a disc on an empty square from
//! which, in at least one of the eight directions, a run of the opponent's discs leads straight
//! to a disc of the mover; every such run is turned over. The executable engine in
//! [`crate::game`] is proved to compute exactly what is defined here.

use vstd::prelude::*;
use crate::game::{PieceColor, Position};

verus! {

/// What one square holds: nothing, or a disc of one colour.
pub type Cell = Option<PieceColor>;

/// The squares of a board, row by row.
pub type Grid = Seq<Seq<Cell>>;

/// The state of a game: the board, the player to move, whether the game has ended, and the
/// number of discs of each colour.
pub struct GameModel {
    pub grid: Grid,
    pub turn: PieceColor,
    pub over: bool,
    pub black: nat,
    pub white: nat,
}

/// Whether `(row, col)` names a square of the board.
pub open spec fn on_board(row: int, col: int) -> bool {
    0 <= row < 4 && 0 <= col < 4
}

/// A grid of four rows of four squares.
pub open spec fn well_shaped(grid: Grid) -> bool {
    &&& grid.len() == 4
    &&& forall|r: int| 0 <= r < 4 ==> (#[trigger] grid[r]).len() == 4
}

/// What a walk over the board sees at `(row, col)`: the content of the square, or nothing once
/// the walk has left the board.
pub open spec fn look(grid: Grid, row: int, col: int) -> Cell {
    if on_board(row, col) {
        grid[row][col]
    } else {
        None
    }
}

/// The eight compass directions: every step of at most one row and one column, but standing
/// still.
pub open spec fn is_direction(dr: int, dc: int) -> bool {
    -1 <= dr <= 1 && -1 <= dc <= 1 && !(dr == 0 && dc == 0)
}

/// `(i, j)` lies `k` steps away from `(row, col)` in direction `(dr, dc)`.
pub open spec fn on_ray(row: int, col: int, dr: int, dc: int, k: int, i: int, j: int) -> bool {
    i == row + k * dr && j == col + k * dc
}

/// What a walk sees `k` steps away from `(row, col)` in direction `(dr, dc)`.
pub open spec fn ray(grid: Grid, row: int, col: int, dr: int, dc: int, k: int) -> Cell {
    look(grid, row + k * dr, col + k * dc)
}

/// A disc of `who` at `(row, col)` would bracket exactly `n` discs in direction `(dr, dc)`: the
/// next `n` squares hold the opponent's discs and the square after them holds one of `who`'s.
pub open spec fn brackets(
    grid: Grid,
    who: PieceColor,
    row: int,
    col: int,
    dr: int,
    dc: int,
    n: int,
) -> bool {
    &&& n >= 1
    &&& forall|k: int|
        1 <= k <= n ==> #[trigger] ray(grid, row, col, dr, dc, k) == Some(who.opposite())
    &&& ray(grid, row, col, dr, dc, n + 1) == Some(who)
}

/// `who` may put a disc on `(row, col)`: the square is on the board and empty, and the disc
/// would bracket at least one of the opponent's discs in some direction.
pub open spec fn legal_move(grid: Grid, who: PieceColor, row: int, col: int) -> bool {
    &&& on_board(row, col)
    &&& grid[row][col] is None
    &&& exists|dr: int, dc: int, n: int|
        is_direction(dr, dc) && #[trigger] brackets(grid, who, row, col, dr, dc, n)
}

/// `who` has at least one legal move.
pub open spec fn can_move(grid: Grid, who: PieceColor) -> bool {
    exists|row: int, col: int| legal_move(grid, who, row, col)
}

/// A disc of `who` put on `(row, col)` turns over the disc on `(i, j)` because it brackets it in
/// direction `(dr, dc)`.
pub open spec fn flipped_along(
    grid: Grid,
    who: PieceColor,
    row: int,
    col: int,
    dr: int,
    dc: int,
    i: int,
    j: int,
) -> bool {
    exists|n: int, k: int|
        #![trigger brackets(grid, who, row, col, dr, dc, n), on_ray(row, col, dr, dc, k, i, j)]
        brackets(grid, who, row, col, dr, dc, n) && 1 <= k <= n && on_ray(row, col, dr, dc, k, i, j)
}

/// A disc of `who` put on `(row, col)` turns over the disc on `(i, j)`.
pub open spec fn flipped(grid: Grid, who: PieceColor, row: int, col: int, i: int, j: int) -> bool {
    exists|dr: int, dc: int|
        is_direction(dr, dc) && #[trigger] flipped_along(grid, who, row, col, dr, dc, i, j)
}

/// The grid with the square `(row, col)` set to `cell` and all others as they were.
pub open spec fn with_square(grid: Grid, row: int, col: int, cell: Cell) -> Grid {
    grid.update(row, grid[row].update(col, cell))
}

/// The grid after `who` has put a disc on `(row, col)`: the new disc, every bracketed disc
/// turned over, and all other squares as they were. Each direction is judged by itself on the
/// grid as it was, so what is turned over in one direction has no part in another.
pub open spec fn place_grid(grid: Grid, who: PieceColor, row: int, col: int) -> Grid {
    Seq::new(
        4,
        |i: int|
            Seq::new(
                4,
                |j: int|
                    if (i == row && j == col) || flipped(grid, who, row, col, i, j) {
                        Some(who)
                    } else {
                        grid[i][j]
                    },
            ),
    )
}

/// The number of a square, counting along the rows from the top left.
pub open spec fn rank(position: Position) -> int {
    4 * position.row + position.col
}

/// The square with number `i`.
pub open spec fn square(i: int) -> Position {
    Position { row: (i / 4) as usize, col: (i % 4) as usize }
}

/// The sixteen squares of the board in the order of their numbers.
pub open spec fn all_squares() -> Seq<Position> {
    Seq::new(16, |i: int| square(i))
}

/// The test that picks `who`'s legal moves out of a list of squares.
pub open spec fn is_legal(grid: Grid, who: PieceColor) -> spec_fn(Position) -> bool {
    |p: Position| legal_move(grid, who, p.row as int, p.col as int)
}

/// The legal moves of `who`, row by row and from left to right within a row.
pub open spec fn legal_moves(grid: Grid, who: PieceColor) -> Seq<Position> {
    all_squares().filter(is_legal(grid, who))
}

/// One if the square holds a disc of `who`, else zero.
pub open spec fn one_if(cell: Cell, who: PieceColor) -> nat {
    if cell == Some(who) {
        1
    } else {
        0
    }
}

/// One if the square holds a disc, else zero.
pub open spec fn one_if_some(cell: Cell) -> nat {
    if cell is Some {
        1
    } else {
        0
    }
}

/// How many squares of a row hold a disc of `who`.
pub open spec fn count_in_row(cells: Seq<Cell>, who: PieceColor) -> nat
    decreases cells.len(),
{
    if cells.len() == 0 {
        0
    } else {
        count_in_row(cells.drop_last(), who) + one_if(cells.last(), who)
    }
}

/// How many squares of a grid hold a disc of `who`.
pub open spec fn count(grid: Grid, who: PieceColor) -> nat
    decreases grid.len(),
{
    if grid.len() == 0 {
        0
    } else {
        count(grid.drop_last(), who) + count_in_row(grid.last(), who)
    }
}

/// How many squares of a row are not empty.
pub open spec fn occupied_in_row(cells: Seq<Cell>) -> nat
    decreases cells.len(),
{
    if cells.len() == 0 {
        0
    } else {
        occupied_in_row(cells.drop_last()) + one_if_some(cells.last())
    }
}

/// How many squares of a grid are not empty.
pub open spec fn occupied(grid: Grid) -> nat
    decreases grid.len(),
{
    if grid.len() == 0 {
        0
    } else {
        occupied(grid.drop_last()) + occupied_in_row(grid.last())
    }
}

/// The board at the start of a game: Black on the two centre squares of the diagonal that
/// runs down to the right, White on the other two.
pub open spec fn initial_grid() -> Grid {
    seq![
        seq![None, None, None, None],
        seq![None, Some(PieceColor::Black), Some(PieceColor::White), None],
        seq![None, Some(PieceColor::White), Some(PieceColor::Black), None],
        seq![None, None, None, None],
    ]
}

impl GameModel {
    /// The start of a game: two discs of each colour in the centre, Black to move.
    pub open spec fn initial() -> GameModel {
        GameModel {
            grid: initial_grid(),
            turn: PieceColor::Black,
            over: false,
            black: 2,
            white: 2,
        }
    }

    /// A state as the engine keeps it: a full grid, each score the number of discs of its
    /// colour, and the game marked as ended only where neither player can move.
    pub open spec fn wf(self) -> bool {
        &&& well_shaped(self.grid)
        &&& self.black == count(self.grid, PieceColor::Black)
        &&& self.white == count(self.grid, PieceColor::White)
        &&& self.over ==> !can_move(self.grid, PieceColor::Black) && !can_move(
            self.grid,
            PieceColor::White,
        )
    }

    /// The same state with both scores counted anew from the grid.
    pub open spec fn rescored(self) -> GameModel {
        GameModel {
            black: count(self.grid, PieceColor::Black),
            white: count(self.grid, PieceColor::White),
            ..self
        }
    }

    /// Who moves next once the player to move has put down a disc: the opponent, if the
    /// opponent has a legal move; else the same player again, if that player has one; else
    /// nobody, and the game has ended with the turn left where it was. A game that has ended
    /// stays ended.
    pub open spec fn advance(self) -> GameModel {
        if can_move(self.grid, self.turn.opposite()) {
            GameModel { turn: self.turn.opposite(), ..self }
        } else if can_move(self.grid, self.turn) {
            self
        } else {
            GameModel { over: true, ..self }
        }
    }

    /// The state after the player to move has put a disc on `(row, col)`, a legal move.
    pub open spec fn place(self, row: int, col: int) -> GameModel {
        GameModel {
            grid: place_grid(self.grid, self.turn, row, col),
            ..self
        }.rescored().advance()
    }

    /// The state after an attempt to put a disc on `position`: a legal move is made, and any
    /// other attempt changes nothing.
    pub open spec fn step(self, position: Position) -> GameModel {
        if legal_move(self.grid, self.turn, position.row as int, position.col as int) {
            self.place(position.row as int, position.col as int)
        } else {
            self
        }
    }

    /// The state after one attempt for each of `moves`, in order.
    pub open spec fn play(self, moves: Seq<Position>) -> GameModel
        decreases moves.len(),
    {
        if moves.len() == 0 {
            self
        } else {
            self.play(moves.drop_last()).step(moves.last())
        }
    }

    /// The player with more discs by the scores, or nobody where both have as many.
    pub open spec fn winner(self) -> Option<PieceColor> {
        if self.black > self.white {
            Some(PieceColor::Black)
        } else if self.white > self.black {
            Some(PieceColor::White)
        } else {
            None
        }
    }
}

/// `k` steps in a direction move by `k` times the direction's component, which is `k`, `-k`
/// or nothing.
pub proof fn lemma_steps(d: int, k: int)
    requires
        -1 <= d <= 1,
    ensures
        k * d == (if d == 1 {
            k
        } else if d == -1 {
            -k
        } else {
            0
        }),
{
    assert(k * d == (if d == 1 {
        k
    } else if d == -1 {
        -k
    } else {
        0
    })) by (nonlinear_arith)
        requires
            -1 <= d <= 1,
    ;
}

/// In one direction a disc brackets a run of one length only.
pub proof fn lemma_brackets_unique(
    grid: Grid,
    who: PieceColor,
    row: int,
    col: int,
    dr: int,
    dc: int,
    n: int,
    m: int,
)
    requires
        brackets(grid, who, row, col, dr, dc, n),
        brackets(grid, who, row, col, dr, dc, m),
    ensures
        n == m,
{
    if n < m {
        assert(ray(grid, row, col, dr, dc, n + 1) == Some(who.opposite()));
    } else if m < n {
        assert(ray(grid, row, col, dr, dc, m + 1) == Some(who.opposite()));
    }
}

/// The counts over a row of four squares, written out.
pub proof fn lemma_count_in_row(cells: Seq<Cell>, who: PieceColor)
    requires
        cells.len() == 4,
    ensures
        count_in_row(cells, who) == one_if(cells[0], who) + one_if(cells[1], who) + one_if(
            cells[2],
            who,
        ) + one_if(cells[3], who),
        occupied_in_row(cells) == one_if_some(cells[0]) + one_if_some(cells[1]) + one_if_some(
            cells[2],
        ) + one_if_some(cells[3]),
{
    reveal_with_fuel(count_in_row, 5);
    reveal_with_fuel(occupied_in_row, 5);
    assert(cells.drop_last() == seq![cells[0], cells[1], cells[2]]);
    assert(cells.drop_last().drop_last() == seq![cells[0], cells[1]]);
    assert(cells.drop_last().drop_last().drop_last() == seq![cells[0]]);
}

/// The counts over a grid of four rows, written out.
pub proof fn lemma_count(grid: Grid, who: PieceColor)
    requires
        grid.len() == 4,
    ensures
        count(grid, who) == count_in_row(grid[0], who) + count_in_row(grid[1], who) + count_in_row(
            grid[2],
            who,
        ) + count_in_row(grid[3], who),
        occupied(grid) == occupied_in_row(grid[0]) + occupied_in_row(grid[1]) + occupied_in_row(
            grid[2],
        ) + occupied_in_row(grid[3]),
{
    reveal_with_fuel(count, 5);
    reveal_with_fuel(occupied, 5);
    assert(grid.drop_last() == seq![grid[0], grid[1], grid[2]]);
    assert(grid.drop_last().drop_last() == seq![grid[0], grid[1]]);
    assert(grid.drop_last().drop_last().drop_last() == seq![grid[0]]);
}

/// At the start of a game each player has two discs.
pub proof fn lemma_initial_scores()
    ensures
        count(initial_grid(), PieceColor::Black) == 2,
        count(initial_grid(), PieceColor::White) == 2,
{
    let g = initial_grid();
    lemma_count(g, PieceColor::Black);
    lemma_count(g, PieceColor::White);
    lemma_count_in_row(g[0], PieceColor::Black);
    lemma_count_in_row(g[1], PieceColor::Black);
    lemma_count_in_row(g[2], PieceColor::Black);
    lemma_count_in_row(g[3], PieceColor::Black);
    lemma_count_in_row(g[0], PieceColor::White);
    lemma_count_in_row(g[1], PieceColor::White);
    lemma_count_in_row(g[2], PieceColor::White);
    lemma_count_in_row(g[3], PieceColor::White);
}

} // verus!
