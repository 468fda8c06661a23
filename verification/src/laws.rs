//! Laws of the game: what holds of every board, every move and every game, proved from the
//! rules in [`crate::rules`].

use vstd::prelude::*;
use crate::game::{PieceColor, Position};
use crate::rules::{
    all_squares, brackets, can_move, count, count_in_row, flipped, flipped_along, initial_grid,
    is_direction, is_legal, legal_move, legal_moves, lemma_count, lemma_count_in_row,
    lemma_initial_scores, lemma_steps, occupied, occupied_in_row, on_board, on_ray, one_if,
    one_if_some, place_grid, rank, ray, square, well_shaped, with_square, Cell, GameModel, Grid,
};

verus! {

/// The opponent of a player's opponent is the player, and nobody is their own opponent.
pub proof fn lemma_opposite_is_an_involution(who: PieceColor)
    ensures
        who.opposite().opposite() == who,
        who.opposite() != who,
{
}

/// The first `n` squares hold their legal moves in rising order of their numbers.
proof fn lemma_legal_prefix(grid: Grid, who: PieceColor, n: int)
    requires
        0 <= n <= 16,
    ensures
        ({
            let found = all_squares().take(n).filter(is_legal(grid, who));
            &&& forall|a: int| 0 <= a < found.len() ==> rank(#[trigger] found[a]) < n
            &&& forall|a: int, b: int|
                0 <= a < b < found.len() ==> rank(#[trigger] found[a]) < rank(#[trigger] found[b])
        }),
    decreases n,
{
    let test = is_legal(grid, who);
    let found = all_squares().take(n).filter(test);
    reveal(Seq::filter);
    if n > 0 {
        let earlier = all_squares().take(n - 1).filter(test);
        lemma_legal_prefix(grid, who, n - 1);
        assert(all_squares().take(n).drop_last() == all_squares().take(n - 1));
        assert(all_squares().take(n).last() == square(n - 1));
        assert(rank(square(n - 1)) == n - 1);
        assert(found == if test(square(n - 1)) {
            earlier.push(square(n - 1))
        } else {
            earlier
        });
    }
}

/// The list of legal moves holds exactly the legal moves, each once and in the order of the
/// rows, and it is empty exactly where the player cannot move.
pub proof fn lemma_legal_moves(grid: Grid, who: PieceColor)
    ensures
        forall|p: Position| #[trigger]
            legal_moves(grid, who).contains(p) <==> legal_move(
                grid,
                who,
                p.row as int,
                p.col as int,
            ),
        forall|a: int, b: int|
            0 <= a < b < legal_moves(grid, who).len() ==> rank(#[trigger] legal_moves(grid, who)[a])
                < rank(#[trigger] legal_moves(grid, who)[b]),
        can_move(grid, who) <==> legal_moves(grid, who).len() > 0,
{
    let all = all_squares();
    let moves = legal_moves(grid, who);
    let test = is_legal(grid, who);
    broadcast use vstd::seq_lib::group_filter_ensures;
    assert forall|p: Position| legal_move(grid, who, p.row as int, p.col as int) implies #[trigger]
        moves.contains(p) by {
        let i = rank(p);
        assert(all[i] == p);
        assert(test(all[i]));
    }
    assert forall|p: Position| #[trigger] moves.contains(p) implies legal_move(
        grid,
        who,
        p.row as int,
        p.col as int,
    ) by {
        let a = choose|a: int| 0 <= a < moves.len() && moves[a] == p;
        assert(test(moves[a]));
    }
    lemma_legal_prefix(grid, who, 16);
    assert(all.take(16) == all);
    if can_move(grid, who) {
        let (row, col) = choose|row: int, col: int| legal_move(grid, who, row, col);
        let p = Position { row: row as usize, col: col as usize };
        assert(moves.contains(p));
    }
    if moves.len() > 0 {
        assert(test(moves[0]));
        assert(legal_move(grid, who, moves[0].row as int, moves[0].col as int));
    }
}

/// A move is legal exactly where the square is on the board and empty and the new disc turns
/// over at least one disc.
pub proof fn lemma_legal_move_captures(grid: Grid, who: PieceColor, row: int, col: int)
    ensures
        legal_move(grid, who, row, col) <==> on_board(row, col) && grid[row][col] is None
            && exists|i: int, j: int| flipped(grid, who, row, col, i, j),
{
    if legal_move(grid, who, row, col) {
        let (dr, dc, n) = choose|dr: int, dc: int, n: int|
            is_direction(dr, dc) && #[trigger] brackets(grid, who, row, col, dr, dc, n);
        assert(on_ray(row, col, dr, dc, 1, row + 1 * dr, col + 1 * dc));
        assert(flipped_along(grid, who, row, col, dr, dc, row + 1 * dr, col + 1 * dc));
        assert(flipped(grid, who, row, col, row + 1 * dr, col + 1 * dc));
    }
}

/// A walk from a square never comes back to it: what the square itself holds has no part in
/// what a disc on it brackets. So it is all one whether the runs are judged before the new
/// disc is set down or after.
pub proof fn lemma_rays_pass_their_origin_by(
    grid: Grid,
    who: PieceColor,
    row: int,
    col: int,
    dr: int,
    dc: int,
    n: int,
    cell: Cell,
)
    requires
        well_shaped(grid),
        on_board(row, col),
        is_direction(dr, dc),
    ensures
        brackets(with_square(grid, row, col, cell), who, row, col, dr, dc, n) == brackets(
            grid,
            who,
            row,
            col,
            dr,
            dc,
            n,
        ),
{
    let changed = with_square(grid, row, col, cell);
    assert forall|k: int| k != 0 implies #[trigger] ray(changed, row, col, dr, dc, k) == ray(
        grid,
        row,
        col,
        dr,
        dc,
        k,
    ) by {
        lemma_steps(dr, k);
        lemma_steps(dc, k);
    }
    if brackets(grid, who, row, col, dr, dc, n) {
        assert forall|k: int| 1 <= k <= n implies #[trigger] ray(changed, row, col, dr, dc, k)
            == Some(who.opposite()) by {
            assert(ray(grid, row, col, dr, dc, k) == Some(who.opposite()));
        }
    }
    if brackets(changed, who, row, col, dr, dc, n) {
        assert forall|k: int| 1 <= k <= n implies #[trigger] ray(grid, row, col, dr, dc, k)
            == Some(who.opposite()) by {
            assert(ray(changed, row, col, dr, dc, k) == Some(who.opposite()));
        }
    }
}

/// A move leads to the same grid whether its runs are judged on the grid as it was or on the
/// grid with the new disc already set down.
pub proof fn lemma_judging_after_setting_down(grid: Grid, who: PieceColor, row: int, col: int)
    requires
        well_shaped(grid),
        on_board(row, col),
    ensures
        place_grid(with_square(grid, row, col, Some(who)), who, row, col) == place_grid(
            grid,
            who,
            row,
            col,
        ),
{
    let changed = with_square(grid, row, col, Some(who));
    assert forall|dr: int, dc: int, n: int| is_direction(dr, dc) implies #[trigger] brackets(
        changed,
        who,
        row,
        col,
        dr,
        dc,
        n,
    ) == brackets(grid, who, row, col, dr, dc, n) by {
        lemma_rays_pass_their_origin_by(grid, who, row, col, dr, dc, n, Some(who));
    }
    assert forall|i: int, j: int| flipped(changed, who, row, col, i, j) == flipped(
        grid,
        who,
        row,
        col,
        i,
        j,
    ) by {
        assert forall|dr: int, dc: int|
            #![trigger flipped_along(changed, who, row, col, dr, dc, i, j)]
            #![trigger flipped_along(grid, who, row, col, dr, dc, i, j)]
            is_direction(dr, dc) implies flipped_along(changed, who, row, col, dr, dc, i, j)
            == flipped_along(grid, who, row, col, dr, dc, i, j) by {
            if flipped_along(changed, who, row, col, dr, dc, i, j) {
                let (n, k) = choose|n: int, k: int|
                    #![trigger
                        brackets(changed, who, row, col, dr, dc, n),
                        on_ray(row, col, dr, dc, k, i, j)]
                    brackets(changed, who, row, col, dr, dc, n) && 1 <= k <= n && on_ray(
                        row,
                        col,
                        dr,
                        dc,
                        k,
                        i,
                        j,
                    );
                assert(brackets(grid, who, row, col, dr, dc, n));
            }
            if flipped_along(grid, who, row, col, dr, dc, i, j) {
                let (n, k) = choose|n: int, k: int|
                    #![trigger
                        brackets(grid, who, row, col, dr, dc, n),
                        on_ray(row, col, dr, dc, k, i, j)]
                    brackets(grid, who, row, col, dr, dc, n) && 1 <= k <= n && on_ray(
                        row,
                        col,
                        dr,
                        dc,
                        k,
                        i,
                        j,
                    );
                assert(brackets(changed, who, row, col, dr, dc, n));
            }
        }
    }
    assert(place_grid(changed, who, row, col) =~~= place_grid(grid, who, row, col));
}

/// Every disc that a move turns over lies on the board, away from the new disc, and was the
/// opponent's.
pub proof fn lemma_flipped_was_opponent(
    grid: Grid,
    who: PieceColor,
    row: int,
    col: int,
    i: int,
    j: int,
)
    requires
        flipped(grid, who, row, col, i, j),
    ensures
        on_board(i, j),
        grid[i][j] == Some(who.opposite()),
        !(i == row && j == col),
{
    let (dr, dc) = choose|dr: int, dc: int|
        is_direction(dr, dc) && #[trigger] flipped_along(grid, who, row, col, dr, dc, i, j);
    let (n, k) = choose|n: int, k: int|
        #![trigger brackets(grid, who, row, col, dr, dc, n), on_ray(row, col, dr, dc, k, i, j)]
        brackets(grid, who, row, col, dr, dc, n) && 1 <= k <= n && on_ray(
            row,
            col,
            dr,
            dc,
            k,
            i,
            j,
        );
    assert(ray(grid, row, col, dr, dc, k) == Some(who.opposite()));
    lemma_steps(dr, k);
    lemma_steps(dc, k);
}

/// The discs of the two colours in a row are all the discs of the row, four at most.
proof fn lemma_colours_share_the_row(cells: Seq<Cell>)
    requires
        cells.len() == 4,
    ensures
        count_in_row(cells, PieceColor::Black) + count_in_row(cells, PieceColor::White)
            == occupied_in_row(cells),
        occupied_in_row(cells) <= 4,
{
    lemma_count_in_row(cells, PieceColor::Black);
    lemma_count_in_row(cells, PieceColor::White);
    assert forall|j: int| 0 <= j < 4 implies one_if(#[trigger] cells[j], PieceColor::Black)
        + one_if(cells[j], PieceColor::White) == one_if_some(cells[j]) by {
        match cells[j] {
            Some(PieceColor::Black) => {},
            Some(PieceColor::White) => {},
            None => {},
        }
    }
}

/// The discs of the two colours are all the discs, and a board holds sixteen at most.
pub proof fn lemma_colours_share_the_discs(grid: Grid)
    requires
        well_shaped(grid),
    ensures
        count(grid, PieceColor::Black) + count(grid, PieceColor::White) == occupied(grid),
        occupied(grid) <= 16,
{
    lemma_count(grid, PieceColor::Black);
    lemma_count(grid, PieceColor::White);
    lemma_colours_share_the_row(grid[0]);
    lemma_colours_share_the_row(grid[1]);
    lemma_colours_share_the_row(grid[2]);
    lemma_colours_share_the_row(grid[3]);
}

/// A row that holds a disc wherever another does, and on the square `extra` besides where that
/// is a square of the row, holds one disc more; else it holds as many.
proof fn lemma_row_with_one_more(before: Seq<Cell>, after: Seq<Cell>, extra: int)
    requires
        before.len() == 4,
        after.len() == 4,
        forall|j: int|
            0 <= j < 4 ==> one_if_some(#[trigger] after[j]) == one_if_some(before[j]) + (if j
                == extra {
                1nat
            } else {
                0nat
            }),
    ensures
        occupied_in_row(after) == occupied_in_row(before) + (if 0 <= extra < 4 {
            1nat
        } else {
            0nat
        }),
{
    lemma_count_in_row(before, PieceColor::Black);
    lemma_count_in_row(after, PieceColor::Black);
}

/// A legal move leaves a full grid with one disc more than before, the new disc on its square.
pub proof fn lemma_move_adds_one_disc(grid: Grid, who: PieceColor, row: int, col: int)
    requires
        well_shaped(grid),
        legal_move(grid, who, row, col),
    ensures
        well_shaped(place_grid(grid, who, row, col)),
        place_grid(grid, who, row, col)[row][col] == Some(who),
        occupied(place_grid(grid, who, row, col)) == occupied(grid) + 1,
{
    let after = place_grid(grid, who, row, col);
    assert forall|i: int| 0 <= i < 4 implies occupied_in_row(#[trigger] after[i])
        == occupied_in_row(grid[i]) + (if i == row {
        1nat
    } else {
        0nat
    }) by {
        let extra = if i == row {
            col
        } else {
            -1
        };
        assert forall|j: int| 0 <= j < 4 implies one_if_some(#[trigger] after[i][j]) == one_if_some(
            grid[i][j],
        ) + (if j == extra {
            1nat
        } else {
            0nat
        }) by {
            if flipped(grid, who, row, col, i, j) {
                lemma_flipped_was_opponent(grid, who, row, col, i, j);
            }
        }
        lemma_row_with_one_more(grid[i], after[i], extra);
    }
    lemma_count(grid, who);
    lemma_count(after, who);
}

/// What the engine keeps of a state, a move keeps too, whether it is made or refused; and no
/// move takes a disc off the board.
pub proof fn lemma_step_keeps_wf(s: GameModel, position: Position)
    requires
        s.wf(),
    ensures
        s.step(position).wf(),
        occupied(s.step(position).grid) >= occupied(s.grid),
        s.over ==> s.step(position) == s,
{
    let row = position.row as int;
    let col = position.col as int;
    if legal_move(s.grid, s.turn, row, col) {
        lemma_move_adds_one_disc(s.grid, s.turn, row, col);
        assert(can_move(s.grid, s.turn));
    }
}

/// What the engine keeps of a state, every run of moves keeps too.
pub proof fn lemma_play_keeps_wf(s: GameModel, moves: Seq<Position>)
    requires
        s.wf(),
    ensures
        s.play(moves).wf(),
        occupied(s.play(moves).grid) >= occupied(s.grid),
        s.over ==> s.play(moves) == s,
    decreases moves.len(),
{
    if moves.len() > 0 {
        lemma_play_keeps_wf(s, moves.drop_last());
        lemma_step_keeps_wf(s.play(moves.drop_last()), moves.last());
    }
}

/// The start of a game is a state as the engine keeps it, with four discs on the board.
pub proof fn lemma_initial_wf()
    ensures
        GameModel::initial().wf(),
        occupied(initial_grid()) == 4,
{
    lemma_initial_scores();
    lemma_colours_share_the_discs(initial_grid());
}

/// A refused move changes nothing, however often it is tried.
pub proof fn lemma_refused_move_changes_nothing(s: GameModel, position: Position)
    requires
        !legal_move(s.grid, s.turn, position.row as int, position.col as int),
    ensures
        s.step(position) == s,
        s.step(position).step(position) == s,
{
}

/// In every state that a game can reach from its start, the two scores together count the
/// discs on the board, of which there are four at least and sixteen at most.
pub proof fn lemma_scores_count_the_discs(moves: Seq<Position>)
    ensures
        ({
            let s = GameModel::initial().play(moves);
            &&& s.wf()
            &&& s.black + s.white == occupied(s.grid)
            &&& 4 <= occupied(s.grid) <= 16
        }),
{
    lemma_initial_wf();
    lemma_play_keeps_wf(GameModel::initial(), moves);
    lemma_colours_share_the_discs(GameModel::initial().play(moves).grid);
}

/// Playing one run of moves and then another is playing the two runs on end.
pub proof fn lemma_play_in_two_parts(s: GameModel, first: Seq<Position>, second: Seq<Position>)
    ensures
        s.play(first + second) == s.play(first).play(second),
    decreases second.len(),
{
    if second.len() == 0 {
        assert(first + second == first);
    } else {
        lemma_play_in_two_parts(s, first, second.drop_last());
        assert((first + second).drop_last() == first + second.drop_last());
        assert((first + second).last() == second.last());
    }
}

/// Once a game has ended, a move never makes it go on.
pub proof fn lemma_over_stays_over(s: GameModel, position: Position)
    requires
        s.over,
    ensures
        s.step(position).over,
{
}

/// Once a game that was played from the start has ended, no further moves change anything
/// of its state.
pub proof fn lemma_ended_game_is_final(played: Seq<Position>, further: Seq<Position>)
    requires
        GameModel::initial().play(played).over,
    ensures
        GameModel::initial().play(played + further) == GameModel::initial().play(played),
{
    lemma_initial_wf();
    lemma_play_keeps_wf(GameModel::initial(), played);
    lemma_play_in_two_parts(GameModel::initial(), played, further);
    lemma_play_keeps_wf(GameModel::initial().play(played), further);
}

} // verus!
