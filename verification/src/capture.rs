//! Walking the board from a square: how many discs a new disc brackets in one direction, and
//! turning them over.

use vstd::prelude::*;
use crate::game::{grid_of, GameBoard, PieceColor, Squares};
use crate::rules::{
    brackets, flipped_along, is_direction, lemma_brackets_unique, lemma_steps, on_board, on_ray,
    ray, Grid,
};

verus! {

/// The eight directions in which a disc can bracket others, as steps in row and column.
pub const DIRECTIONS: [(isize, isize); 8] = [
    (-1, -1),
    (-1, 0),
    (-1, 1),
    (0, -1),
    (0, 1),
    (1, -1),
    (1, 0),
    (1, 1),
];

/// Direction number `e` of `DIRECTIONS` as a step in row and column.
pub open spec fn direction(e: int) -> (int, int) {
    (DIRECTIONS[e].0 as int, DIRECTIONS[e].1 as int)
}

/// The place of a direction in `DIRECTIONS`.
pub open spec fn direction_index(dr: int, dc: int) -> int {
    let i = 3 * (dr + 1) + (dc + 1);
    if i > 4 {
        i - 1
    } else {
        i
    }
}

/// `DIRECTIONS` holds the eight compass directions and nothing else.
pub proof fn lemma_directions()
    ensures
        forall|e: int| 0 <= e < 8 ==> is_direction(#[trigger] direction(e).0, direction(e).1),
        forall|dr: int, dc: int|
            is_direction(dr, dc) ==> 0 <= #[trigger] direction_index(dr, dc) < 8 && direction(
                direction_index(dr, dc),
            ) == (dr, dc),
{
    assert(direction(0) == (-1int, -1int));
    assert(direction(1) == (-1int, 0int));
    assert(direction(2) == (-1int, 1int));
    assert(direction(3) == (0int, -1int));
    assert(direction(4) == (0int, 1int));
    assert(direction(5) == (1int, -1int));
    assert(direction(6) == (1int, 0int));
    assert(direction(7) == (1int, 1int));
}

/// `(i, j)` is one of the first `m` squares on the way from `(row, col)` in direction
/// `(dr, dc)`.
pub open spec fn within_steps(
    row: int,
    col: int,
    dr: int,
    dc: int,
    m: int,
    i: int,
    j: int,
) -> bool {
    exists|t: int| 1 <= t <= m && #[trigger] on_ray(row, col, dr, dc, t, i, j)
}

/// A disc of `who` put on `(row, col)` turns over the disc on `(i, j)` in one of the first `d`
/// directions of `DIRECTIONS`.
pub open spec fn flipped_within(
    grid: Grid,
    who: PieceColor,
    row: int,
    col: int,
    d: int,
    i: int,
    j: int,
) -> bool {
    exists|e: int|
        0 <= e < d && #[trigger] flipped_along(
            grid,
            who,
            row,
            col,
            direction(e).0,
            direction(e).1,
            i,
            j,
        )
}

/// Walks from `(row, col)` in direction `(dr, dc)` over the opponent's discs and returns how
/// many of them a disc of `who` on `(row, col)` would bracket: zero where the walk does not
/// end on a disc of `who`.
pub fn bracketed_run(
    squares: &Squares,
    who: PieceColor,
    row: usize,
    col: usize,
    dr: isize,
    dc: isize,
) -> (n: usize)
    requires
        on_board(row as int, col as int),
        is_direction(dr as int, dc as int),
    ensures
        n <= 2,
        n > 0 ==> brackets(
            grid_of(*squares),
            who,
            row as int,
            col as int,
            dr as int,
            dc as int,
            n as int,
        ),
        n == 0 ==> forall|m: int|
            !#[trigger] brackets(
                grid_of(*squares),
                who,
                row as int,
                col as int,
                dr as int,
                dc as int,
                m,
            ),
{
    let ghost grid = grid_of(*squares);
    let mut r: isize = row as isize + dr;
    let mut c: isize = col as isize + dc;
    let mut n: usize = 0;
    proof {
        lemma_steps(dr as int, 1);
        lemma_steps(dc as int, 1);
    }
    while GameBoard::is_valid_position(r, c) && squares[r as usize][c as usize] == Some(
        who.opposite(),
    )
        invariant
            on_board(row as int, col as int),
            is_direction(dr as int, dc as int),
            grid == grid_of(*squares),
            n <= 3,
            r == row + (n + 1) * dr,
            c == col + (n + 1) * dc,
            forall|k: int|
                1 <= k <= n ==> #[trigger] ray(
                    grid,
                    row as int,
                    col as int,
                    dr as int,
                    dc as int,
                    k,
                ) == Some(who.opposite()),
        decreases 3 - n,
    {
        proof {
            lemma_steps(dr as int, n + 1);
            lemma_steps(dc as int, n + 1);
            lemma_steps(dr as int, n + 2);
            lemma_steps(dc as int, n + 2);
            assert(ray(grid, row as int, col as int, dr as int, dc as int, n + 1) == Some(
                who.opposite(),
            ));
        }
        n += 1;
        r += dr;
        c += dc;
    }
    proof {
        lemma_steps(dr as int, n + 1);
        lemma_steps(dc as int, n + 1);
    }
    let closed = n > 0 && GameBoard::is_valid_position(r, c) && squares[r as usize][c as usize]
        == Some(who);
    proof {
        let last = ray(grid, row as int, col as int, dr as int, dc as int, n + 1);
        assert(last != Some(who.opposite()));
        assert(closed <==> n > 0 && last == Some(who));
        if !closed {
            assert forall|m: int| !#[trigger] brackets(
                grid,
                who,
                row as int,
                col as int,
                dr as int,
                dc as int,
                m,
            ) by {
                if brackets(grid, who, row as int, col as int, dr as int, dc as int, m) {
                    if m > n {
                        assert(ray(grid, row as int, col as int, dr as int, dc as int, n + 1)
                            == Some(who.opposite()));
                    } else if m < n {
                        assert(ray(grid, row as int, col as int, dr as int, dc as int, m + 1)
                            == Some(who.opposite()));
                    }
                }
            }
        }
    }
    if closed {
        n
    } else {
        0
    }
}

/// Turns over, in `squares`, the discs that a disc of `who` on `(row, col)` brackets in
/// direction `(dr, dc)` on the board `before`. No other square changes.
pub fn flip_run(
    squares: &mut Squares,
    before: &Squares,
    who: PieceColor,
    row: usize,
    col: usize,
    dr: isize,
    dc: isize,
)
    requires
        on_board(row as int, col as int),
        is_direction(dr as int, dc as int),
    ensures
        forall|i: int, j: int| #[trigger]
            on_board(i, j) ==> final(squares)[i][j] == (if flipped_along(
                grid_of(*before),
                who,
                row as int,
                col as int,
                dr as int,
                dc as int,
                i,
                j,
            ) {
                Some(who)
            } else {
                old(squares)[i][j]
            }),
{
    let ghost grid = grid_of(*before);
    let n = bracketed_run(before, who, row, col, dr, dc);
    let mut r: isize = row as isize;
    let mut c: isize = col as isize;
    let mut k: usize = 0;
    proof {
        lemma_steps(dr as int, 0);
        lemma_steps(dc as int, 0);
    }
    while k < n
        invariant
            on_board(row as int, col as int),
            is_direction(dr as int, dc as int),
            grid == grid_of(*before),
            k <= n <= 2,
            n > 0 ==> brackets(grid, who, row as int, col as int, dr as int, dc as int, n as int),
            r == row + k * dr,
            c == col + k * dc,
            forall|i: int, j: int| #[trigger]
                on_board(i, j) ==> squares[i][j] == (if within_steps(
                    row as int,
                    col as int,
                    dr as int,
                    dc as int,
                    k as int,
                    i,
                    j,
                ) {
                    Some(who)
                } else {
                    old(squares)[i][j]
                }),
        decreases n - k,
    {
        proof {
            lemma_steps(dr as int, k as int);
            lemma_steps(dc as int, k as int);
            lemma_steps(dr as int, k + 1);
            lemma_steps(dc as int, k + 1);
            assert(ray(grid, row as int, col as int, dr as int, dc as int, k + 1) == Some(
                who.opposite(),
            ));
        }
        k += 1;
        r += dr;
        c += dc;
        squares[r as usize][c as usize] = Some(who);
        proof {
            assert(on_ray(
                row as int,
                col as int,
                dr as int,
                dc as int,
                k as int,
                r as int,
                c as int,
            ));
        }
    }
    proof {
        assert forall|i: int, j: int| #[trigger] on_board(i, j) implies flipped_along(
            grid,
            who,
            row as int,
            col as int,
            dr as int,
            dc as int,
            i,
            j,
        ) == within_steps(row as int, col as int, dr as int, dc as int, n as int, i, j) by {
            if flipped_along(grid, who, row as int, col as int, dr as int, dc as int, i, j) {
                let (m, t) = choose|m: int, t: int|
                    #![trigger
                        brackets(grid, who, row as int, col as int, dr as int, dc as int, m),
                        on_ray(row as int, col as int, dr as int, dc as int, t, i, j)]
                    brackets(grid, who, row as int, col as int, dr as int, dc as int, m) && 1 <= t
                        <= m && on_ray(row as int, col as int, dr as int, dc as int, t, i, j);
                lemma_brackets_unique(
                    grid,
                    who,
                    row as int,
                    col as int,
                    dr as int,
                    dc as int,
                    m,
                    n as int,
                );
            }
        }
    }
}

} // verus!
