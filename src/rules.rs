use vstd::prelude::*;

use crate::grid::{cell, grid_wf, height_of, in_world, width_of};

verus! {

/// 1 when `(x, y)` is a live cell of `g`, else 0.
pub open spec fn live_count(g: Seq<Seq<bool>>, x: int, y: int) -> int {
    if cell(g, x, y) {
        1
    } else {
        0
    }
}

/// The number of live cells among the eight Moore neighbours of `(x, y)`.
/// The board does not wrap: a neighbour off the board counts as dead.
pub open spec fn live_neighbors(g: Seq<Seq<bool>>, x: int, y: int) -> int {
    live_count(g, x - 1, y - 1) + live_count(g, x, y - 1) + live_count(g, x + 1, y - 1)
        + live_count(g, x - 1, y) + live_count(g, x + 1, y)
        + live_count(g, x - 1, y + 1) + live_count(g, x, y + 1) + live_count(g, x + 1, y + 1)
}

/// Conway's rule: a live cell survives with two or three live neighbours,
/// a dead cell comes alive with exactly three; every other cell is dead.
pub open spec fn next_cell(g: Seq<Seq<bool>>, x: int, y: int) -> bool {
    let n = live_neighbors(g, x, y);
    if cell(g, x, y) {
        n == 2 || n == 3
    } else {
        n == 3
    }
}

/// The generation that follows `g`: same size, every cell by `next_cell`.
pub open spec fn next_generation(g: Seq<Seq<bool>>) -> Seq<Seq<bool>> {
    Seq::new(g.len(), |y: int| Seq::new(width_of(g) as nat, |x: int| next_cell(g, x, y)))
}

/// 1 when `(x, y)` lies on a `width` by `height` board, else 0.
pub open spec fn on_board(width: int, height: int, x: int, y: int) -> int {
    if 0 <= x < width && 0 <= y < height {
        1
    } else {
        0
    }
}

/// How many of the eight Moore neighbour positions of `(x, y)` lie on a
/// `width` by `height` board.
pub open spec fn neighbor_candidates(width: int, height: int, x: int, y: int) -> int {
    on_board(width, height, x - 1, y - 1) + on_board(width, height, x, y - 1)
        + on_board(width, height, x + 1, y - 1) + on_board(width, height, x - 1, y)
        + on_board(width, height, x + 1, y) + on_board(width, height, x - 1, y + 1)
        + on_board(width, height, x, y + 1) + on_board(width, height, x + 1, y + 1)
}

/// Neighbour positions by place on the board. Every live neighbour is a
/// candidate; a corner cell has at most three candidates, a cell on one
/// edge (not a corner) at most five, and an interior cell exactly eight.
/// On a board at least two cells wide and high, a corner has exactly three
/// and an edge cell exactly five.
pub proof fn lemma_neighbor_candidates(g: Seq<Seq<bool>>, x: int, y: int)
    requires
        grid_wf(g),
        in_world(g, x, y),
    ensures
        ({
            let (w, h) = (width_of(g), height_of(g));
            let c = neighbor_candidates(w, h, x, y);
            let x_edge = x == 0 || x == w - 1;
            let y_edge = y == 0 || y == h - 1;
            &&& 0 <= live_neighbors(g, x, y) <= c
            &&& x_edge && y_edge ==> c <= 3
            &&& x_edge != y_edge ==> c <= 5
            &&& !x_edge && !y_edge ==> c == 8
            &&& w >= 2 && h >= 2 && x_edge && y_edge ==> c == 3
            &&& w >= 2 && h >= 2 && x_edge != y_edge ==> c == 5
        }),
{
}

} // verus!
