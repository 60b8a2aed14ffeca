use vstd::prelude::*;

use crate::error::GameError;

verus! {

/// A board is rectangular, with at least one row and one column.
pub open spec fn grid_wf(g: Seq<Seq<bool>>) -> bool {
    &&& g.len() >= 1
    &&& g[0].len() >= 1
    &&& forall|y: int| 0 <= y < g.len() ==> #[trigger] g[y].len() == g[0].len()
}

pub open spec fn width_of(g: Seq<Seq<bool>>) -> int {
    g[0].len() as int
}

pub open spec fn height_of(g: Seq<Seq<bool>>) -> int {
    g.len() as int
}

pub open spec fn in_world(g: Seq<Seq<bool>>, x: int, y: int) -> bool {
    0 <= x < width_of(g) && 0 <= y < height_of(g)
}

/// Whether `(x, y)` is a live cell of `g`; positions off the board are dead.
pub open spec fn cell(g: Seq<Seq<bool>>, x: int, y: int) -> bool {
    in_world(g, x, y) && g[y][x]
}

/// A `width` by `height` board of dead cells.
pub open spec fn dead_grid(width: nat, height: nat) -> Seq<Seq<bool>> {
    Seq::new(height, |y: int| Seq::new(width, |x: int| false))
}

/// `g` with cell `(x, y)` set to `alive`.
pub open spec fn with_cell(g: Seq<Seq<bool>>, x: int, y: int, alive: bool) -> Seq<Seq<bool>> {
    g.update(y, g[y].update(x, alive))
}

/// The error that names `(x, y)` as lying outside `g`.
pub open spec fn out_of_bounds(g: Seq<Seq<bool>>, x: usize, y: usize) -> GameError {
    GameError::OutOfBounds { x, y, width: width_of(g) as usize, height: height_of(g) as usize }
}

/// Setting a cell and reading the board back: the cell reads as set, every
/// other cell and the board's size are as before.
pub proof fn lemma_set_then_get(g: Seq<Seq<bool>>, x: int, y: int, alive: bool)
    requires
        grid_wf(g),
        in_world(g, x, y),
    ensures
        grid_wf(with_cell(g, x, y, alive)),
        width_of(with_cell(g, x, y, alive)) == width_of(g),
        height_of(with_cell(g, x, y, alive)) == height_of(g),
        cell(with_cell(g, x, y, alive), x, y) == alive,
        forall|i: int, j: int|
            i != x || j != y ==> #[trigger] cell(with_cell(g, x, y, alive), i, j) == cell(g, i, j),
{
    let h = with_cell(g, x, y, alive);
    assert(forall|j: int| 0 <= j < h.len() ==> #[trigger] h[j].len() == g[j].len());
}

/// A rectangular board of cells, each live (`true`) or dead (`false`).
pub struct GameState {
    state: Vec<Vec<bool>>,
}

impl View for GameState {
    type V = Seq<Seq<bool>>;

    closed spec fn view(&self) -> Seq<Seq<bool>> {
        self.state@.map_values(|row: Vec<bool>| row@)
    }
}

impl GameState {
    /// The board is rectangular and not empty.
    pub open spec fn wf(&self) -> bool {
        grid_wf(self@)
    }

    /// A board of dead cells; both sides must be at least one.
    pub(crate) fn blank(width: usize, height: usize) -> (r: GameState)
        requires
            width >= 1,
            height >= 1,
        ensures
            r.wf(),
            r@ == dead_grid(width as nat, height as nat),
    {
        let mut state: Vec<Vec<bool>> = Vec::new();
        let mut y: usize = 0;
        while y < height
            invariant
                y <= height,
                state@.len() == y,
                forall|j: int| 0 <= j < y ==> #[trigger] state@[j]@ == Seq::new(width as nat, |x: int| false),
            decreases height - y,
        {
            let row: Vec<bool> = vec![false; width];
            assert(row@ =~= Seq::new(width as nat, |x: int| false));
            state.push(row);
            y = y + 1;
        }
        let r = GameState { state };
        assert(r@ =~= dead_grid(width as nat, height as nat));
        r
    }

    /// A `width` by `height` board of dead cells, or `InvalidDimensions`
    /// when either side is zero.
    pub fn new(width: usize, height: usize) -> (r: Result<GameState, GameError>)
        ensures
            width >= 1 && height >= 1 ==> (r matches Ok(g) && g.wf() && g@ == dead_grid(
                width as nat,
                height as nat,
            ) && width_of(g@) == width && height_of(g@) == height && forall|x: int, y: int|
                !#[trigger] cell(g@, x, y)),
            width == 0 || height == 0 ==> r == Err::<GameState, GameError>(GameError::InvalidDimensions),
    {
        if width == 0 || height == 0 {
            Err(GameError::InvalidDimensions)
        } else {
            Ok(GameState::blank(width, height))
        }
    }

    /// `(width, height)` of the board.
    pub fn get_dimensions(&self) -> (r: (usize, usize))
        requires
            self.wf(),
        ensures
            r.0 == width_of(self@),
            r.1 == height_of(self@),
    {
        (self.state[0].len(), self.state.len())
    }

    fn coord_in_world(&self, x: usize, y: usize) -> (r: bool)
        requires
            self.wf(),
        ensures
            r == in_world(self@, x as int, y as int),
    {
        x < self.state[0].len() && y < self.state.len()
    }

    /// Whether cell `(x, y)` is live.
    pub fn get_cell_state(&self, x: usize, y: usize) -> (r: bool)
        requires
            self.wf(),
            in_world(self@, x as int, y as int),
        ensures
            r == self@[y as int][x as int],
            r == cell(self@, x as int, y as int),
    {
        assert(self.state@[y as int]@ == self@[y as int]);
        self.state[y][x]
    }

    /// Sets cell `(x, y)` to `state`; a position off the board is refused
    /// with `OutOfBounds` and leaves the board as it was.
    pub fn set_cell_state(&mut self, x: usize, y: usize, state: bool) -> (r: Result<(), GameError>)
        requires
            old(self).wf(),
        ensures
            final(self).wf(),
            in_world(old(self)@, x as int, y as int) ==> r == Ok::<(), GameError>(())
                && final(self)@ == with_cell(old(self)@, x as int, y as int, state),
            !in_world(old(self)@, x as int, y as int) ==> r == Err::<(), GameError>(
                out_of_bounds(old(self)@, x, y),
            ) && final(self)@ == old(self)@,
    {
        if self.coord_in_world(x, y) {
            assert(self.state@[y as int]@ == self@[y as int]);
            self.state[y][x] = state;
            assert(self@ =~= with_cell(old(self)@, x as int, y as int, state));
            Ok(())
        } else {
            Err(GameError::OutOfBounds {
                x,
                y,
                width: self.state[0].len(),
                height: self.state.len(),
            })
        }
    }
}

} // verus!
