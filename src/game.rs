use vstd::prelude::*;

use vstd::string::StringSliceAdditionalSpecFns;

use crate::error::GameError;
use crate::grid::{dead_grid, grid_wf, height_of, in_world, width_of, with_cell, GameState};
use crate::loader::{load, GameStateBuilder};
use crate::rules::{live_count, live_neighbors, next_cell, next_generation};

verus! {

/// The initial board of a simulation, built up before the game starts.
pub struct GameOfLifeSettings {
    initial_state: GameState,
}

impl GameOfLifeSettings {
    /// The initial board.
    pub closed spec fn initial(&self) -> Seq<Seq<bool>> {
        self.initial_state@
    }

    /// The initial board is rectangular and not empty.
    pub open spec fn wf(&self) -> bool {
        grid_wf(self.initial())
    }

    /// A 3 by 3 board of dead cells.
    pub fn new() -> (r: GameOfLifeSettings)
        ensures
            r.wf(),
            r.initial() == dead_grid(3, 3),
    {
        GameOfLifeSettings { initial_state: GameState::blank(3, 3) }
    }

    /// Settings whose initial board is the one that an initial-state text
    /// describes, or the error that loading the text ends with.
    pub fn from_text(text: &str) -> (r: Result<GameOfLifeSettings, GameError>)
        ensures
            r matches Ok(s) ==> s.wf() && load(text.spec_bytes()) == Ok::<Seq<Seq<bool>>, GameError>(
                s.initial(),
            ),
            r matches Err(e) ==> load(text.spec_bytes()) == Err::<Seq<Seq<bool>>, GameError>(e),
    {
        match GameStateBuilder::from_text(text) {
            Ok(initial_state) => Ok(GameOfLifeSettings { initial_state }),
            Err(e) => Err(e),
        }
    }

    /// `(width, height)` of the initial board.
    pub fn get_dimensions(&self) -> (r: (usize, usize))
        requires
            self.wf(),
        ensures
            r.0 == width_of(self.initial()),
            r.1 == height_of(self.initial()),
    {
        self.initial_state.get_dimensions()
    }

    /// Replaces the initial board by an `x` by `y` board of dead cells.
    pub fn set_dimensions(self, x: usize, y: usize) -> (r: Self)
        requires
            x >= 1,
            y >= 1,
        ensures
            r.wf(),
            r.initial() == dead_grid(x as nat, y as nat),
    {
        GameOfLifeSettings { initial_state: GameState::blank(x, y) }
    }

    /// Makes cell `(x, y)` of the initial board live; a position off the
    /// board leaves the settings as they were.
    pub fn set_live_cell(self, x: usize, y: usize) -> (r: Self)
        requires
            self.wf(),
        ensures
            r.wf(),
            in_world(self.initial(), x as int, y as int) ==> r.initial() == with_cell(
                self.initial(),
                x as int,
                y as int,
                true,
            ),
            !in_world(self.initial(), x as int, y as int) ==> r.initial() == self.initial(),
    {
        let mut settings = self;
        let _ = settings.initial_state.set_cell_state(x, y, true);
        settings
    }
}

/// A running simulation: the current board and the number of generations
/// computed so far.
pub struct GameOfLife {
    iterations: u32,
    game_state: GameState,
}

impl GameOfLife {
    /// The number of generations computed so far.
    pub closed spec fn generation(&self) -> nat {
        self.iterations as nat
    }

    /// The current board.
    pub closed spec fn grid(&self) -> Seq<Seq<bool>> {
        self.game_state@
    }

    /// The current board is rectangular and not empty.
    pub open spec fn wf(&self) -> bool {
        grid_wf(self.grid())
    }

    /// A simulation at generation 0 on the initial board of `settings`.
    pub fn new(settings: GameOfLifeSettings) -> (r: GameOfLife)
        ensures
            r.generation() == 0,
            r.grid() == settings.initial(),
    {
        GameOfLife { iterations: 0, game_state: settings.initial_state }
    }

    /// The number of generations computed so far.
    pub fn current_iteration(&self) -> (r: u32)
        ensures
            r == self.generation(),
    {
        self.iterations
    }

    /// The current board.
    pub fn get_state(&self) -> (r: &GameState)
        ensures
            r@ == self.grid(),
    {
        &self.game_state
    }

    /// 1 when the neighbour of `(x, y)` at offset `(dx - 1, dy - 1)` is a
    /// live cell; 0 when it is dead or off the board.
    fn live_at_offset(&self, x: usize, y: usize, dx: usize, dy: usize) -> (r: i32)
        requires
            self.wf(),
            in_world(self.grid(), x as int, y as int),
            dx <= 2,
            dy <= 2,
        ensures
            r == live_count(self.grid(), x + dx - 1, y + dy - 1),
    {
        let (width, height) = self.game_state.get_dimensions();
        if (dx == 0 && x == 0) || (dy == 0 && y == 0) {
            return 0;
        }
        let nx: usize = if dx == 0 { x - 1 } else if dx == 1 { x } else { x + 1 };
        let ny: usize = if dy == 0 { y - 1 } else if dy == 1 { y } else { y + 1 };
        if nx < width && ny < height && self.game_state.get_cell_state(nx, ny) {
            1
        } else {
            0
        }
    }

    /// The number of live cells among the Moore neighbours of `(x, y)`:
    /// each of the eight offsets is tried, and those off the board are
    /// skipped.
    pub fn get_number_of_live_neighbors(&self, x: usize, y: usize) -> (r: i32)
        requires
            self.wf(),
            in_world(self.grid(), x as int, y as int),
        ensures
            r == live_neighbors(self.grid(), x as int, y as int),
    {
        self.live_at_offset(x, y, 0, 0) + self.live_at_offset(x, y, 1, 0)
            + self.live_at_offset(x, y, 2, 0) + self.live_at_offset(x, y, 0, 1)
            + self.live_at_offset(x, y, 2, 1) + self.live_at_offset(x, y, 0, 2)
            + self.live_at_offset(x, y, 1, 2) + self.live_at_offset(x, y, 2, 2)
    }

    /// Advances the simulation by one generation: the next board is built
    /// apart from the current one, which is read only, and then replaces it.
    /// The generation counter is a `u32` and must not be at its maximum.
    pub fn update(&mut self)
        requires
            old(self).wf(),
            old(self).generation() < u32::MAX,
        ensures
            final(self).wf(),
            final(self).generation() == old(self).generation() + 1,
            final(self).grid() == next_generation(old(self).grid()),
    {
        let ghost g = self.grid();
        let (width, height) = self.game_state.get_dimensions();
        let mut next_state = GameState::blank(width, height);
        assert(next_state@ =~~= computed_rows(g, 0, 0));
        let mut y: usize = 0;
        while y < height
            invariant
                self.wf(),
                self.grid() == g,
                width == width_of(g),
                height == height_of(g),
                y <= height,
                next_state.wf(),
                next_state@ == computed_rows(g, y as int, 0),
            decreases height - y,
        {
            let mut x: usize = 0;
            while x < width
                invariant
                    self.wf(),
                    self.grid() == g,
                    width == width_of(g),
                    height == height_of(g),
                    y < height,
                    x <= width,
                    next_state.wf(),
                    next_state@ == computed_rows(g, y as int, x as int),
                decreases width - x,
            {
                let n = self.get_number_of_live_neighbors(x, y);
                let alive = if self.game_state.get_cell_state(x, y) {
                    n == 2 || n == 3
                } else {
                    n == 3
                };
                let _ = next_state.set_cell_state(x, y, alive);
                assert(next_state@ =~~= computed_rows(g, y as int, x + 1));
                x = x + 1;
            }
            assert(computed_rows(g, y as int, width as int) =~~= computed_rows(g, y + 1, 0));
            y = y + 1;
        }
        assert(next_state@ =~~= next_generation(g));
        self.iterations = self.iterations + 1;
        self.game_state = next_state;
    }
}

/// The next generation of `g` as far as the row-major scan has come: the
/// cells before `(x, y)` hold their next state, the others are dead.
spec fn computed_rows(g: Seq<Seq<bool>>, y: int, x: int) -> Seq<Seq<bool>> {
    Seq::new(
        g.len(),
        |j: int|
            Seq::new(
                width_of(g) as nat,
                |i: int| (j < y || (j == y && i < x)) && next_cell(g, i, j),
            ),
    )
}

} // verus!
