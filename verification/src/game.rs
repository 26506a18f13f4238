//! The cellular automaton itself: the square grid of live and dead
//! cells, the Moore-neighborhood counting, the synchronous transition
//! to the next generation, and the controller state driven once per
//! rendered frame.

use vstd::prelude::*;

verus! {

use crate::CELL_COUNT;
use crate::PROB_NUM;
use crate::PROB_DEN;
use crate::rng;

/// Mathematical model of a simulation: the grid as a sequence of rows,
/// whether the freshly created state has already been displayed, and
/// the number of synchronous updates since the last reset.
#[verifier::ext_equal]
pub ghost struct GameModel {
    pub grid: Seq<Seq<bool>>,
    pub rendered_initial: bool,
    pub generation: nat,
}

/// A well-formed grid is square: every row is as long as the list of
/// rows.
pub open spec fn grid_wf(g: Seq<Seq<bool>>) -> bool {
    forall|i: int| 0 <= i < g.len() ==> (#[trigger] g[i]).len() == g.len()
}

/// The state of the cell at (x, y); every position outside the grid is
/// dead.
pub open spec fn cell_at(g: Seq<Seq<bool>>, x: int, y: int) -> bool {
    0 <= x < g.len() && 0 <= y < g.len() && g[x][y]
}

/// One when the cell is live, zero when it is dead.
pub open spec fn count_one(b: bool) -> int {
    if b {
        1
    } else {
        0
    }
}

/// Number of live cells among the eight Moore neighbors of (x, y).
/// Neighbors outside the grid contribute nothing; there is no
/// wrap-around.
pub open spec fn neighbor_count(g: Seq<Seq<bool>>, x: int, y: int) -> int {
    count_one(cell_at(g, x - 1, y - 1)) + count_one(cell_at(g, x, y - 1)) + count_one(
        cell_at(g, x + 1, y - 1),
    ) + count_one(cell_at(g, x - 1, y)) + count_one(cell_at(g, x + 1, y)) + count_one(
        cell_at(g, x - 1, y + 1),
    ) + count_one(cell_at(g, x, y + 1)) + count_one(cell_at(g, x + 1, y + 1))
}

/// The canonical transition rule: a live cell survives exactly on two
/// or three live neighbors (it dies of underpopulation below two and of
/// overpopulation above three), and a dead cell comes to life exactly
/// on three.
pub open spec fn next_cell(alive: bool, neighbors: int) -> bool {
    if alive {
        neighbors == 2 || neighbors == 3
    } else {
        neighbors == 3
    }
}

/// One synchronous update: every cell of the result is determined by
/// the unchanged previous grid alone.
pub open spec fn step_grid(g: Seq<Seq<bool>>) -> Seq<Seq<bool>> {
    Seq::new(
        g.len(),
        |x: int| Seq::new(g.len(), |y: int| next_cell(g[x][y], neighbor_count(g, x, y))),
    )
}

/// The grid after `k` synchronous updates.
pub open spec fn step_n(g: Seq<Seq<bool>>, k: nat) -> Seq<Seq<bool>>
    decreases k,
{
    if k == 0 {
        g
    } else {
        step_grid(step_n(g, (k - 1) as nat))
    }
}

/// What one call of `advance_or_render` does to the model: the first
/// call after creation or reset only marks the initial state as
/// displayed; every later call replaces the grid by its successor and
/// counts one more generation.
pub open spec fn advance_model(m: GameModel) -> GameModel {
    if !m.rendered_initial {
        GameModel { rendered_initial: true, ..m }
    } else {
        GameModel { grid: step_grid(m.grid), generation: m.generation + 1, ..m }
    }
}

/// The model after `k` calls of `advance_or_render`.
pub open spec fn advance_n(m: GameModel, k: nat) -> GameModel
    decreases k,
{
    if k == 0 {
        m
    } else {
        advance_model(advance_n(m, (k - 1) as nat))
    }
}

/// A grid with no live cell at all.
pub open spec fn all_dead(g: Seq<Seq<bool>>) -> bool {
    forall|x: int, y: int| 0 <= x < g.len() && 0 <= y < g.len() ==> !(#[trigger] g[x][y])
}

/// The simulation: the grid, the one-shot flag that makes the first
/// frame show the freshly created state unstepped, and the generation
/// counter.
pub struct Game {
    grid: Vec<Vec<bool>>,
    first_display: bool,
    generation: usize,
}

impl View for Game {
    type V = GameModel;

    closed spec fn view(&self) -> GameModel {
        GameModel {
            grid: self.grid.deep_view(),
            rendered_initial: self.first_display,
            generation: self.generation as nat,
        }
    }
}

/// A vector of booleans views the same sequence deeply and shallowly.
pub proof fn lemma_bool_row_deep_view(row: Vec<bool>)
    ensures
        row.deep_view() == row@,
{
    assert(row.deep_view() =~= row@);
}

/// The transition rule computed on machine integers.
pub fn next_cell_state(alive: bool, neighbors: usize) -> (b: bool)
    ensures
        b == next_cell(alive, neighbors as int),
{
    if alive {
        neighbors == 2 || neighbors == 3
    } else {
        neighbors == 3
    }
}

/// A freshly randomized square grid of dimension `n`, each cell live
/// with probability `PROB_NUM / PROB_DEN`.
fn random_grid(n: usize) -> (g: Vec<Vec<bool>>)
    ensures
        g.deep_view().len() == n,
        grid_wf(g.deep_view()),
{
    let mut rng = rng::new_rng();
    let mut g: Vec<Vec<bool>> = Vec::new();
    for x in 0..n
        invariant
            g@.len() == x,
            forall|i: int| 0 <= i < x ==> (#[trigger] g@[i])@.len() == n,
    {
        let mut row: Vec<bool> = Vec::new();
        for y in 0..n
            invariant
                row@.len() == y,

        {
            row.push(rng::rng_below(&mut rng, PROB_DEN) < PROB_NUM);
        }
        g.push(row);
    }
    proof {
        assert forall|i: int| 0 <= i < g.deep_view().len() implies (
        #[trigger] g.deep_view()[i]).len() == g.deep_view().len() by {
            lemma_bool_row_deep_view(g@[i]);
        }
    }
    g
}

impl Game {
    /// The representation invariant: the grid is square.
    pub open spec fn wf(self) -> bool {
        grid_wf(self@.grid)
    }

    /// A new simulation over a randomized `CELL_COUNT`-dimension grid,
    /// at generation zero, with the initial display still pending.
    pub fn new() -> (game: Game)
        ensures
            game.wf(),
            game@.grid.len() == CELL_COUNT,
            game@.generation == 0,
            !game@.rendered_initial,
    {
        Game { grid: random_grid(CELL_COUNT), first_display: false, generation: 0 }
    }

    /// A simulation over the given cells, at generation zero, with the
    /// initial display pending. Succeeds exactly when the cells form a
    /// non-empty square grid; a mis-shaped grid is a configuration
    /// error, rejected at construction time.
    pub fn from_cells(cells: Vec<Vec<bool>>) -> (result: Option<Game>)
        ensures
            match result {
                Some(game) => {
                    &&& cells.deep_view().len() > 0
                    &&& grid_wf(cells.deep_view())
                    &&& game.wf()
                    &&& game@.grid == cells.deep_view()
                    &&& game@.generation == 0
                    &&& !game@.rendered_initial
                },
                None => cells.deep_view().len() == 0 || !grid_wf(cells.deep_view()),
            },
    {
        if cells.len() == 0 {
            return None;
        }
        let n = cells.len();
        for i in 0..n
            invariant
                n == cells.deep_view().len(),
                forall|j: int| 0 <= j < i ==> (#[trigger] cells.deep_view()[j]).len() == n,
        {
            proof {
                lemma_bool_row_deep_view(cells@[i as int]);
                assert(cells.deep_view()[i as int] == cells@[i as int]@);
            }
            if cells[i].len() != n {
                proof {
                    assert(cells.deep_view()[i as int].len() != n);
                    assert(!grid_wf(cells.deep_view()));
                }
                return None;
            }
        }
        Some(Game { grid: cells, first_display: false, generation: 0 })
    }

    /// Discards the current state: a fresh randomized grid of dimension
    /// `CELL_COUNT`, generation zero, initial display pending again.
    pub fn reset(&mut self)
        ensures
            final(self).wf(),
            final(self)@.grid.len() == CELL_COUNT,
            final(self)@.generation == 0,
            !final(self)@.rendered_initial,
    {
        self.grid = random_grid(CELL_COUNT);
        self.first_display = false;
        self.generation = 0;
    }

    /// The grid dimension N.
    pub fn dimension(&self) -> (n: usize)
        ensures
            n == self@.grid.len(),
    {
        self.grid.len()
    }

    /// The number of synchronous updates since creation or reset.
    pub fn generation_count(&self) -> (g: usize)
        ensures
            g == self@.generation,
    {
        self.generation
    }

    /// The live/dead state of the in-bounds cell (x, y).
    pub fn cell_state(&self, x: usize, y: usize) -> (alive: bool)
        requires
            self.wf(),
            x < self@.grid.len(),
            y < self@.grid.len(),
        ensures
            alive == self@.grid[x as int][y as int],
    {
        proof {
            lemma_bool_row_deep_view(self.grid@[x as int]);
            assert(self@.grid[x as int] == self.grid@[x as int]@);
            assert(self@.grid[x as int].len() == self@.grid.len());
        }
        self.grid[x][y]
    }

    /// The cell at (x, y), where the coordinates may point anywhere;
    /// positions outside the grid are dead.
    fn alive_at(&self, x: i128, y: i128) -> (b: bool)
        requires
            self.wf(),
        ensures
            b == cell_at(self@.grid, x as int, y as int),
    {
        let n = self.grid.len();
        if 0 <= x && x < n as i128 && 0 <= y && y < n as i128 {
            proof {
                lemma_bool_row_deep_view(self.grid@[x as int]);
                assert(self@.grid[x as int] == self.grid@[x as int]@);
                assert(self@.grid[x as int].len() == self@.grid.len());
            }
            self.grid[x as usize][y as usize]
        } else {
            false
        }
    }

    /// Live cells among the eight Moore neighbors of (x, y), with
    /// everything outside the grid counted dead. The coordinate is kept
    /// within a comfortable band only so that the offset arithmetic
    /// cannot overflow.
    fn neighbors_at(&self, x: i128, y: i128) -> (count: usize)
        requires
            self.wf(),
            -0x1_0000_0000_0000_0000 <= x <= 0x1_0000_0000_0000_0000,
            -0x1_0000_0000_0000_0000 <= y <= 0x1_0000_0000_0000_0000,
        ensures
            count == neighbor_count(self@.grid, x as int, y as int),
            count <= 8,
    {
        let mut count: usize = 0;
        if self.alive_at(x - 1, y - 1) {
            count = count + 1;
        }
        if self.alive_at(x, y - 1) {
            count = count + 1;
        }
        if self.alive_at(x + 1, y - 1) {
            count = count + 1;
        }
        if self.alive_at(x - 1, y) {
            count = count + 1;
        }
        if self.alive_at(x + 1, y) {
            count = count + 1;
        }
        if self.alive_at(x - 1, y + 1) {
            count = count + 1;
        }
        if self.alive_at(x, y + 1) {
            count = count + 1;
        }
        if self.alive_at(x + 1, y + 1) {
            count = count + 1;
        }
        count
    }

    /// Live cells among the eight Moore neighbors of (x, y). Any signed
    /// coordinate is accepted, edge and corner cells included; the
    /// count never exceeds eight and never reads outside the grid.
    pub fn live_neighbors(&self, x: isize, y: isize) -> (count: usize)
        requires
            self.wf(),
        ensures
            count == neighbor_count(self@.grid, x as int, y as int),
            count <= 8,
    {
        self.neighbors_at(x as i128, y as i128)
    }

    /// Replaces the grid by its synchronous successor and counts one
    /// more generation. Every cell of the new grid is computed from the
    /// old snapshot, so no update can observe a partially stepped grid.
    pub fn compute_next_state(&mut self)
        requires
            old(self).wf(),
            old(self)@.generation < usize::MAX,
        ensures
            final(self).wf(),
            final(self)@.grid == step_grid(old(self)@.grid),
            final(self)@.generation == old(self)@.generation + 1,
            final(self)@.rendered_initial == old(self)@.rendered_initial,
    {
        let ghost g = self@.grid;
        let n = self.grid.len();
        let mut updated: Vec<Vec<bool>> = Vec::new();
        for x in 0..n
            invariant
                self.wf(),
                self@.grid == g,
                n == g.len(),
                updated@.len() == x,
                forall|i: int| 0 <= i < x ==> (#[trigger] updated@[i])@ == step_grid(g)[i],
        {
            let mut row: Vec<bool> = Vec::new();
            for y in 0..n
                invariant
                    self.wf(),
                    self@.grid == g,
                    n == g.len(),
                    x < n,
                    row@.len() == y,
                    forall|j: int|
                        0 <= j < y ==> (#[trigger] row@[j]) == next_cell(
                            g[x as int][j],
                            neighbor_count(g, x as int, j),
                        ),
            {
                let count = self.neighbors_at(x as i128, y as i128);
                proof {
                    lemma_bool_row_deep_view(self.grid@[x as int]);
                }
                row.push(next_cell_state(self.grid[x][y], count));
            }
            proof {
                assert(row@ =~= step_grid(g)[x as int]);
            }
            updated.push(row);
        }
        proof {
            assert forall|i: int| 0 <= i < n implies #[trigger] updated.deep_view()[i]
                == step_grid(g)[i] by {
                lemma_bool_row_deep_view(updated@[i]);
            }
            assert(updated.deep_view() =~= step_grid(g));
        }
        self.grid = updated;
        self.generation = self.generation + 1;
    }

    /// The operation the render loop drives once per frame: the first
    /// call after creation or reset leaves the grid untouched, so the
    /// caller shows the as-created state; every later call steps the
    /// grid one generation.
    pub fn advance_or_render(&mut self)
        requires
            old(self).wf(),
            old(self)@.rendered_initial ==> old(self)@.generation < usize::MAX,
        ensures
            final(self).wf(),
            final(self)@ == advance_model(old(self)@),
    {
        if !self.first_display {
            self.first_display = true;
        } else {
            self.compute_next_state();
        }
        proof {
            assert(self@ =~~= advance_model(old(self)@));
        }
    }
}

} // verus!
