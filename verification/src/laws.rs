//! Properties of the automaton that hold beyond any single operation:
//! the transition rule spelled out case by case, bounds on the
//! neighbor count at edges and corners, generation accounting over
//! repeated frames, the one-shot initial display, and the stability of
//! the empty grid.

use vstd::prelude::*;

verus! {

use crate::game::GameModel;
use crate::game::advance_model;
use crate::game::advance_n;
use crate::game::all_dead;
use crate::game::cell_at;
use crate::game::neighbor_count;
use crate::game::next_cell;
use crate::game::step_grid;
use crate::game::step_n;

/// The transition rule over every neighbor count: a live cell dies
/// below two live neighbors (underpopulation), survives on two or
/// three, dies above three (overpopulation); a dead cell comes to life
/// exactly on three (reproduction).
pub proof fn lemma_rule_table(neighbors: int)
    ensures
        neighbors < 2 ==> !next_cell(true, neighbors),
        2 <= neighbors <= 3 ==> next_cell(true, neighbors),
        neighbors > 3 ==> !next_cell(true, neighbors),
        next_cell(false, neighbors) <==> neighbors == 3,
{
}

/// The neighbor count of any position lies between zero and eight.
pub proof fn lemma_neighbor_count_range(g: Seq<Seq<bool>>, x: int, y: int)
    ensures
        0 <= neighbor_count(g, x, y) <= 8,
{
}

/// A cell on the boundary of the grid has at most five in-bounds
/// neighbors, so its count never exceeds five.
pub proof fn lemma_edge_neighbor_bound(g: Seq<Seq<bool>>, x: int, y: int)
    requires
        0 <= x < g.len(),
        0 <= y < g.len(),
        x == 0 || x == g.len() - 1 || y == 0 || y == g.len() - 1,
    ensures
        neighbor_count(g, x, y) <= 5,
{
    if x == 0 {
        assert(!cell_at(g, x - 1, y - 1));
        assert(!cell_at(g, x - 1, y));
        assert(!cell_at(g, x - 1, y + 1));
    } else if x == g.len() - 1 {
        assert(!cell_at(g, x + 1, y - 1));
        assert(!cell_at(g, x + 1, y));
        assert(!cell_at(g, x + 1, y + 1));
    } else if y == 0 {
        assert(!cell_at(g, x - 1, y - 1));
        assert(!cell_at(g, x, y - 1));
        assert(!cell_at(g, x + 1, y - 1));
    } else {
        assert(!cell_at(g, x - 1, y + 1));
        assert(!cell_at(g, x, y + 1));
        assert(!cell_at(g, x + 1, y + 1));
    }
}

/// A corner cell has at most three in-bounds neighbors, so its count
/// never exceeds three.
pub proof fn lemma_corner_neighbor_bound(g: Seq<Seq<bool>>, x: int, y: int)
    requires
        0 <= x < g.len(),
        0 <= y < g.len(),
        x == 0 || x == g.len() - 1,
        y == 0 || y == g.len() - 1,
    ensures
        neighbor_count(g, x, y) <= 3,
{
}

/// Synchronicity: the stepped grid keeps its dimension, and each of its
/// cells is determined by the old snapshot alone, through the canonical
/// rule applied to the old cell and the old neighbor count.
pub proof fn lemma_step_synchronous(g: Seq<Seq<bool>>, x: int, y: int)
    requires
        0 <= x < g.len(),
        0 <= y < g.len(),
    ensures
        step_grid(g).len() == g.len(),
        step_grid(g)[x].len() == g.len(),
        step_grid(g)[x][y] == next_cell(g[x][y], neighbor_count(g, x, y)),
{
}

/// Generation accounting: once the initial state has been displayed,
/// `k` further frames advance the generation counter by exactly `k`.
pub proof fn lemma_generation_accounting(m: GameModel, k: nat)
    requires
        m.rendered_initial,
    ensures
        advance_n(m, k).generation == m.generation + k,
        advance_n(m, k).rendered_initial,
    decreases k,
{
    if k > 0 {
        lemma_generation_accounting(m, (k - 1) as nat);
    }
}

/// The one-shot initial display: the first frame after creation or
/// reset leaves grid and generation untouched and only marks the
/// initial state displayed; the second frame is the one that steps.
pub proof fn lemma_initial_display_idempotent(m: GameModel)
    requires
        !m.rendered_initial,
    ensures
        advance_model(m).grid == m.grid,
        advance_model(m).generation == m.generation,
        advance_model(m).rendered_initial,
        advance_n(m, 2).grid == step_grid(m.grid),
        advance_n(m, 2).generation == m.generation + 1,
{
    assert(advance_n(m, 0) == m);
    assert(advance_n(m, 1) == advance_model(advance_n(m, 0)));
    assert(advance_n(m, 2) == advance_model(advance_n(m, 1)));
}

/// A single step of the all-dead grid stays all dead: every neighbor
/// count is zero, and a dead cell with zero live neighbors stays dead.
pub proof fn lemma_dead_step(g: Seq<Seq<bool>>)
    requires
        all_dead(g),
    ensures
        all_dead(step_grid(g)),
        step_grid(g).len() == g.len(),
{
    assert forall|x: int, y: int|
        0 <= x < step_grid(g).len() && 0 <= y < step_grid(g).len() implies !(#[trigger] step_grid(
        g,
    )[x][y]) by {
        assert(!cell_at(g, x - 1, y - 1));
        assert(!cell_at(g, x, y - 1));
        assert(!cell_at(g, x + 1, y - 1));
        assert(!cell_at(g, x - 1, y));
        assert(!cell_at(g, x + 1, y));
        assert(!cell_at(g, x - 1, y + 1));
        assert(!cell_at(g, x, y + 1));
        assert(!cell_at(g, x + 1, y + 1));
        assert(neighbor_count(g, x, y) == 0);
        assert(!g[x][y]);
    }
}

/// Stability of the all-dead grid: no number of steps brings any cell
/// of an all-dead grid to life.
pub proof fn lemma_all_dead_stable(g: Seq<Seq<bool>>, k: nat)
    requires
        all_dead(g),
    ensures
        all_dead(step_n(g, k)),
        step_n(g, k).len() == g.len(),
    decreases k,
{
    if k > 0 {
        lemma_all_dead_stable(g, (k - 1) as nat);
        lemma_dead_step(step_n(g, (k - 1) as nat));
    }
}

} // verus!
