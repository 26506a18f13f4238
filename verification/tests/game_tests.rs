use game_of_life::game::Game;
use game_of_life::game::next_cell_state;

fn grid_from(rows: &[&[u8]]) -> Vec<Vec<bool>> {
    rows.iter().map(|row| row.iter().map(|&v| v == 1).collect()).collect()
}

fn cells_of(game: &Game) -> Vec<Vec<bool>> {
    let n = game.dimension();
    (0..n).map(|x| (0..n).map(|y| game.cell_state(x, y)).collect()).collect()
}

#[test]
fn rule_live_cell_exhaustive() {
    // Live cell: survives exactly on two or three neighbors.
    assert_eq!(next_cell_state(true, 0), false);
    assert_eq!(next_cell_state(true, 1), false);
    assert_eq!(next_cell_state(true, 2), true);
    assert_eq!(next_cell_state(true, 3), true);
    assert_eq!(next_cell_state(true, 4), false);
    assert_eq!(next_cell_state(true, 5), false);
    assert_eq!(next_cell_state(true, 6), false);
    assert_eq!(next_cell_state(true, 7), false);
    assert_eq!(next_cell_state(true, 8), false);
}

#[test]
fn rule_dead_cell_exhaustive() {
    // Dead cell: born exactly on three neighbors.
    assert_eq!(next_cell_state(false, 0), false);
    assert_eq!(next_cell_state(false, 1), false);
    assert_eq!(next_cell_state(false, 2), false);
    assert_eq!(next_cell_state(false, 3), true);
    assert_eq!(next_cell_state(false, 4), false);
    assert_eq!(next_cell_state(false, 5), false);
    assert_eq!(next_cell_state(false, 6), false);
    assert_eq!(next_cell_state(false, 7), false);
    assert_eq!(next_cell_state(false, 8), false);
}

#[test]
fn neighbor_count_bounds_on_full_grid() {
    // On an all-live 3x3 grid a corner sees 3, an edge 5, the center 8.
    let g = Game::from_cells(grid_from(&[&[1, 1, 1], &[1, 1, 1], &[1, 1, 1]])).unwrap();
    assert_eq!(g.live_neighbors(0, 0), 3);
    assert_eq!(g.live_neighbors(0, 2), 3);
    assert_eq!(g.live_neighbors(2, 0), 3);
    assert_eq!(g.live_neighbors(2, 2), 3);
    assert_eq!(g.live_neighbors(0, 1), 5);
    assert_eq!(g.live_neighbors(1, 0), 5);
    assert_eq!(g.live_neighbors(1, 2), 5);
    assert_eq!(g.live_neighbors(2, 1), 5);
    assert_eq!(g.live_neighbors(1, 1), 8);
}

#[test]
fn neighbor_count_outside_the_grid() {
    // Any coordinate is accepted; positions off the grid are dead.
    let g = Game::from_cells(grid_from(&[&[1, 1], &[1, 1]])).unwrap();
    assert_eq!(g.live_neighbors(-1, -1), 1);
    assert_eq!(g.live_neighbors(-1, 0), 2);
    assert_eq!(g.live_neighbors(2, 2), 1);
    assert_eq!(g.live_neighbors(-2, -2), 0);
    assert_eq!(g.live_neighbors(isize::MIN, isize::MAX), 0);
    assert_eq!(g.live_neighbors(isize::MAX, isize::MIN), 0);
}

#[test]
fn blinker_oscillates_with_period_two() {
    // A horizontal blinker at y=2, x in {1,2,3} turns vertical at x=2,
    // then back, cell for cell.
    let horizontal = grid_from(&[
        &[0, 0, 0, 0, 0],
        &[0, 0, 1, 0, 0],
        &[0, 0, 1, 0, 0],
        &[0, 0, 1, 0, 0],
        &[0, 0, 0, 0, 0],
    ]);
    let vertical = grid_from(&[
        &[0, 0, 0, 0, 0],
        &[0, 0, 0, 0, 0],
        &[0, 1, 1, 1, 0],
        &[0, 0, 0, 0, 0],
        &[0, 0, 0, 0, 0],
    ]);
    let mut g = Game::from_cells(horizontal.clone()).unwrap();
    g.compute_next_state();
    assert_eq!(cells_of(&g), vertical);
    assert_eq!(g.generation_count(), 1);
    g.compute_next_state();
    assert_eq!(cells_of(&g), horizontal);
    assert_eq!(g.generation_count(), 2);
}

#[test]
fn block_is_a_still_life() {
    // A 2x2 block never changes: every live cell has 3 neighbors.
    let block = grid_from(&[
        &[0, 0, 0, 0],
        &[0, 1, 1, 0],
        &[0, 1, 1, 0],
        &[0, 0, 0, 0],
    ]);
    let mut g = Game::from_cells(block.clone()).unwrap();
    for _ in 0..4 {
        g.compute_next_state();
        assert_eq!(cells_of(&g), block);
    }
}

#[test]
fn all_dead_grid_stays_dead() {
    let dead = vec![vec![false; 6]; 6];
    let mut g = Game::from_cells(dead.clone()).unwrap();
    for _ in 0..10 {
        g.compute_next_state();
    }
    assert_eq!(cells_of(&g), dead);
    assert_eq!(g.generation_count(), 10);
}

#[test]
fn generation_counts_steps_after_initial_display() {
    let mut g = Game::from_cells(grid_from(&[&[0, 1], &[1, 0]])).unwrap();
    assert_eq!(g.generation_count(), 0);
    // First frame only shows the initial state.
    g.advance_or_render();
    assert_eq!(g.generation_count(), 0);
    for k in 1..=5 {
        g.advance_or_render();
        assert_eq!(g.generation_count(), k);
    }
}

#[test]
fn first_frame_leaves_the_grid_untouched() {
    let start = grid_from(&[
        &[0, 0, 0, 0, 0],
        &[0, 0, 1, 0, 0],
        &[0, 0, 1, 0, 0],
        &[0, 0, 1, 0, 0],
        &[0, 0, 0, 0, 0],
    ]);
    let mut g = Game::from_cells(start.clone()).unwrap();
    g.advance_or_render();
    assert_eq!(cells_of(&g), start);
    assert_eq!(g.generation_count(), 0);
    // The second frame is the one that steps.
    g.advance_or_render();
    assert_ne!(cells_of(&g), start);
    assert_eq!(g.generation_count(), 1);
}

#[test]
fn reset_restores_generation_and_pending_display() {
    let mut g = Game::new();
    g.advance_or_render();
    g.advance_or_render();
    g.advance_or_render();
    assert_eq!(g.generation_count(), 2);
    g.reset();
    assert_eq!(g.generation_count(), 0);
    assert_eq!(g.dimension(), 32);
    // The pending initial display is restored: the next frame does not step.
    let before = cells_of(&g);
    g.advance_or_render();
    assert_eq!(cells_of(&g), before);
    assert_eq!(g.generation_count(), 0);
}

#[test]
fn new_game_is_randomized_and_sparse() {
    // Cells are live with probability one in twenty: an all-live or
    // even half-live 32x32 grid means the randomness is broken.
    let g = Game::new();
    assert_eq!(g.dimension(), 32);
    assert_eq!(g.generation_count(), 0);
    let live: usize =
        (0..32).map(|x| (0..32).filter(|&y| g.cell_state(x, y)).count()).sum();
    assert!(live < 512);
}

#[test]
fn two_fresh_games_differ() {
    // Each construction draws fresh randomness; 32x32 grids colliding
    // by chance is beyond unlikely, an all-dead pair almost as much.
    let a = Game::new();
    let b = Game::new();
    let pair_differs = cells_of(&a) != cells_of(&b);
    let any_live = (0..32).any(|x| (0..32).any(|y| a.cell_state(x, y) || b.cell_state(x, y)));
    assert!(pair_differs && any_live);
}

#[test]
fn from_cells_rejects_ragged_rows() {
    let ragged = vec![vec![false, true], vec![false]];
    assert!(Game::from_cells(ragged).is_none());
}

#[test]
fn from_cells_rejects_empty_grid() {
    assert!(Game::from_cells(Vec::new()).is_none());
}
