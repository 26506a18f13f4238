use game_of_life::game::Game;
use game_of_life::glyphs::Glyphs;
use game_of_life::render::BACKGROUND_COLOR;
use game_of_life::render::CELL_COLOR;
use game_of_life::render::HEIGHT;
use game_of_life::render::LINE_COLOR;
use game_of_life::render::TEXT_COLOR;
use game_of_life::render::WIDTH;
use game_of_life::render::decimal_digits;
use game_of_life::render::draw_cell;
use game_of_life::render::draw_grid;
use game_of_life::render::draw_instructions;
use game_of_life::render::draw_letter;
use game_of_life::render::draw_state;
use game_of_life::render::draw_text;

const SENTINEL: u32 = 0x00ABCDEF;

fn fresh_buffer() -> Vec<u32> {
    vec![SENTINEL; WIDTH * HEIGHT]
}

fn at(buffer: &[u32], r: usize, c: usize) -> u32 {
    buffer[r * WIDTH + c]
}

#[test]
fn decimal_digits_of_small_numbers() {
    assert_eq!(decimal_digits(0), vec![0]);
    assert_eq!(decimal_digits(7), vec![7]);
    assert_eq!(decimal_digits(10), vec![1, 0]);
    assert_eq!(decimal_digits(12345), vec![1, 2, 3, 4, 5]);
    assert_eq!(decimal_digits(1000000), vec![1, 0, 0, 0, 0, 0, 0]);
}

#[test]
fn decimal_digits_of_the_largest_word() {
    let ds = decimal_digits(usize::MAX);
    assert!(ds.len() <= 20);
    let rebuilt = ds.iter().fold(0u128, |acc, &d| acc * 10 + d as u128);
    assert_eq!(rebuilt, usize::MAX as u128);
}

#[test]
fn board_has_lines_on_multiples_of_cell_size() {
    let mut buffer = fresh_buffer();
    draw_grid(&mut buffer);
    assert_eq!(at(&buffer, 0, 0), LINE_COLOR);
    assert_eq!(at(&buffer, 40, 7), LINE_COLOR);
    assert_eq!(at(&buffer, 7, 40), LINE_COLOR);
    assert_eq!(at(&buffer, 21, 21), BACKGROUND_COLOR);
    assert_eq!(at(&buffer, 639, 639), BACKGROUND_COLOR);
}

#[test]
fn cell_block_is_filled_and_the_rest_kept() {
    let mut buffer = fresh_buffer();
    // Block of grid cell (3, 2): pixel rows 40..60, columns 60..80.
    draw_cell(&mut buffer, 3, 2, CELL_COLOR);
    assert_eq!(at(&buffer, 40, 60), CELL_COLOR);
    assert_eq!(at(&buffer, 59, 79), CELL_COLOR);
    assert_eq!(at(&buffer, 39, 60), SENTINEL);
    assert_eq!(at(&buffer, 40, 59), SENTINEL);
    assert_eq!(at(&buffer, 60, 60), SENTINEL);
    assert_eq!(at(&buffer, 300, 300), SENTINEL);
}

#[test]
fn offscreen_cell_draws_nothing() {
    let mut buffer = fresh_buffer();
    draw_cell(&mut buffer, 32, 0, CELL_COLOR);
    draw_cell(&mut buffer, 0, 32, CELL_COLOR);
    assert!(buffer.iter().all(|&p| p == SENTINEL));
}

#[test]
fn letter_bits_are_drawn_and_the_rest_kept() {
    let glyphs = Glyphs::new();
    let mut buffer = fresh_buffer();
    // The colon bitmap has its only set bits at (1, 2) and (3, 2).
    draw_letter(&glyphs.double_colon, 200, TEXT_COLOR, &mut buffer);
    assert_eq!(at(&buffer, 11, 202), TEXT_COLOR);
    assert_eq!(at(&buffer, 13, 202), TEXT_COLOR);
    assert_eq!(at(&buffer, 10, 202), SENTINEL);
    assert_eq!(at(&buffer, 12, 202), SENTINEL);
    assert_eq!(at(&buffer, 11, 201), SENTINEL);
}

#[test]
fn text_shows_the_generation_digits() {
    let glyphs = Glyphs::new();
    let g = Game::from_cells(vec![vec![false; 4]; 4]).unwrap();
    let mut buffer = fresh_buffer();
    draw_text(&mut buffer, &g, &glyphs);
    // Generation 0: the zero glyph sits at columns 120..125, rows 10..15.
    for gy in 0..5 {
        for gx in 0..5 {
            let expected = if glyphs.d0[gy][gx] == 1 { TEXT_COLOR } else { SENTINEL };
            assert_eq!(at(&buffer, 10 + gy, 120 + gx), expected);
        }
    }
    // Nothing below the two text bands is touched.
    assert_eq!(at(&buffer, 30, 0), SENTINEL);
    assert_eq!(at(&buffer, 300, 300), SENTINEL);
}

#[test]
fn text_shows_a_two_digit_generation() {
    let glyphs = Glyphs::new();
    let blinker = vec![
        vec![false, false, false, false, false],
        vec![false, false, true, false, false],
        vec![false, false, true, false, false],
        vec![false, false, true, false, false],
        vec![false, false, false, false, false],
    ];
    let mut g = Game::from_cells(blinker).unwrap();
    for _ in 0..12 {
        g.compute_next_state();
    }
    assert_eq!(g.generation_count(), 12);
    let mut buffer = fresh_buffer();
    draw_text(&mut buffer, &g, &glyphs);
    for gy in 0..5 {
        for gx in 0..5 {
            let one = if glyphs.d1[gy][gx] == 1 { TEXT_COLOR } else { SENTINEL };
            let two = if glyphs.d2[gy][gx] == 1 { TEXT_COLOR } else { SENTINEL };
            assert_eq!(at(&buffer, 10 + gy, 120 + gx), one);
            assert_eq!(at(&buffer, 10 + gy, 130 + gx), two);
        }
    }
}

#[test]
fn text_shows_the_generation_label() {
    let glyphs = Glyphs::new();
    let g = Game::from_cells(vec![vec![false; 3]; 3]).unwrap();
    let mut buffer = fresh_buffer();
    draw_text(&mut buffer, &g, &glyphs);
    // "generation:" at columns 10, 20, ..., 110, rows 10..15.
    let label = [
        &glyphs.g,
        &glyphs.e,
        &glyphs.n,
        &glyphs.e,
        &glyphs.r,
        &glyphs.a,
        &glyphs.t,
        &glyphs.i,
        &glyphs.o,
        &glyphs.n,
        &glyphs.double_colon,
    ];
    for (k, letter) in label.iter().enumerate() {
        for gy in 0..5 {
            for gx in 0..5 {
                let expected = if letter[gy][gx] == 1 { TEXT_COLOR } else { SENTINEL };
                assert_eq!(at(&buffer, 10 + gy, 10 + 10 * k + gx), expected);
            }
        }
    }
}

#[test]
fn instructions_show_every_glyph() {
    let glyphs = Glyphs::new();
    let mut buffer = fresh_buffer();
    draw_instructions(&mut buffer, &glyphs);
    // "speed up:w down:s" at row 20, with a wider gap between words.
    let line = [
        (&glyphs.s, 10),
        (&glyphs.p, 20),
        (&glyphs.e, 30),
        (&glyphs.e, 40),
        (&glyphs.d, 50),
        (&glyphs.u, 70),
        (&glyphs.p, 80),
        (&glyphs.double_colon, 90),
        (&glyphs.w, 100),
        (&glyphs.d, 120),
        (&glyphs.o, 130),
        (&glyphs.w, 140),
        (&glyphs.n, 150),
        (&glyphs.double_colon, 160),
        (&glyphs.s, 170),
    ];
    for (letter, offset) in line.iter() {
        for gy in 0..5 {
            for gx in 0..5 {
                let expected = if letter[gy][gx] == 1 { TEXT_COLOR } else { SENTINEL };
                assert_eq!(at(&buffer, 20 + gy, offset + gx), expected);
            }
        }
    }
}

#[test]
fn instructions_stay_in_their_band() {
    let glyphs = Glyphs::new();
    let mut buffer = fresh_buffer();
    draw_instructions(&mut buffer, &glyphs);
    // The "s" of "speed" starts at column 10, row 20.
    assert_eq!(at(&buffer, 20, 11), TEXT_COLOR);
    for c in 0..WIDTH {
        assert_eq!(at(&buffer, 19, c), SENTINEL);
        assert_eq!(at(&buffer, 25, c), SENTINEL);
    }
}

#[test]
fn first_frame_paints_the_initial_cells() {
    let blinker = vec![
        vec![false, false, false, false, false],
        vec![false, false, true, false, false],
        vec![false, false, true, false, false],
        vec![false, false, true, false, false],
        vec![false, false, false, false, false],
    ];
    let mut g = Game::from_cells(blinker).unwrap();
    let mut buffer = fresh_buffer();
    draw_state(&mut g, &mut buffer);
    // No step on the first frame.
    assert_eq!(g.generation_count(), 0);
    // Cell (1, 2) is live: its block covers rows 40..60, columns 20..40.
    assert_eq!(at(&buffer, 40, 20), CELL_COLOR);
    assert_eq!(at(&buffer, 59, 39), CELL_COLOR);
    // Cell (0, 0) is dead: its block keeps the sentinel.
    assert_eq!(at(&buffer, 0, 0), SENTINEL);
}

#[test]
fn second_frame_paints_the_stepped_grid() {
    let blinker = vec![
        vec![false, false, false, false, false],
        vec![false, false, true, false, false],
        vec![false, false, true, false, false],
        vec![false, false, true, false, false],
        vec![false, false, false, false, false],
    ];
    let mut g = Game::from_cells(blinker).unwrap();
    let mut buffer = fresh_buffer();
    draw_state(&mut g, &mut buffer);
    let mut buffer = fresh_buffer();
    draw_state(&mut g, &mut buffer);
    assert_eq!(g.generation_count(), 1);
    // The blinker is vertical now: cell (2, 1) live, cell (1, 2) dead.
    assert_eq!(at(&buffer, 20, 40), CELL_COLOR);
    assert_eq!(at(&buffer, 40, 20), SENTINEL);
}
