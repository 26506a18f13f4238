//! Drawing into the pixel framebuffer: the beige background with its
//! cell grid lines, filled blocks for live cells, and a small 5x5
//! bitmap font for the generation counter and the speed instructions.
//! The buffer is a flat row-major vector of `WIDTH * HEIGHT` pixels;
//! presenting it in a window is not this module's business.

use vstd::prelude::*;

verus! {

use vstd::pervasive::VecAdditionalExecFns;

/// Framebuffer width in pixels.
pub const WIDTH: usize = 640;

/// Framebuffer height in pixels.
pub const HEIGHT: usize = 640;

/// Side length of one cell block in pixels.
pub const CELL_SIZE: usize = 20;

/// Light beige background.
pub const BACKGROUND_COLOR: u32 = 0xF4EBD3;

/// Darker beige grid lines.
pub const LINE_COLOR: u32 = 0xDED3C4;

/// Navy fill of a live cell.
pub const CELL_COLOR: u32 = 0x555879;

/// Lighter blue of the on-screen text.
pub const TEXT_COLOR: u32 = 0x98A1BC;

/// The pixel of the row-major buffer at row `r`, column `c`.
pub open spec fn pix(b: Seq<u32>, r: int, c: int) -> u32 {
    b[r * (WIDTH as int) + c]
}

/// What the empty board looks like: grid lines on every row and column
/// that is a multiple of the cell size, background everywhere else.
pub open spec fn board_pixel(r: int, c: int) -> u32 {
    if r % (CELL_SIZE as int) == 0 || c % (CELL_SIZE as int) == 0 {
        LINE_COLOR
    } else {
        BACKGROUND_COLOR
    }
}

/// Clears the whole buffer to the empty board: background with grid
/// lines.
pub fn draw_grid(buffer: &mut Vec<u32>)
    requires
        old(buffer)@.len() == WIDTH * HEIGHT,
    ensures
        final(buffer)@.len() == WIDTH * HEIGHT,
        forall|r: int, c: int|
            0 <= r < HEIGHT && 0 <= c < WIDTH ==> pix(final(buffer)@, r, c) == board_pixel(r, c),
{
    let mut r: usize = 0;
    while r < HEIGHT
        invariant
            r <= HEIGHT,
            buffer@.len() == WIDTH * HEIGHT,
            forall|i: int, j: int|
                0 <= i < r && 0 <= j < WIDTH ==> pix(buffer@, i, j) == board_pixel(i, j),
        decreases HEIGHT - r,
    {
        let mut c: usize = 0;
        while c < WIDTH
            invariant
                r < HEIGHT,
                c <= WIDTH,
                buffer@.len() == WIDTH * HEIGHT,
                forall|i: int, j: int|
                    0 <= i < r && 0 <= j < WIDTH ==> pix(buffer@, i, j) == board_pixel(i, j),
                forall|j: int| 0 <= j < c ==> pix(buffer@, r as int, j) == board_pixel(r as int, j),
            decreases WIDTH - c,
        {
            let color = if r % CELL_SIZE == 0 || c % CELL_SIZE == 0 {
                LINE_COLOR
            } else {
                BACKGROUND_COLOR
            };
            buffer.set(r * WIDTH + c, color);
            c = c + 1;
        }
        r = r + 1;
    }
}

/// Where one cell block lies: `cell_y` counts blocks along a pixel row,
/// `cell_x` counts blocks down the rows.
pub open spec fn cell_block(cell_y: int, cell_x: int, r: int, c: int) -> bool {
    &&& cell_x * (CELL_SIZE as int) <= r < cell_x * (CELL_SIZE as int) + (CELL_SIZE as int)
    &&& cell_y * (CELL_SIZE as int) <= c < cell_y * (CELL_SIZE as int) + (CELL_SIZE as int)
}

/// Whether a cell block lies on the screen at all.
pub open spec fn cell_visible(cell_y: int, cell_x: int) -> bool {
    cell_y < (WIDTH as int) / (CELL_SIZE as int) && cell_x < (HEIGHT as int) / (CELL_SIZE as int)
}

/// Fills one cell block with the given color. A block beyond the
/// screen is left entirely undrawn; every pixel outside the block
/// keeps its value.
pub fn draw_cell(buffer: &mut Vec<u32>, cell_y: usize, cell_x: usize, color: u32)
    requires
        old(buffer)@.len() == WIDTH * HEIGHT,
    ensures
        final(buffer)@.len() == WIDTH * HEIGHT,
        forall|r: int, c: int|
            0 <= r < HEIGHT && 0 <= c < WIDTH ==> #[trigger] pix(final(buffer)@, r, c) == (if cell_visible(
                cell_y as int,
                cell_x as int,
            ) && cell_block(cell_y as int, cell_x as int, r, c) {
                color
            } else {
                pix(old(buffer)@, r, c)
            }),
{
    let ghost orig = buffer@;
    if cell_y >= WIDTH / CELL_SIZE || cell_x >= HEIGHT / CELL_SIZE {
        return ;
    }
    let top = cell_x * CELL_SIZE;
    let left = cell_y * CELL_SIZE;
    let mut dr: usize = 0;
    while dr < CELL_SIZE
        invariant
            dr <= CELL_SIZE,
            cell_y < WIDTH / CELL_SIZE,
            cell_x < HEIGHT / CELL_SIZE,
            top == cell_x * CELL_SIZE,
            left == cell_y * CELL_SIZE,
            buffer@.len() == WIDTH * HEIGHT,
            forall|r: int, c: int|
                0 <= r < HEIGHT && 0 <= c < WIDTH ==> #[trigger] pix(buffer@, r, c) == (if cell_block(
                    cell_y as int,
                    cell_x as int,
                    r,
                    c,
                ) && r < top + dr {
                    color
                } else {
                    pix(orig, r, c)
                }),
        decreases CELL_SIZE - dr,
    {
        let mut dc: usize = 0;
        while dc < CELL_SIZE
            invariant
                dr < CELL_SIZE,
                dc <= CELL_SIZE,
                cell_y < WIDTH / CELL_SIZE,
                cell_x < HEIGHT / CELL_SIZE,
                top == cell_x * CELL_SIZE,
                left == cell_y * CELL_SIZE,
                buffer@.len() == WIDTH * HEIGHT,
                forall|r: int, c: int|
                    0 <= r < HEIGHT && 0 <= c < WIDTH ==> #[trigger] pix(buffer@, r, c) == (if cell_block(
                        cell_y as int,
                        cell_x as int,
                        r,
                        c,
                    ) && (r < top + dr || (r == top + dr && c < left + dc)) {
                        color
                    } else {
                        pix(orig, r, c)
                    }),
            decreases CELL_SIZE - dc,
        {
            let ghost before = buffer@;
            buffer.set((top + dr) * WIDTH + (left + dc), color);
            proof {
                let a = top + dr;
                let b = left + dc;
                assert forall|r: int, c: int| 0 <= r < HEIGHT && 0 <= c < WIDTH implies #[trigger] pix(
                    buffer@,
                    r,
                    c,
                ) == (if cell_block(cell_y as int, cell_x as int, r, c) && (r < top + dr || (r == top
                    + dr && c < left + dc + 1)) {
                    color
                } else {
                    pix(orig, r, c)
                }) by {
                    assert(pix(before, r, c) == (if cell_block(cell_y as int, cell_x as int, r, c)
                        && (r < top + dr || (r == top + dr && c < left + dc)) {
                        color
                    } else {
                        pix(orig, r, c)
                    }));
                    if r == a && c == b {
                        assert(cell_block(cell_y as int, cell_x as int, r, c));
                        assert(pix(buffer@, r, c) == color);
                    } else {
                        assert(r * (WIDTH as int) + c != a * (WIDTH as int) + b);
                        assert(pix(buffer@, r, c) == pix(before, r, c));
                    }
                }
            }
            dc = dc + 1;
        }
        dr = dr + 1;
    }
}

/// Side length of one glyph bitmap in pixels.
pub const GLYPH_SIZE: usize = 5;

/// The 5x5 window a glyph occupies, its top-left corner at row `top`,
/// column `offset`.
pub open spec fn glyph_window(top: int, offset: int, r: int, c: int) -> bool {
    top <= r < top + (GLYPH_SIZE as int) && offset <= c < offset + (GLYPH_SIZE as int)
}

/// Blits one glyph bitmap: the pixels under its set bits take the
/// given color, every other pixel of the buffer keeps its value.
fn draw_letter_at(letter: &[[u8; 5]; 5], offset: usize, top: usize, color: u32, buffer: &mut Vec<
    u32,
>)
    requires
        old(buffer)@.len() == WIDTH * HEIGHT,
        offset + GLYPH_SIZE <= WIDTH,
        top + GLYPH_SIZE <= HEIGHT,
    ensures
        final(buffer)@.len() == WIDTH * HEIGHT,
        forall|r: int, c: int|
            0 <= r < HEIGHT && 0 <= c < WIDTH ==> #[trigger] pix(final(buffer)@, r, c) == (if glyph_window(
                top as int,
                offset as int,
                r,
                c,
            ) && letter@[r - top]@[c - offset] == 1 {
                color
            } else {
                pix(old(buffer)@, r, c)
            }),
{
    let ghost orig = buffer@;
    let mut gy: usize = 0;
    while gy < GLYPH_SIZE
        invariant
            gy <= GLYPH_SIZE,
            offset + GLYPH_SIZE <= WIDTH,
            top + GLYPH_SIZE <= HEIGHT,
            buffer@.len() == WIDTH * HEIGHT,
            forall|r: int, c: int|
                0 <= r < HEIGHT && 0 <= c < WIDTH ==> #[trigger] pix(buffer@, r, c) == (if glyph_window(
                    top as int,
                    offset as int,
                    r,
                    c,
                ) && r < top + gy && letter@[r - top]@[c - offset] == 1 {
                    color
                } else {
                    pix(orig, r, c)
                }),
        decreases GLYPH_SIZE - gy,
    {
        let mut gx: usize = 0;
        while gx < GLYPH_SIZE
            invariant
                gy < GLYPH_SIZE,
                gx <= GLYPH_SIZE,
                offset + GLYPH_SIZE <= WIDTH,
                top + GLYPH_SIZE <= HEIGHT,
                buffer@.len() == WIDTH * HEIGHT,
                forall|r: int, c: int|
                    0 <= r < HEIGHT && 0 <= c < WIDTH ==> #[trigger] pix(buffer@, r, c) == (if glyph_window(
                        top as int,
                        offset as int,
                        r,
                        c,
                    ) && (r < top + gy || (r == top + gy && c < offset + gx)) && letter@[r - top]@[c
                        - offset] == 1 {
                        color
                    } else {
                        pix(orig, r, c)
                    }),
            decreases GLYPH_SIZE - gx,
        {
            let ghost before = buffer@;
            let a = top + gy;
            let b = offset + gx;
            if letter[gy][gx] == 1 {
                buffer.set(a * WIDTH + b, color);
            }
            proof {
                assert forall|r: int, c: int| 0 <= r < HEIGHT && 0 <= c < WIDTH implies #[trigger] pix(
                    buffer@,
                    r,
                    c,
                ) == (if glyph_window(top as int, offset as int, r, c) && (r < top + gy || (r == top
                    + gy && c < offset + gx + 1)) && letter@[r - top]@[c - offset] == 1 {
                    color
                } else {
                    pix(orig, r, c)
                }) by {
                    assert(pix(before, r, c) == (if glyph_window(top as int, offset as int, r, c)
                        && (r < top + gy || (r == top + gy && c < offset + gx)) && letter@[r - top]@[
                        c - offset] == 1 {
                        color
                    } else {
                        pix(orig, r, c)
                    }));
                    if r == a && c == b {
                        assert(glyph_window(top as int, offset as int, r, c));
                        if letter@[r - top]@[c - offset] == 1 {
                            assert(pix(buffer@, r, c) == color);
                        } else {
                            assert(buffer@ == before);
                        }
                    } else {
                        assert(r * (WIDTH as int) + c != a * (WIDTH as int) + b);
                        assert(pix(buffer@, r, c) == pix(before, r, c));
                    }
                }
            }
            gx = gx + 1;
        }
        gy = gy + 1;
    }
}

/// Blits one glyph of the generation line, whose text row starts ten
/// pixels down from the top of the screen.
pub fn draw_letter(letter: &[[u8; 5]; 5], offset: usize, color: u32, buffer: &mut Vec<u32>)
    requires
        old(buffer)@.len() == WIDTH * HEIGHT,
        offset + GLYPH_SIZE <= WIDTH,
    ensures
        final(buffer)@.len() == WIDTH * HEIGHT,
        forall|r: int, c: int|
            0 <= r < HEIGHT && 0 <= c < WIDTH ==> #[trigger] pix(final(buffer)@, r, c) == (if glyph_window(
                10,
                offset as int,
                r,
                c,
            ) && letter@[r - 10]@[c - offset] == 1 {
                color
            } else {
                pix(old(buffer)@, r, c)
            }),
{
    draw_letter_at(letter, offset, 10, color, buffer)
}

/// Whether the pixel at (r, c) lies in the on-screen block of some
/// live cell of the grid.
pub open spec fn covered_by_live(g: Seq<Seq<bool>>, r: int, c: int) -> bool {
    exists|x: int, y: int|
        0 <= x < g.len() && 0 <= y < g.len() && g[x][y] && cell_visible(x, y) && #[trigger] cell_block(
            x,
            y,
            r,
            c,
        )
}

/// Whether the pixel at (r, c) lies in the on-screen block of some
/// live cell that the row-major sweep has already drawn: every cell of
/// a row before `x`, and the cells of row `x` before `y`.
spec fn covered_upto(g: Seq<Seq<bool>>, x: int, y: int, r: int, c: int) -> bool {
    exists|i: int, j: int|
        0 <= i < g.len() && 0 <= j < g.len() && (i < x || (i == x && j < y)) && g[i][j]
            && cell_visible(i, j) && #[trigger] cell_block(i, j, r, c)
}

/// What the render loop does each frame: advance the simulation (or,
/// on the very first frame, keep the freshly created grid) and fill
/// the block of every live cell of the resulting grid. Every pixel
/// outside those blocks keeps its value.
pub fn draw_state(game: &mut crate::game::Game, buffer: &mut Vec<u32>)
    requires
        old(game).wf(),
        old(game)@.rendered_initial ==> old(game)@.generation < usize::MAX,
        old(buffer)@.len() == WIDTH * HEIGHT,
    ensures
        final(game).wf(),
        final(game)@ == crate::game::advance_model(old(game)@),
        final(buffer)@.len() == WIDTH * HEIGHT,
        forall|r: int, c: int|
            0 <= r < HEIGHT && 0 <= c < WIDTH ==> #[trigger] pix(final(buffer)@, r, c) == (if covered_by_live(
                final(game)@.grid,
                r,
                c,
            ) {
                CELL_COLOR
            } else {
                pix(old(buffer)@, r, c)
            }),
{
    game.advance_or_render();
    let ghost g = game@.grid;
    let ghost orig = buffer@;
    let n = game.dimension();
    let mut x: usize = 0;
    while x < n
        invariant
            game.wf(),
            game@.grid == g,
            n == g.len(),
            x <= n,
            buffer@.len() == WIDTH * HEIGHT,
            forall|r: int, c: int|
                0 <= r < HEIGHT && 0 <= c < WIDTH ==> #[trigger] pix(buffer@, r, c) == (if covered_upto(
                    g,
                    x as int,
                    0,
                    r,
                    c,
                ) {
                    CELL_COLOR
                } else {
                    pix(orig, r, c)
                }),
        decreases n - x,
    {
        let mut y: usize = 0;
        while y < n
            invariant
                game.wf(),
                game@.grid == g,
                n == g.len(),
                x < n,
                y <= n,
                buffer@.len() == WIDTH * HEIGHT,
                forall|r: int, c: int|
                    0 <= r < HEIGHT && 0 <= c < WIDTH ==> #[trigger] pix(buffer@, r, c) == (if covered_upto(
                        g,
                        x as int,
                        y as int,
                        r,
                        c,
                    ) {
                        CELL_COLOR
                    } else {
                        pix(orig, r, c)
                    }),
            decreases n - y,
        {
            let ghost before = buffer@;
            if game.cell_state(x, y) {
                draw_cell(buffer, x, y, CELL_COLOR);
            }
            proof {
                assert forall|r: int, c: int| 0 <= r < HEIGHT && 0 <= c < WIDTH implies #[trigger] pix(
                    buffer@,
                    r,
                    c,
                ) == (if covered_upto(g, x as int, y as int + 1, r, c) {
                    CELL_COLOR
                } else {
                    pix(orig, r, c)
                }) by {
                    assert(pix(before, r, c) == (if covered_upto(g, x as int, y as int, r, c) {
                        CELL_COLOR
                    } else {
                        pix(orig, r, c)
                    }));
                    if g[x as int][y as int] && cell_visible(x as int, y as int) && cell_block(
                        x as int,
                        y as int,
                        r,
                        c,
                    ) {
                        assert(covered_upto(g, x as int, y as int + 1, r, c));
                        assert(pix(buffer@, r, c) == CELL_COLOR);
                    } else {
                        assert(pix(buffer@, r, c) == pix(before, r, c));
                        if covered_upto(g, x as int, y as int, r, c) {
                            assert(covered_upto(g, x as int, y as int + 1, r, c));
                        } else if covered_upto(g, x as int, y as int + 1, r, c) {
                            let (i, j) = choose|i: int, j: int|
                                0 <= i < g.len() && 0 <= j < g.len() && (i < x as int || (i
                                    == x as int && j < y as int + 1)) && g[i][j] && cell_visible(
                                    i,
                                    j,
                                ) && #[trigger] cell_block(i, j, r, c);
                            assert(i < x as int || (i == x as int && j < y as int));
                            assert(covered_upto(g, x as int, y as int, r, c));
                        }
                    }
                }
            }
            y = y + 1;
        }
        proof {
            assert forall|r: int, c: int| 0 <= r < HEIGHT && 0 <= c < WIDTH implies (covered_upto(
                g,
                x as int + 1,
                0,
                r,
                c,
            ) == covered_upto(g, x as int, n as int, r, c)) by {
                if covered_upto(g, x as int + 1, 0, r, c) {
                    let (i, j) = choose|i: int, j: int|
                        0 <= i < g.len() && 0 <= j < g.len() && (i < x as int + 1 || (i == x as int
                            + 1 && j < 0)) && g[i][j] && cell_visible(i, j) && #[trigger] cell_block(
                            i,
                            j,
                            r,
                            c,
                        );
                    assert(i < x as int || (i == x as int && j < n as int));
                    assert(covered_upto(g, x as int, n as int, r, c));
                }
                if covered_upto(g, x as int, n as int, r, c) {
                    let (i, j) = choose|i: int, j: int|
                        0 <= i < g.len() && 0 <= j < g.len() && (i < x as int || (i == x as int && j
                            < n as int)) && g[i][j] && cell_visible(i, j) && #[trigger] cell_block(
                            i,
                            j,
                            r,
                            c,
                        );
                    assert(covered_upto(g, x as int + 1, 0, r, c));
                }
            }
        }
        x = x + 1;
    }
    proof {
        assert forall|r: int, c: int| 0 <= r < HEIGHT && 0 <= c < WIDTH implies (covered_upto(
            g,
            n as int,
            0,
            r,
            c,
        ) == covered_by_live(g, r, c)) by {
            if covered_upto(g, n as int, 0, r, c) {
                let (i, j) = choose|i: int, j: int|
                    0 <= i < g.len() && 0 <= j < g.len() && (i < n as int || (i == n as int && j
                        < 0)) && g[i][j] && cell_visible(i, j) && #[trigger] cell_block(i, j, r, c);
                assert(covered_by_live(g, r, c));
            }
            if covered_by_live(g, r, c) {
                let (i, j) = choose|i: int, j: int|
                    0 <= i < g.len() && 0 <= j < g.len() && g[i][j] && cell_visible(i, j)
                        && #[trigger] cell_block(i, j, r, c);
                assert(covered_upto(g, n as int, 0, r, c));
            }
        }
    }
}

/// The decimal digits of `n`, most significant first; zero is the one
/// digit 0.
pub open spec fn digits(n: nat) -> Seq<int>
    decreases n,
{
    if n < 10 {
        seq![n as int]
    } else {
        digits(n / 10).push((n % 10) as int)
    }
}

/// Ten to the `k`.
pub open spec fn pow10(k: nat) -> nat
    decreases k,
{
    if k == 0 {
        1nat
    } else {
        10 * pow10((k - 1) as nat)
    }
}

/// A number below ten to the `k` has at most `k` decimal digits.
pub proof fn lemma_digits_len(n: nat, k: nat)
    requires
        k >= 1,
        n < pow10(k),
    ensures
        1 <= digits(n).len() <= k,
    decreases k,
{
    if n >= 10 {
        assert(pow10(k) == 10 * pow10((k - 1) as nat));
        lemma_digits_len(n / 10, (k - 1) as nat);
    }
}

/// The decimal digits of `value`, most significant first: each below
/// ten, at least one of them, and at most twenty, since the machine
/// word is no wider than sixty-four bits.
pub fn decimal_digits(value: usize) -> (ds: Vec<u8>)
    ensures
        ds@.map_values(|d: u8| d as int) == digits(value as nat),
        1 <= ds@.len() <= 20,
        forall|i: int| 0 <= i < ds@.len() ==> ds@[i] < 10,
    decreases value,
{
    proof {
        assert(pow10(5) == 100000) by {
            reveal_with_fuel(pow10, 6);
        }
        assert(pow10(10) == 10000000000) by {
            reveal_with_fuel(pow10, 11);
        }
        assert(pow10(20) == pow10(10) * pow10(10)) by {
            reveal_with_fuel(pow10, 21);
        }
        assert((value as nat) < pow10(20));
        lemma_digits_len(value as nat, 20);
    }
    if value < 10 {
        let mut ds: Vec<u8> = Vec::new();
        ds.push(value as u8);
        proof {
            assert(ds@.map_values(|d: u8| d as int) =~= digits(value as nat));
        }
        ds
    } else {
        let mut ds = decimal_digits(value / 10);
        ds.push((value % 10) as u8);
        proof {
            assert(ds@.map_values(|d: u8| d as int) =~= digits(value as nat));
        }
        ds
    }
}

/// The glyph that shows one decimal digit.
pub open spec fn digit_glyph(glyphs: &crate::glyphs::Glyphs, d: int) -> [[u8; 5]; 5] {
    if d == 0 {
        glyphs.d0
    } else if d == 1 {
        glyphs.d1
    } else if d == 2 {
        glyphs.d2
    } else if d == 3 {
        glyphs.d3
    } else if d == 4 {
        glyphs.d4
    } else if d == 5 {
        glyphs.d5
    } else if d == 6 {
        glyphs.d6
    } else if d == 7 {
        glyphs.d7
    } else if d == 8 {
        glyphs.d8
    } else {
        glyphs.d9
    }
}

/// Whether the bit of the glyph placed at (top, offset) that covers
/// pixel (r, c) is set.
pub open spec fn glyph_bit_on(letter: [[u8; 5]; 5], top: int, offset: int, r: int, c: int) -> bool {
    glyph_window(top, offset, r, c) && letter@[r - top]@[c - offset] == 1
}

/// The `k`-th glyph of the label "generation:".
pub open spec fn label_glyph(glyphs: &crate::glyphs::Glyphs, k: int) -> [[u8; 5]; 5] {
    if k == 0 {
        glyphs.g
    } else if k == 1 {
        glyphs.e
    } else if k == 2 {
        glyphs.n
    } else if k == 3 {
        glyphs.e
    } else if k == 4 {
        glyphs.r
    } else if k == 5 {
        glyphs.a
    } else if k == 6 {
        glyphs.t
    } else if k == 7 {
        glyphs.i
    } else if k == 8 {
        glyphs.o
    } else if k == 9 {
        glyphs.n
    } else {
        glyphs.double_colon
    }
}

/// The column where the `k`-th label glyph starts.
pub open spec fn label_offset(k: int) -> int {
    10 + 10 * k
}

/// Whether pixel (r, c) lies under a set bit of one of the first `j`
/// label glyphs.
pub open spec fn label_pixel_upto(glyphs: &crate::glyphs::Glyphs, j: int, r: int, c: int) -> bool {
    exists|k: int|
        0 <= k < j && #[trigger] glyph_bit_on(label_glyph(glyphs, k), 10, label_offset(k), r, c)
}

/// The `k`-th glyph of the instruction line "speed up:w down:s".
pub open spec fn instruction_glyph(glyphs: &crate::glyphs::Glyphs, k: int) -> [[u8; 5]; 5] {
    if k == 0 {
        glyphs.s
    } else if k == 1 {
        glyphs.p
    } else if k == 2 {
        glyphs.e
    } else if k == 3 {
        glyphs.e
    } else if k == 4 {
        glyphs.d
    } else if k == 5 {
        glyphs.u
    } else if k == 6 {
        glyphs.p
    } else if k == 7 {
        glyphs.double_colon
    } else if k == 8 {
        glyphs.w
    } else if k == 9 {
        glyphs.d
    } else if k == 10 {
        glyphs.o
    } else if k == 11 {
        glyphs.w
    } else if k == 12 {
        glyphs.n
    } else if k == 13 {
        glyphs.double_colon
    } else {
        glyphs.s
    }
}

/// The column where the `k`-th instruction glyph starts; the words are
/// set apart by a wider gap.
pub open spec fn instruction_offset(k: int) -> int {
    if k < 5 {
        10 + 10 * k
    } else if k < 9 {
        20 + 10 * k
    } else {
        30 + 10 * k
    }
}

/// Whether pixel (r, c) lies under a set bit of one of the first `j`
/// instruction glyphs.
pub open spec fn instruction_pixel_upto(
    glyphs: &crate::glyphs::Glyphs,
    j: int,
    r: int,
    c: int,
) -> bool {
    exists|k: int|
        0 <= k < j && #[trigger] glyph_bit_on(
            instruction_glyph(glyphs, k),
            20,
            instruction_offset(k),
            r,
            c,
        )
}

/// Whether pixel (r, c) lies under a set bit of the instruction line.
pub open spec fn instruction_pixel_on(glyphs: &crate::glyphs::Glyphs, r: int, c: int) -> bool {
    instruction_pixel_upto(glyphs, 15, r, c)
}

/// Blitting one more label glyph extends the overlay by one: pixels
/// under its set bits take the text color, everything else keeps the
/// value it had after the first `j` glyphs.
proof fn lemma_label_overlay_step(
    glyphs: &crate::glyphs::Glyphs,
    j: int,
    orig: Seq<u32>,
    prev: Seq<u32>,
    cur: Seq<u32>,
)
    requires
        0 <= j < 11,
        forall|r: int, c: int|
            0 <= r < HEIGHT && 0 <= c < WIDTH ==> #[trigger] pix(prev, r, c) == (if label_pixel_upto(
                glyphs,
                j,
                r,
                c,
            ) {
                TEXT_COLOR
            } else {
                pix(orig, r, c)
            }),
        forall|r: int, c: int|
            0 <= r < HEIGHT && 0 <= c < WIDTH ==> #[trigger] pix(cur, r, c) == (if glyph_bit_on(
                label_glyph(glyphs, j),
                10,
                label_offset(j),
                r,
                c,
            ) {
                TEXT_COLOR
            } else {
                pix(prev, r, c)
            }),
    ensures
        forall|r: int, c: int|
            0 <= r < HEIGHT && 0 <= c < WIDTH ==> #[trigger] pix(cur, r, c) == (if label_pixel_upto(
                glyphs,
                j + 1,
                r,
                c,
            ) {
                TEXT_COLOR
            } else {
                pix(orig, r, c)
            }),
{
    assert forall|r: int, c: int| 0 <= r < HEIGHT && 0 <= c < WIDTH implies #[trigger] pix(
        cur,
        r,
        c,
    ) == (if label_pixel_upto(glyphs, j + 1, r, c) {
        TEXT_COLOR
    } else {
        pix(orig, r, c)
    }) by {
        if glyph_bit_on(label_glyph(glyphs, j), 10, label_offset(j), r, c) {
            assert(label_pixel_upto(glyphs, j + 1, r, c));
        } else {
            assert(pix(cur, r, c) == pix(prev, r, c));
            if label_pixel_upto(glyphs, j, r, c) {
                let k = choose|k: int|
                    0 <= k < j && #[trigger] glyph_bit_on(
                        label_glyph(glyphs, k),
                        10,
                        label_offset(k),
                        r,
                        c,
                    );
                assert(label_pixel_upto(glyphs, j + 1, r, c));
            } else if label_pixel_upto(glyphs, j + 1, r, c) {
                let k = choose|k: int|
                    0 <= k < j + 1 && #[trigger] glyph_bit_on(
                        label_glyph(glyphs, k),
                        10,
                        label_offset(k),
                        r,
                        c,
                    );
                assert(k != j);
                assert(label_pixel_upto(glyphs, j, r, c));
            }
        }
    }
}

/// The same step, for the instruction line.
proof fn lemma_instruction_overlay_step(
    glyphs: &crate::glyphs::Glyphs,
    j: int,
    orig: Seq<u32>,
    prev: Seq<u32>,
    cur: Seq<u32>,
)
    requires
        0 <= j < 15,
        forall|r: int, c: int|
            0 <= r < HEIGHT && 0 <= c < WIDTH ==> #[trigger] pix(prev, r, c) == (if instruction_pixel_upto(
                glyphs,
                j,
                r,
                c,
            ) {
                TEXT_COLOR
            } else {
                pix(orig, r, c)
            }),
        forall|r: int, c: int|
            0 <= r < HEIGHT && 0 <= c < WIDTH ==> #[trigger] pix(cur, r, c) == (if glyph_bit_on(
                instruction_glyph(glyphs, j),
                20,
                instruction_offset(j),
                r,
                c,
            ) {
                TEXT_COLOR
            } else {
                pix(prev, r, c)
            }),
    ensures
        forall|r: int, c: int|
            0 <= r < HEIGHT && 0 <= c < WIDTH ==> #[trigger] pix(cur, r, c) == (if instruction_pixel_upto(
                glyphs,
                j + 1,
                r,
                c,
            ) {
                TEXT_COLOR
            } else {
                pix(orig, r, c)
            }),
{
    assert forall|r: int, c: int| 0 <= r < HEIGHT && 0 <= c < WIDTH implies #[trigger] pix(
        cur,
        r,
        c,
    ) == (if instruction_pixel_upto(glyphs, j + 1, r, c) {
        TEXT_COLOR
    } else {
        pix(orig, r, c)
    }) by {
        if glyph_bit_on(instruction_glyph(glyphs, j), 20, instruction_offset(j), r, c) {
            assert(instruction_pixel_upto(glyphs, j + 1, r, c));
        } else {
            assert(pix(cur, r, c) == pix(prev, r, c));
            if instruction_pixel_upto(glyphs, j, r, c) {
                let k = choose|k: int|
                    0 <= k < j && #[trigger] glyph_bit_on(
                        instruction_glyph(glyphs, k),
                        20,
                        instruction_offset(k),
                        r,
                        c,
                    );
                assert(instruction_pixel_upto(glyphs, j + 1, r, c));
            } else if instruction_pixel_upto(glyphs, j + 1, r, c) {
                let k = choose|k: int|
                    0 <= k < j + 1 && #[trigger] glyph_bit_on(
                        instruction_glyph(glyphs, k),
                        20,
                        instruction_offset(k),
                        r,
                        c,
                    );
                assert(k != j);
                assert(instruction_pixel_upto(glyphs, j, r, c));
            }
        }
    }
}

/// Writes the speed instructions on their own text row, twenty pixels
/// down: the pixels under the set bits of the fifteen placed glyphs
/// take the text color, and every other pixel of the buffer — outside
/// the band and inside it — keeps its value.
pub fn draw_instructions(buffer: &mut Vec<u32>, glyphs: &crate::glyphs::Glyphs)
    requires
        old(buffer)@.len() == WIDTH * HEIGHT,
    ensures
        final(buffer)@.len() == WIDTH * HEIGHT,
        forall|r: int, c: int|
            0 <= r < HEIGHT && 0 <= c < WIDTH ==> #[trigger] pix(final(buffer)@, r, c) == (if instruction_pixel_on(
                glyphs,
                r,
                c,
            ) {
                TEXT_COLOR
            } else {
                pix(old(buffer)@, r, c)
            }),
        forall|k: int, gy: int, gx: int|
            0 <= k < 15 && 0 <= gy < 5 && 0 <= gx < 5 && instruction_glyph(glyphs, k)@[gy]@[gx]
                == 1 ==> #[trigger] pix(final(buffer)@, 20 + gy, instruction_offset(k) + gx)
                == TEXT_COLOR,
        forall|r: int, c: int|
            0 <= r < HEIGHT && 0 <= c < WIDTH && !(20 <= r < 25) ==> #[trigger] pix(
                final(buffer)@,
                r,
                c,
            ) == pix(old(buffer)@, r, c),
{
    let ghost orig = buffer@;
    let color = TEXT_COLOR;
    proof {
        assert forall|r: int, c: int| 0 <= r < HEIGHT && 0 <= c < WIDTH implies #[trigger] pix(
            orig,
            r,
            c,
        ) == (if instruction_pixel_upto(glyphs, 0, r, c) {
            TEXT_COLOR
        } else {
            pix(orig, r, c)
        }) by {
            if instruction_pixel_upto(glyphs, 0, r, c) {
                let k = choose|k: int|
                    0 <= k < 0 && #[trigger] glyph_bit_on(
                        instruction_glyph(glyphs, k),
                        20,
                        instruction_offset(k),
                        r,
                        c,
                    );
            }
        }
    }
    let ghost b0 = buffer@;
    draw_letter_at(&glyphs.s, 10, 20, color, buffer);
    proof {
        lemma_instruction_overlay_step(glyphs, 0, orig, b0, buffer@);
    }
    let ghost b1 = buffer@;
    draw_letter_at(&glyphs.p, 20, 20, color, buffer);
    proof {
        lemma_instruction_overlay_step(glyphs, 1, orig, b1, buffer@);
    }
    let ghost b2 = buffer@;
    draw_letter_at(&glyphs.e, 30, 20, color, buffer);
    proof {
        lemma_instruction_overlay_step(glyphs, 2, orig, b2, buffer@);
    }
    let ghost b3 = buffer@;
    draw_letter_at(&glyphs.e, 40, 20, color, buffer);
    proof {
        lemma_instruction_overlay_step(glyphs, 3, orig, b3, buffer@);
    }
    let ghost b4 = buffer@;
    draw_letter_at(&glyphs.d, 50, 20, color, buffer);
    proof {
        lemma_instruction_overlay_step(glyphs, 4, orig, b4, buffer@);
    }
    let ghost b5 = buffer@;
    draw_letter_at(&glyphs.u, 70, 20, color, buffer);
    proof {
        lemma_instruction_overlay_step(glyphs, 5, orig, b5, buffer@);
    }
    let ghost b6 = buffer@;
    draw_letter_at(&glyphs.p, 80, 20, color, buffer);
    proof {
        lemma_instruction_overlay_step(glyphs, 6, orig, b6, buffer@);
    }
    let ghost b7 = buffer@;
    draw_letter_at(&glyphs.double_colon, 90, 20, color, buffer);
    proof {
        lemma_instruction_overlay_step(glyphs, 7, orig, b7, buffer@);
    }
    let ghost b8 = buffer@;
    draw_letter_at(&glyphs.w, 100, 20, color, buffer);
    proof {
        lemma_instruction_overlay_step(glyphs, 8, orig, b8, buffer@);
    }
    let ghost b9 = buffer@;
    draw_letter_at(&glyphs.d, 120, 20, color, buffer);
    proof {
        lemma_instruction_overlay_step(glyphs, 9, orig, b9, buffer@);
    }
    let ghost b10 = buffer@;
    draw_letter_at(&glyphs.o, 130, 20, color, buffer);
    proof {
        lemma_instruction_overlay_step(glyphs, 10, orig, b10, buffer@);
    }
    let ghost b11 = buffer@;
    draw_letter_at(&glyphs.w, 140, 20, color, buffer);
    proof {
        lemma_instruction_overlay_step(glyphs, 11, orig, b11, buffer@);
    }
    let ghost b12 = buffer@;
    draw_letter_at(&glyphs.n, 150, 20, color, buffer);
    proof {
        lemma_instruction_overlay_step(glyphs, 12, orig, b12, buffer@);
    }
    let ghost b13 = buffer@;
    draw_letter_at(&glyphs.double_colon, 160, 20, color, buffer);
    proof {
        lemma_instruction_overlay_step(glyphs, 13, orig, b13, buffer@);
    }
    let ghost b14 = buffer@;
    draw_letter_at(&glyphs.s, 170, 20, color, buffer);
    proof {
        lemma_instruction_overlay_step(glyphs, 14, orig, b14, buffer@);
        assert forall|k: int, gy: int, gx: int|
            0 <= k < 15 && 0 <= gy < 5 && 0 <= gx < 5 && instruction_glyph(glyphs, k)@[gy]@[gx]
                == 1 implies #[trigger] pix(buffer@, 20 + gy, instruction_offset(k) + gx)
            == TEXT_COLOR by {
            let r = 20 + gy;
            let c = instruction_offset(k) + gx;
            assert(10 <= instruction_offset(k) <= 170);
            assert(0 <= r < HEIGHT && 0 <= c < WIDTH);
            assert(glyph_bit_on(instruction_glyph(glyphs, k), 20, instruction_offset(k), r, c));
            assert(instruction_pixel_upto(glyphs, 15, r, c));
        }
        assert forall|r: int, c: int|
            0 <= r < HEIGHT && 0 <= c < WIDTH && !(20 <= r < 25) implies #[trigger] pix(
            buffer@,
            r,
            c,
        ) == pix(orig, r, c) by {
            if instruction_pixel_upto(glyphs, 15, r, c) {
                let k = choose|k: int|
                    0 <= k < 15 && #[trigger] glyph_bit_on(
                        instruction_glyph(glyphs, k),
                        20,
                        instruction_offset(k),
                        r,
                        c,
                    );
                assert(20 <= r < 25);
            }
        }
    }
}

/// Writes the word "generation", a colon, and the current generation
/// count in decimal onto the top text row. The digit windows show
/// exactly the decimal digits of the counter; no pixel outside the two
/// text bands is touched.
pub fn draw_text(buffer: &mut Vec<u32>, game: &crate::game::Game, glyphs: &crate::glyphs::Glyphs)
    requires
        old(buffer)@.len() == WIDTH * HEIGHT,
    ensures
        final(buffer)@.len() == WIDTH * HEIGHT,
        forall|r: int, c: int|
            0 <= r < HEIGHT && 0 <= c < WIDTH && !(10 <= r < 15) && !(20 <= r < 25)
                ==> #[trigger] pix(final(buffer)@, r, c) == pix(old(buffer)@, r, c),
        forall|k: int, gy: int, gx: int|
            0 <= k < digits(game@.generation).len() && 0 <= gy < 5 && 0 <= gx < 5
                ==> #[trigger] pix(final(buffer)@, 10 + gy, 120 + 10 * k + gx) == (if digit_glyph(
                glyphs,
                digits(game@.generation)[k],
            )@[gy]@[gx] == 1 {
                TEXT_COLOR
            } else {
                pix(old(buffer)@, 10 + gy, 120 + 10 * k + gx)
            }),
        forall|k: int, gy: int, gx: int|
            0 <= k < 11 && 0 <= gy < 5 && 0 <= gx < 5 ==> #[trigger] pix(
                final(buffer)@,
                10 + gy,
                label_offset(k) + gx,
            ) == (if label_glyph(glyphs, k)@[gy]@[gx] == 1 {
                TEXT_COLOR
            } else {
                pix(old(buffer)@, 10 + gy, label_offset(k) + gx)
            }),
{
    let ghost orig = buffer@;
    let color = TEXT_COLOR;
    proof {
        assert forall|r: int, c: int| 0 <= r < HEIGHT && 0 <= c < WIDTH implies #[trigger] pix(
            orig,
            r,
            c,
        ) == (if label_pixel_upto(glyphs, 0, r, c) {
            TEXT_COLOR
        } else {
            pix(orig, r, c)
        }) by {
            if label_pixel_upto(glyphs, 0, r, c) {
                let k = choose|k: int|
                    0 <= k < 0 && #[trigger] glyph_bit_on(
                        label_glyph(glyphs, k),
                        10,
                        label_offset(k),
                        r,
                        c,
                    );
            }
        }
    }
    let ghost l0 = buffer@;
    draw_letter(&glyphs.g, 10, color, buffer);
    proof {
        lemma_label_overlay_step(glyphs, 0, orig, l0, buffer@);
    }
    let ghost l1 = buffer@;
    draw_letter(&glyphs.e, 20, color, buffer);
    proof {
        lemma_label_overlay_step(glyphs, 1, orig, l1, buffer@);
    }
    let ghost l2 = buffer@;
    draw_letter(&glyphs.n, 30, color, buffer);
    proof {
        lemma_label_overlay_step(glyphs, 2, orig, l2, buffer@);
    }
    let ghost l3 = buffer@;
    draw_letter(&glyphs.e, 40, color, buffer);
    proof {
        lemma_label_overlay_step(glyphs, 3, orig, l3, buffer@);
    }
    let ghost l4 = buffer@;
    draw_letter(&glyphs.r, 50, color, buffer);
    proof {
        lemma_label_overlay_step(glyphs, 4, orig, l4, buffer@);
    }
    let ghost l5 = buffer@;
    draw_letter(&glyphs.a, 60, color, buffer);
    proof {
        lemma_label_overlay_step(glyphs, 5, orig, l5, buffer@);
    }
    let ghost l6 = buffer@;
    draw_letter(&glyphs.t, 70, color, buffer);
    proof {
        lemma_label_overlay_step(glyphs, 6, orig, l6, buffer@);
    }
    let ghost l7 = buffer@;
    draw_letter(&glyphs.i, 80, color, buffer);
    proof {
        lemma_label_overlay_step(glyphs, 7, orig, l7, buffer@);
    }
    let ghost l8 = buffer@;
    draw_letter(&glyphs.o, 90, color, buffer);
    proof {
        lemma_label_overlay_step(glyphs, 8, orig, l8, buffer@);
    }
    let ghost l9 = buffer@;
    draw_letter(&glyphs.n, 100, color, buffer);
    proof {
        lemma_label_overlay_step(glyphs, 9, orig, l9, buffer@);
    }
    let ghost l10 = buffer@;
    draw_letter(&glyphs.double_colon, 110, color, buffer);
    proof {
        lemma_label_overlay_step(glyphs, 10, orig, l10, buffer@);
    }
    let ghost base = buffer@;
    proof {
        assert forall|r: int, c: int|
            0 <= r < HEIGHT && 0 <= c < WIDTH && (!(10 <= r < 15) || c >= 116) implies #[trigger] pix(
            base,
            r,
            c,
        ) == pix(orig, r, c) by {
            if label_pixel_upto(glyphs, 11, r, c) {
                let k = choose|k: int|
                    0 <= k < 11 && #[trigger] glyph_bit_on(
                        label_glyph(glyphs, k),
                        10,
                        label_offset(k),
                        r,
                        c,
                    );
                assert(10 <= r < 15);
                assert(c < label_offset(k) + 5);
                assert(label_offset(k) <= 110);
            }
        }
    }
    let ghost dseq = digits(game@.generation);
    let ds = decimal_digits(game.generation_count());
    let mut k: usize = 0;
    while k < ds.len()
        invariant
            buffer@.len() == WIDTH * HEIGHT,
            ds@.map_values(|d: u8| d as int) == dseq,
            1 <= ds@.len() <= 20,
            forall|i: int| 0 <= i < ds@.len() ==> ds@[i] < 10,
            k <= ds@.len(),
            forall|t: int, r: int, c: int|
                0 <= t < k && 10 <= r < 15 && 120 + 10 * t <= c < 125 + 10 * t
                    ==> #[trigger] pix(buffer@, r, c) == (if (#[trigger] digit_glyph(
                    glyphs,
                    dseq[t],
                ))@[r - 10]@[c - 120 - 10 * t] == 1 {
                    TEXT_COLOR
                } else {
                    pix(base, r, c)
                }),
            forall|r: int, c: int|
                0 <= r < HEIGHT && 0 <= c < WIDTH && !(10 <= r < 15 && 120 <= c < 120 + 10 * k)
                    ==> #[trigger] pix(buffer@, r, c) == pix(base, r, c),
        decreases ds@.len() - k,
    {
        let ghost before = buffer@;
        let d = ds[k];
        let glyph = if d == 0 {
            &glyphs.d0
        } else if d == 1 {
            &glyphs.d1
        } else if d == 2 {
            &glyphs.d2
        } else if d == 3 {
            &glyphs.d3
        } else if d == 4 {
            &glyphs.d4
        } else if d == 5 {
            &glyphs.d5
        } else if d == 6 {
            &glyphs.d6
        } else if d == 7 {
            &glyphs.d7
        } else if d == 8 {
            &glyphs.d8
        } else {
            &glyphs.d9
        };
        proof {
            assert(*glyph == digit_glyph(glyphs, dseq[k as int]));
        }
        let offset = 120 + k * 10;
        draw_letter(glyph, offset, TEXT_COLOR, buffer);
        proof {
            assert forall|t: int, r: int, c: int|
                0 <= t < k + 1 && 10 <= r < 15 && 120 + 10 * t <= c < 125 + 10 * t
                    implies #[trigger] pix(buffer@, r, c) == (if (#[trigger] digit_glyph(
                glyphs,
                dseq[t],
            ))@[r - 10]@[c - 120 - 10 * t] == 1 {
                TEXT_COLOR
            } else {
                pix(base, r, c)
            }) by {
                assert(0 <= r < HEIGHT && 0 <= c < WIDTH);
                if t == k {
                    assert(glyph_window(10, offset as int, r, c));
                    assert(pix(before, r, c) == pix(base, r, c));
                    assert(glyph@[r - 10]@[c - offset] == digit_glyph(glyphs, dseq[t])@[r - 10]@[c
                        - 120 - 10 * t]);
                } else {
                    assert(!glyph_window(10, offset as int, r, c));
                    assert(pix(buffer@, r, c) == pix(before, r, c));
                    assert(pix(before, r, c) == (if digit_glyph(glyphs, dseq[t])@[r - 10]@[c - 120
                        - 10 * t] == 1 {
                        TEXT_COLOR
                    } else {
                        pix(base, r, c)
                    }));
                }
            }
            assert forall|r: int, c: int|
                0 <= r < HEIGHT && 0 <= c < WIDTH && !(10 <= r < 15 && 120 <= c < 120 + 10 * (k
                    + 1)) implies #[trigger] pix(buffer@, r, c) == pix(base, r, c) by {
                assert(!glyph_window(10, offset as int, r, c));
                assert(pix(buffer@, r, c) == pix(before, r, c));
                assert(pix(before, r, c) == pix(base, r, c));
            }
        }
        k = k + 1;
    }
    let ghost after_digits = buffer@;
    draw_instructions(buffer, glyphs);
    proof {
        assert forall|r: int, c: int|
            0 <= r < HEIGHT && 0 <= c < WIDTH && !(10 <= r < 15) && !(20 <= r < 25) implies
            #[trigger] pix(buffer@, r, c) == pix(orig, r, c) by {
            assert(pix(buffer@, r, c) == pix(after_digits, r, c));
            assert(pix(after_digits, r, c) == pix(base, r, c));
            assert(pix(base, r, c) == pix(orig, r, c));
        }
        assert forall|k2: int, gy: int, gx: int|
            0 <= k2 < dseq.len() && 0 <= gy < 5 && 0 <= gx < 5 implies #[trigger] pix(
            buffer@,
            10 + gy,
            120 + 10 * k2 + gx,
        ) == (if digit_glyph(glyphs, dseq[k2])@[gy]@[gx] == 1 {
            TEXT_COLOR
        } else {
            pix(orig, 10 + gy, 120 + 10 * k2 + gx)
        }) by {
            let r = 10 + gy;
            let c = 120 + 10 * k2 + gx;
            assert(0 <= r < HEIGHT && 0 <= c < WIDTH);
            assert(pix(buffer@, r, c) == pix(after_digits, r, c));
            assert(pix(after_digits, r, c) == (if digit_glyph(glyphs, dseq[k2])@[r - 10]@[c - 120
                - 10 * k2] == 1 {
                TEXT_COLOR
            } else {
                pix(base, r, c)
            }));
            assert(pix(base, r, c) == pix(orig, r, c));
            assert(r - 10 == gy && c - 120 - 10 * k2 == gx);
        }
    }
}

} // verus!
