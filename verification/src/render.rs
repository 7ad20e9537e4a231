//! The top-down (2D) views of the maze: the full map painter, the
//! level-load scan, and the debug overlay with its win-condition check.

use vstd::prelude::*;
use vstd::arithmetic::mul::lemma_mul_inequality;
use vstd::arithmetic::mul::lemma_mul_nonnegative;
use crate::color::Color;
use crate::fixed::lemma_floor_div_range;
use crate::framebuffer::Framebuffer;
use crate::fixed::FP_ONE;
use crate::fixed::DIV_BOUND;
use crate::map::cell_of;
use crate::map::cell_of_spec;
use crate::map::Maze;
use crate::map::MAX_BLOCK;
use crate::map::MAX_CELLS;
use crate::map::GOAL_MARK;
use crate::map::START_MARK;
use crate::map::walkable;
use crate::sprite::draw_block;

verus! {

/// The map view's color for a cell symbol: walls in the background
/// color, the start marker red, the goal green, corridors blue.
pub open spec fn cell_color_spec(c: char, background: Color) -> Color {
    if c == '+' || c == '-' || c == '|' {
        background
    } else if c == START_MARK {
        Color::from_hex_spec(0xFF0000)
    } else if c == GOAL_MARK {
        Color::from_hex_spec(0x00FF00)
    } else {
        Color::from_hex_spec(0x0000FF)
    }
}

/// Paints the whole maze onto the surface, one `block_size`-square block
/// per cell; pixels beyond the maze's extent keep their sample.
pub fn render(framebuffer: &mut Framebuffer, maze: &Maze, block_size: usize)
    requires
        old(framebuffer).wf(),
        maze.wf(),
        0 < block_size <= MAX_BLOCK,
        maze.width_spec() * block_size <= 0x4000_0000,
        maze.height_spec() * block_size <= 0x4000_0000,
    ensures
        final(framebuffer).wf(),
        final(framebuffer).width == old(framebuffer).width,
        final(framebuffer).height == old(framebuffer).height,
        final(framebuffer).background_color == old(framebuffer).background_color,
        forall|a: int, b: int|
            old(framebuffer).pixel_in_bounds(a, b) ==> final(framebuffer).pixel(a, b) == (
            if a / (block_size as int) < maze.width_spec() && b / (block_size as int)
                < maze.height_spec() {
                cell_color_spec(
                    maze.symbol_spec(a / (block_size as int), b / (block_size as int)),
                    old(framebuffer).background_color,
                )
            } else {
                old(framebuffer).pixel(a, b)
            }),
{
    let ghost bs = block_size as int;
    let height = maze.height();
    let width = maze.width();
    let mut y: usize = 0;
    while y < height
        invariant
            old(framebuffer).wf(),
            framebuffer.wf(),
            maze.wf(),
            0 < block_size <= MAX_BLOCK,
            bs == block_size as int,
            width == maze.width_spec(),
            height == maze.height_spec(),
            maze.width_spec() * block_size <= 0x4000_0000,
            maze.height_spec() * block_size <= 0x4000_0000,
            y <= height,
            framebuffer.width == old(framebuffer).width,
            framebuffer.height == old(framebuffer).height,
            framebuffer.background_color == old(framebuffer).background_color,
            forall|a: int, b: int|
                old(framebuffer).pixel_in_bounds(a, b) ==> framebuffer.pixel(a, b) == (
                if a / bs < width && 0 <= b / bs < y {
                    cell_color_spec(
                        maze.symbol_spec(a / bs, b / bs),
                        old(framebuffer).background_color,
                    )
                } else {
                    old(framebuffer).pixel(a, b)
                }),
        decreases height - y,
    {
        let mut x: usize = 0;
        while x < width
            invariant
                old(framebuffer).wf(),
                framebuffer.wf(),
                maze.wf(),
                0 < block_size <= MAX_BLOCK,
                bs == block_size as int,
                width == maze.width_spec(),
                height == maze.height_spec(),
                maze.width_spec() * block_size <= 0x4000_0000,
                maze.height_spec() * block_size <= 0x4000_0000,
                y < height,
                x <= width,
                framebuffer.width == old(framebuffer).width,
                framebuffer.height == old(framebuffer).height,
                framebuffer.background_color == old(framebuffer).background_color,
                forall|a: int, b: int|
                    old(framebuffer).pixel_in_bounds(a, b) ==> framebuffer.pixel(a, b) == (
                    if (a / bs < width && 0 <= b / bs < y) || (0 <= a / bs < x && b / bs == y) {
                        cell_color_spec(
                            maze.symbol_spec(a / bs, b / bs),
                            old(framebuffer).background_color,
                        )
                    } else {
                        old(framebuffer).pixel(a, b)
                    }),
            decreases width - x,
        {
            proof {
                lemma_mul_inequality(x as int + 1, width as int, bs);
                lemma_mul_inequality(y as int + 1, height as int, bs);
                lemma_mul_nonnegative(x as int, bs);
                lemma_mul_nonnegative(y as int, bs);
                assert((x as int + 1) * bs == x as int * bs + bs) by (nonlinear_arith);
                assert((y as int + 1) * bs == y as int * bs + bs) by (nonlinear_arith);
            }
            let symbol = maze.symbol_at(x as i64, y as i64);
            let bg = framebuffer.background_color;
            let color = if symbol == '+' || symbol == '-' || symbol == '|' {
                bg
            } else if symbol == START_MARK {
                Color::from_hex(0xFF0000)
            } else if symbol == GOAL_MARK {
                Color::from_hex(0x00FF00)
            } else {
                Color::from_hex(0x0000FF)
            };
            framebuffer.set_current_color(color);
            let ghost pre = *framebuffer;
            draw_block(framebuffer, x * block_size, y * block_size, block_size);
            proof {
                assert forall|a: int, b: int| old(framebuffer).pixel_in_bounds(a, b)
                    implies framebuffer.pixel(a, b) == (if (a / bs < width && 0 <= b / bs < y) || (
                    0 <= a / bs < x + 1 && b / bs == y) {
                    cell_color_spec(
                        maze.symbol_spec(a / bs, b / bs),
                        old(framebuffer).background_color,
                    )
                } else {
                    old(framebuffer).pixel(a, b)
                }) by {
                    lemma_floor_div_range(a, x as int, bs);
                    lemma_floor_div_range(b, y as int, bs);
                }
            }
            x += 1;
        }
        proof {
            assert forall|a: int, b: int| old(framebuffer).pixel_in_bounds(a, b)
                implies framebuffer.pixel(a, b) == (if a / bs < width && 0 <= b / bs < y + 1 {
                cell_color_spec(
                    maze.symbol_spec(a / bs, b / bs),
                    old(framebuffer).background_color,
                )
            } else {
                old(framebuffer).pixel(a, b)
            }) by {
            }
        }
        y += 1;
    }
}

/// True when a row-major scan meets `(c2, r2)` no later than `(c, r)`.
pub open spec fn scan_le(c2: int, r2: int, c: int, r: int) -> bool {
    r2 < r || (r2 == r && c2 <= c)
}

/// The fixed-point pixel coordinates of a cell's center: where the goal
/// sprite is anchored and where the viewer starts.
pub fn cell_center(col: usize, row: usize, block_size: usize) -> (p: (i64, i64))
    requires
        0 < block_size <= MAX_BLOCK,
        col <= MAX_CELLS,
        row <= MAX_CELLS,
    ensures
        p.0 == (col * block_size + block_size / 2) * FP_ONE,
        p.1 == (row * block_size + block_size / 2) * FP_ONE,
{
    proof {
        lemma_mul_inequality(col as int, MAX_CELLS as int, block_size as int);
        lemma_mul_nonnegative(col as int, block_size as int);
        lemma_mul_inequality(row as int, MAX_CELLS as int, block_size as int);
        lemma_mul_nonnegative(row as int, block_size as int);
        assert(MAX_CELLS as int * block_size as int <= 0x1_0000_0000) by (nonlinear_arith)
            requires 0 < block_size as int <= MAX_BLOCK as int;
    }
    let x: i64 = (col as i64 * block_size as i64 + block_size as i64 / 2) * FP_ONE;
    let y: i64 = (row as i64 * block_size as i64 + block_size as i64 / 2) * FP_ONE;
    (x, y)
}

/// Scans the maze at level load: returns the cells of the start marker
/// and of the goal marker (the scan overwrites, so the last occurrence
/// in row-major order wins), and paints a block over every obstructing
/// cell in the current color.
pub fn init_maze(framebuffer: &mut Framebuffer, maze: &Maze, block_size: usize) -> (found: (
    Option<(usize, usize)>,
    Option<(usize, usize)>,
))
    requires
        old(framebuffer).wf(),
        maze.wf(),
        0 < block_size <= MAX_BLOCK,
        maze.width_spec() * block_size <= 0x4000_0000,
        maze.height_spec() * block_size <= 0x4000_0000,
    ensures
        final(framebuffer).wf(),
        final(framebuffer).width == old(framebuffer).width,
        final(framebuffer).height == old(framebuffer).height,
        final(framebuffer).background_color == old(framebuffer).background_color,
        final(framebuffer).current_color == old(framebuffer).current_color,
        forall|a: int, b: int|
            old(framebuffer).pixel_in_bounds(a, b) ==> final(framebuffer).pixel(a, b) == (
            if a / (block_size as int) < maze.width_spec() && b / (block_size as int)
                < maze.height_spec() && !walkable(
                maze.symbol_spec(a / (block_size as int), b / (block_size as int)),
            ) {
                old(framebuffer).current_color
            } else {
                old(framebuffer).pixel(a, b)
            }),
        found.0 matches Some(p) ==> maze.symbol_spec(p.0 as int, p.1 as int) == START_MARK
            && forall|c2: int, r2: int|
            maze.in_bounds(c2, r2) && maze.symbol_spec(c2, r2) == START_MARK ==> scan_le(
                c2,
                r2,
                p.0 as int,
                p.1 as int,
            ),
        found.0 is None ==> forall|c2: int, r2: int|
            maze.in_bounds(c2, r2) ==> maze.symbol_spec(c2, r2) != START_MARK,
        found.1 matches Some(p) ==> maze.symbol_spec(p.0 as int, p.1 as int) == GOAL_MARK
            && forall|c2: int, r2: int|
            maze.in_bounds(c2, r2) && maze.symbol_spec(c2, r2) == GOAL_MARK ==> scan_le(
                c2,
                r2,
                p.0 as int,
                p.1 as int,
            ),
        found.1 is None ==> forall|c2: int, r2: int|
            maze.in_bounds(c2, r2) ==> maze.symbol_spec(c2, r2) != GOAL_MARK,
{
    let ghost bs = block_size as int;
    let height = maze.height();
    let width = maze.width();
    let mut player: Option<(usize, usize)> = None;
    let mut goal: Option<(usize, usize)> = None;
    let mut y: usize = 0;
    while y < height
        invariant
            old(framebuffer).wf(),
            framebuffer.wf(),
            maze.wf(),
            0 < block_size <= MAX_BLOCK,
            bs == block_size as int,
            width == maze.width_spec(),
            height == maze.height_spec(),
            maze.width_spec() * block_size <= 0x4000_0000,
            maze.height_spec() * block_size <= 0x4000_0000,
            y <= height,
            framebuffer.width == old(framebuffer).width,
            framebuffer.height == old(framebuffer).height,
            framebuffer.background_color == old(framebuffer).background_color,
            framebuffer.current_color == old(framebuffer).current_color,
            forall|a: int, b: int|
                old(framebuffer).pixel_in_bounds(a, b) ==> framebuffer.pixel(a, b) == (
                if a / bs < width && 0 <= b / bs < y && !walkable(
                    maze.symbol_spec(a / bs, b / bs),
                ) {
                    old(framebuffer).current_color
                } else {
                    old(framebuffer).pixel(a, b)
                }),
            player matches Some(p) ==> p.1 < y && p.0 < width && maze.symbol_spec(
                p.0 as int,
                p.1 as int,
            ) == START_MARK && forall|c2: int, r2: int|
                0 <= c2 < width && 0 <= r2 < y && maze.symbol_spec(c2, r2) == START_MARK
                    ==> scan_le(c2, r2, p.0 as int, p.1 as int),
            player is None ==> forall|c2: int, r2: int|
                0 <= c2 < width && 0 <= r2 < y ==> maze.symbol_spec(c2, r2) != START_MARK,
            goal matches Some(p) ==> p.1 < y && p.0 < width && maze.symbol_spec(
                p.0 as int,
                p.1 as int,
            ) == GOAL_MARK && forall|c2: int, r2: int|
                0 <= c2 < width && 0 <= r2 < y && maze.symbol_spec(c2, r2) == GOAL_MARK
                    ==> scan_le(c2, r2, p.0 as int, p.1 as int),
            goal is None ==> forall|c2: int, r2: int|
                0 <= c2 < width && 0 <= r2 < y ==> maze.symbol_spec(c2, r2) != GOAL_MARK,
        decreases height - y,
    {
        let mut x: usize = 0;
        while x < width
            invariant
                old(framebuffer).wf(),
                framebuffer.wf(),
                maze.wf(),
                0 < block_size <= MAX_BLOCK,
                bs == block_size as int,
                width == maze.width_spec(),
                height == maze.height_spec(),
                maze.width_spec() * block_size <= 0x4000_0000,
                maze.height_spec() * block_size <= 0x4000_0000,
                y < height,
                x <= width,
                framebuffer.width == old(framebuffer).width,
                framebuffer.height == old(framebuffer).height,
                framebuffer.background_color == old(framebuffer).background_color,
                framebuffer.current_color == old(framebuffer).current_color,
                forall|a: int, b: int|
                    old(framebuffer).pixel_in_bounds(a, b) ==> framebuffer.pixel(a, b) == (
                    if ((a / bs < width && 0 <= b / bs < y) || (0 <= a / bs < x && b / bs == y))
                        && !walkable(maze.symbol_spec(a / bs, b / bs)) {
                        old(framebuffer).current_color
                    } else {
                        old(framebuffer).pixel(a, b)
                    }),
                player matches Some(p) ==> (p.1 < y || (p.1 == y && p.0 < x)) && p.0 < width
                    && maze.symbol_spec(p.0 as int, p.1 as int) == START_MARK && forall|
                    c2: int,
                    r2: int,
                |
                    0 <= c2 < width && 0 <= r2 && (r2 < y || (r2 == y && c2 < x))
                        && maze.symbol_spec(c2, r2) == START_MARK ==> scan_le(
                        c2,
                        r2,
                        p.0 as int,
                        p.1 as int,
                    ),
                player is None ==> forall|c2: int, r2: int|
                    0 <= c2 < width && 0 <= r2 && (r2 < y || (r2 == y && c2 < x))
                        ==> maze.symbol_spec(c2, r2) != START_MARK,
                goal matches Some(p) ==> (p.1 < y || (p.1 == y && p.0 < x)) && p.0 < width
                    && maze.symbol_spec(p.0 as int, p.1 as int) == GOAL_MARK && forall|
                    c2: int,
                    r2: int,
                |
                    0 <= c2 < width && 0 <= r2 && (r2 < y || (r2 == y && c2 < x))
                        && maze.symbol_spec(c2, r2) == GOAL_MARK ==> scan_le(
                        c2,
                        r2,
                        p.0 as int,
                        p.1 as int,
                    ),
                goal is None ==> forall|c2: int, r2: int|
                    0 <= c2 < width && 0 <= r2 && (r2 < y || (r2 == y && c2 < x))
                        ==> maze.symbol_spec(c2, r2) != GOAL_MARK,
            decreases width - x,
        {
            let symbol = maze.symbol_at(x as i64, y as i64);
            if symbol == START_MARK {
                player = Some((x, y));
            } else if symbol == GOAL_MARK {
                goal = Some((x, y));
            }
            if !(symbol == ' ' || symbol == START_MARK || symbol == GOAL_MARK) {
                proof {
                    lemma_mul_inequality(x as int + 1, width as int, bs);
                    lemma_mul_inequality(y as int + 1, height as int, bs);
                    lemma_mul_nonnegative(x as int, bs);
                    lemma_mul_nonnegative(y as int, bs);
                    assert((x as int + 1) * bs == x as int * bs + bs) by (nonlinear_arith);
                    assert((y as int + 1) * bs == y as int * bs + bs) by (nonlinear_arith);
                }
                draw_block(framebuffer, x * block_size, y * block_size, block_size);
            }
            proof {
                assert forall|a: int, b: int| old(framebuffer).pixel_in_bounds(a, b)
                    implies framebuffer.pixel(a, b) == (if ((a / bs < width && 0 <= b / bs < y)
                    || (0 <= a / bs < x + 1 && b / bs == y)) && !walkable(
                    maze.symbol_spec(a / bs, b / bs),
                ) {
                    old(framebuffer).current_color
                } else {
                    old(framebuffer).pixel(a, b)
                }) by {
                    lemma_floor_div_range(a, x as int, bs);
                    lemma_floor_div_range(b, y as int, bs);
                }
            }
            x += 1;
        }
        y += 1;
    }
    (player, goal)
}

/// The sample a pixel shows after the debug overlay is drawn: wall cells
/// as white blocks, the goal as a centered green half-block, everything
/// else untouched.
pub open spec fn overlay_pixel_spec(m: Maze, bs: int, a: int, b: int, before: Color) -> Color {
    let cx = a / bs;
    let cy = b / bs;
    if 0 <= cx < m.width_spec() && 0 <= cy < m.height_spec() {
        let c = m.symbol_spec(cx, cy);
        if !walkable(c) {
            Color::from_hex_spec(0xFFFFFF)
        } else if c == GOAL_MARK && cx * bs + bs / 4 <= a < cx * bs + bs / 4 + bs / 2 && cy * bs
            + bs / 4 <= b < cy * bs + bs / 4 + bs / 2 {
            Color::from_hex_spec(0x03FC0F)
        } else {
            before
        }
    } else {
        before
    }
}

/// Draws the top-down debug overlay — wall cells as white blocks, the
/// goal as a centered green half-block — and, unless this is the
/// minimap, reports whether the viewer stands in the goal cell (the win
/// condition).
pub fn render2d(
    framebuffer: &mut Framebuffer,
    maze: &Maze,
    block_size: usize,
    player_x: i64,
    player_y: i64,
    minimaze: bool,
) -> (win: bool)
    requires
        old(framebuffer).wf(),
        maze.wf(),
        0 < block_size <= MAX_BLOCK,
        maze.width_spec() * block_size <= 0x4000_0000,
        maze.height_spec() * block_size <= 0x4000_0000,
        -DIV_BOUND <= player_x <= DIV_BOUND,
        -DIV_BOUND <= player_y <= DIV_BOUND,
    ensures
        final(framebuffer).wf(),
        final(framebuffer).width == old(framebuffer).width,
        final(framebuffer).height == old(framebuffer).height,
        final(framebuffer).background_color == old(framebuffer).background_color,
        final(framebuffer).current_color == Color::from_hex_spec(0xFFFFFF),
        forall|a: int, b: int|
            old(framebuffer).pixel_in_bounds(a, b) ==> final(framebuffer).pixel(a, b)
                == overlay_pixel_spec(
                *maze,
                block_size as int,
                a,
                b,
                old(framebuffer).pixel(a, b),
            ),
        win == (!minimaze && maze.is_goal_spec(
            cell_of_spec(player_x as int, block_size as int),
            cell_of_spec(player_y as int, block_size as int),
        )),
{
    let ghost bs = block_size as int;
    let height = maze.height();
    let width = maze.width();
    let mut y: usize = 0;
    while y < height
        invariant
            old(framebuffer).wf(),
            framebuffer.wf(),
            maze.wf(),
            0 < block_size <= MAX_BLOCK,
            bs == block_size as int,
            width == maze.width_spec(),
            height == maze.height_spec(),
            maze.width_spec() * block_size <= 0x4000_0000,
            maze.height_spec() * block_size <= 0x4000_0000,
            y <= height,
            framebuffer.width == old(framebuffer).width,
            framebuffer.height == old(framebuffer).height,
            framebuffer.background_color == old(framebuffer).background_color,
            forall|a: int, b: int|
                old(framebuffer).pixel_in_bounds(a, b) ==> framebuffer.pixel(a, b) == (
                if 0 <= b / bs < y {
                    overlay_pixel_spec(*maze, bs, a, b, old(framebuffer).pixel(a, b))
                } else {
                    old(framebuffer).pixel(a, b)
                }),
        decreases height - y,
    {
        let mut x: usize = 0;
        while x < width
            invariant
                old(framebuffer).wf(),
                framebuffer.wf(),
                maze.wf(),
                0 < block_size <= MAX_BLOCK,
                bs == block_size as int,
                width == maze.width_spec(),
                height == maze.height_spec(),
                maze.width_spec() * block_size <= 0x4000_0000,
                maze.height_spec() * block_size <= 0x4000_0000,
                y < height,
                x <= width,
                framebuffer.width == old(framebuffer).width,
                framebuffer.height == old(framebuffer).height,
                framebuffer.background_color == old(framebuffer).background_color,
                forall|a: int, b: int|
                    old(framebuffer).pixel_in_bounds(a, b) ==> framebuffer.pixel(a, b) == (
                    if 0 <= b / bs < y || (0 <= a / bs < x && b / bs == y) {
                        overlay_pixel_spec(*maze, bs, a, b, old(framebuffer).pixel(a, b))
                    } else {
                        old(framebuffer).pixel(a, b)
                    }),
            decreases width - x,
        {
            proof {
                lemma_mul_inequality(x as int + 1, width as int, bs);
                lemma_mul_inequality(y as int + 1, height as int, bs);
                lemma_mul_nonnegative(x as int, bs);
                lemma_mul_nonnegative(y as int, bs);
                assert((x as int + 1) * bs == x as int * bs + bs) by (nonlinear_arith);
                assert((y as int + 1) * bs == y as int * bs + bs) by (nonlinear_arith);
                vstd::arithmetic::div_mod::lemma_fundamental_div_mod(bs, 4);
                vstd::arithmetic::div_mod::lemma_fundamental_div_mod(bs, 2);
            }
            let symbol = maze.symbol_at(x as i64, y as i64);
            if !(symbol == ' ' || symbol == START_MARK || symbol == GOAL_MARK) {
                framebuffer.set_current_color(Color::from_hex(0xFFFFFF));
                draw_block(framebuffer, x * block_size, y * block_size, block_size);
            } else if symbol == GOAL_MARK {
                framebuffer.set_current_color(Color::from_hex(0x03FC0F));
                draw_block(
                    framebuffer,
                    x * block_size + block_size / 4,
                    y * block_size + block_size / 4,
                    block_size / 2,
                );
            }
            proof {
                assert forall|a: int, b: int| old(framebuffer).pixel_in_bounds(a, b)
                    implies framebuffer.pixel(a, b) == (if 0 <= b / bs < y || (0 <= a / bs < x + 1
                    && b / bs == y) {
                    overlay_pixel_spec(*maze, bs, a, b, old(framebuffer).pixel(a, b))
                } else {
                    old(framebuffer).pixel(a, b)
                }) by {
                    lemma_floor_div_range(a, x as int, bs);
                    lemma_floor_div_range(b, y as int, bs);
                }
            }
            x += 1;
        }
        y += 1;
    }
    framebuffer.set_current_color(Color::from_hex(0xFFFFFF));
    if !minimaze {
        let col = cell_of(player_x, block_size);
        let row = cell_of(player_y, block_size);
        maze.is_goal(col, row)
    } else {
        false
    }
}

} // verus!
