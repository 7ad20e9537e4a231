//! The column projector and the billboard placer.
//!
//! The projector casts one ray per screen column across the field of
//! view, turns each corrected distance into a vertical wall-slice
//! height by the inverse-distance law, paints the slice from the struck
//! cell's texture with a floor/ceiling gradient around it, and tracks
//! the goal crossing nearest the screen's center. The placer computes
//! the clipped on-screen rectangle of the goal's billboard sprite and
//! composites it, skipping pixels of the transparency sentinel color.

use vstd::prelude::*;
use vstd::arithmetic::div_mod::lemma_div_is_ordered;
use vstd::arithmetic::div_mod::lemma_div_is_ordered_by_denominator;
use crate::cast_ray::Ray;
use crate::cast_ray::MarchError;
use crate::cast_ray::cast_ray;
use crate::cast_ray::texture_coord_spec;
use crate::color::Color;
use crate::color::TRANSPARENT_RGB;
use crate::fixed::FP_ONE;
use crate::fixed::fp_mul_spec;
use crate::framebuffer::Framebuffer;
use crate::framebuffer::MAX_DIM;
use crate::map::Maze;
use crate::map::MAX_BLOCK;
use crate::sprite::Sprite;
use crate::sprite::sample_index;
use crate::sprite::sample_index_spec;

verus! {

/// The near-plane clamp: a corrected distance below ten pixels is
/// treated as ten pixels, so a wall touching the viewer cannot blow a
/// slice up without bound.
pub const NEAR_CLAMP: i64 = 10 * FP_ONE;

/// The win threshold: a tracked goal nearer than ten pixels triggers the
/// win condition instead of a billboard.
pub const WIN_DISTANCE: i64 = 10 * FP_ONE;

/// A corrected distance clamped away from the near plane.
pub open spec fn clamped_distance_spec(d: int) -> int {
    if d > NEAR_CLAMP {
        d
    } else {
        NEAR_CLAMP as int
    }
}

/// The height of a wall slice, in pixels: inverse-distance perspective
/// projection of one cell edge.
pub open spec fn stake_height_spec(d: int, half_height: int, block_size: int) -> int {
    (half_height + block_size) * block_size * (FP_ONE as int) / clamped_distance_spec(d)
}

/// Converts a corrected distance into the on-screen wall-slice height.
pub fn stake_height(distance: i64, half_height: usize, block_size: usize) -> (h: i64)
    requires
        half_height <= MAX_DIM,
        0 < block_size <= MAX_BLOCK,
    ensures
        h == stake_height_spec(distance as int, half_height as int, block_size as int),
        0 <= h <= 0x4000_0000,
{
    let clamped: i64 = if distance > NEAR_CLAMP {
        distance
    } else {
        NEAR_CLAMP
    };
    proof {
        assert(0 <= (half_height as int + block_size as int) * block_size as int * (FP_ONE as int)
            <= 0x600_0000_0000) by (nonlinear_arith)
            requires
                0 <= half_height as int <= MAX_DIM as int,
                0 < block_size as int <= MAX_BLOCK as int;
    }
    let numerator: i64 = (half_height as i64 + block_size as i64) * block_size as i64 * FP_ONE;
    let h = numerator / clamped;
    proof {
        lemma_div_is_ordered(0, numerator as int, clamped as int);
        lemma_div_is_ordered_by_denominator(numerator as int, NEAR_CLAMP as int, clamped as int);
        lemma_div_is_ordered(numerator as int, 0x600_0000_0000, NEAR_CLAMP as int);
    }
    h
}

/// A column's angular distance from the screen's center column.
pub open spec fn center_dev(i: int, w: int) -> int {
    if i - w / 2 >= 0 {
        i - w / 2
    } else {
        w / 2 - i
    }
}

/// The corrected distance to the goal crossing a column's ray reports,
/// if its march resolves and crosses the goal.
pub open spec fn column_goal_dist(m: Maze, block_size: int, r: Ray) -> Option<int> {
    match r.first_wall(m, block_size) {
        Some(k) => match r.first_goal_before(m, block_size, k) {
            Some(g) => Some(fp_mul_spec(r.dist(g), r.cos_dev as int)),
            None => None,
        },
        None => None,
    }
}

/// The tracked billboard anchor after the first `i` columns: the column
/// with a goal crossing whose index lies nearest the screen's center
/// (the earlier column on a tie), with its goal distance.
pub open spec fn tracked_goal(m: Maze, block_size: int, rays: Seq<Ray>, w: int, i: int) -> Option<
    (int, int),
>
    decreases i,
{
    if i <= 0 {
        None
    } else {
        let prev = tracked_goal(m, block_size, rays, w, i - 1);
        match column_goal_dist(m, block_size, rays[i - 1]) {
            None => prev,
            Some(d) => match prev {
                None => Some((i - 1, d)),
                Some(p) => if center_dev(i - 1, w) < center_dev(p.0, w) {
                    Some((i - 1, d))
                } else {
                    prev
                },
            },
        }
    }
}

/// The wall texture a struck symbol selects, out of the three the
/// projector is handed.
pub open spec fn wall_texture_spec(sprites: Seq<Sprite>, impact: char) -> Sprite {
    if impact == '+' {
        sprites[0]
    } else if impact == '-' {
        sprites[1]
    } else {
        sprites[2]
    }
}

/// The floor/ceiling gradient: the background dimmed by a factor that
/// falls away from the screen's midline.
pub open spec fn shade_spec(background: Color, hh: int, b: int, ceiling: bool) -> Color {
    if hh <= 0 {
        background
    } else if ceiling {
        background.scaled_spec(3 * hh - 2 * b, 2 * hh)
    } else {
        background.scaled_spec(2 * b - hh, 2 * hh)
    }
}

/// The sample row `b` of a column shows once its wall slice is painted:
/// the struck cell's texture inside the slice, the ceiling gradient
/// above it, the floor gradient below it. Meaningful when the column's
/// march resolves.
pub open spec fn column_pixel_spec(
    m: Maze,
    block_size: int,
    r: Ray,
    sprites: Seq<Sprite>,
    hh: int,
    b: int,
) -> Color {
    let k = r.first_wall(m, block_size).unwrap();
    let d = fp_mul_spec(r.dist(k), r.cos_dev as int);
    let sh = stake_height_spec(d, hh, block_size);
    let bottom = hh - sh / 2;
    let top = hh + sh / 2;
    let impact = m.symbol_spec(r.col(block_size, k), r.row(block_size, k));
    let background = Color::from_hex_spec(0x323638);
    if bottom < b < top {
        let tex = wall_texture_spec(sprites, impact);
        let tc = texture_coord_spec(r.point_x(k), r.point_y(k), block_size);
        tex.sample(
            sample_index_spec(tc, FP_ONE as int, tex.width as int),
            sample_index_spec(b - bottom, sh, tex.height as int),
        )
    } else if b <= bottom {
        shade_spec(background, hh, b, true)
    } else {
        shade_spec(background, hh, b, false)
    }
}

/// The on-screen rectangle of the goal billboard.
pub struct BillboardRect {
    /// Edge length of the (square) billboard, by the same inverse-distance
    /// law as wall slices.
    pub size: i64,
    /// Leftmost drawn column; may be negative when the sprite hangs off
    /// the screen's left edge.
    pub start_x: i64,
    /// One past the rightmost drawn column, clipped to the screen.
    pub end_x: i64,
    /// Topmost drawn row.
    pub start_y: i64,
    /// One past the bottom drawn row.
    pub end_y: i64,
}

/// The billboard's edge length at a given corrected distance.
pub open spec fn billboard_size_spec(d: int, half_height: int, block_size: int) -> int {
    (half_height / 2 + block_size) * block_size * (FP_ONE as int) / d
}

/// Computes the billboard's on-screen rectangle: centered on the anchor
/// column and on the screen midline, sized inversely to the goal's
/// distance, and clipped on the right to the screen's last column —
/// a sprite wider than the screen ends exactly at `width - 1`.
pub fn place_billboard(
    sprite_center: usize,
    distance: i64,
    half_height: usize,
    block_size: usize,
    width: usize,
) -> (rect: BillboardRect)
    requires
        WIN_DISTANCE <= distance,
        half_height <= MAX_DIM,
        0 < block_size <= MAX_BLOCK,
        sprite_center <= MAX_DIM,
        1 <= width <= MAX_DIM,
    ensures
        rect.size == billboard_size_spec(distance as int, half_height as int, block_size as int),
        0 <= rect.size <= 0x4000_0000,
        rect.start_y == half_height - rect.size / 2,
        rect.end_y == half_height + rect.size / 2,
        rect.start_x == sprite_center - rect.size / 2,
        rect.end_x == (if sprite_center + rect.size / 2 >= width {
            width - 1
        } else {
            sprite_center + rect.size / 2
        }),
        rect.end_x <= width - 1,
{
    proof {
        assert(0 <= (half_height as int / 2 + block_size as int) * block_size as int * (
        FP_ONE as int) <= 0x600_0000_0000) by (nonlinear_arith)
            requires
                0 <= half_height as int <= MAX_DIM as int,
                0 < block_size as int <= MAX_BLOCK as int;
    }
    let numerator: i64 = (half_height as i64 / 2 + block_size as i64) * block_size as i64
        * FP_ONE;
    let size = numerator / distance;
    proof {
        lemma_div_is_ordered(0, numerator as int, distance as int);
        lemma_div_is_ordered_by_denominator(numerator as int, WIN_DISTANCE as int, distance as int);
        lemma_div_is_ordered(numerator as int, 0x600_0000_0000, WIN_DISTANCE as int);
    }
    let half: i64 = size / 2;
    let start_x = sprite_center as i64 - half;
    let end_x = if sprite_center as i64 + half >= width as i64 {
        width as i64 - 1
    } else {
        sprite_center as i64 + half
    };
    BillboardRect {
        size,
        start_x,
        end_x,
        start_y: half_height as i64 - half,
        end_y: half_height as i64 + half,
    }
}

/// The sample a pixel shows after the billboard is composited: inside
/// the given rectangle the sprite's nearest-neighbor sample — unless
/// that sample is the transparency sentinel, which is skipped — and
/// elsewhere the prior sample.
pub open spec fn billboard_pixel_spec(
    s: Sprite,
    size: int,
    start_x: int,
    end_x: int,
    start_y: int,
    end_y: int,
    a: int,
    b: int,
    before: Color,
) -> Color {
    if start_x <= a < end_x && start_y <= b < end_y {
        let c = s.sample(
            sample_index_spec(a - start_x, size, s.width as int),
            sample_index_spec(b - start_y, size, s.height as int),
        );
        if c.to_u32_spec() == TRANSPARENT_RGB {
            before
        } else {
            c
        }
    } else {
        before
    }
}

/// Composites the goal's billboard sprite over the already-painted
/// frame: nearest-neighbor sampling inside the placed rectangle, with
/// pixels of the transparency sentinel color skipped exactly. Pixels
/// outside the rectangle keep their sample.
pub fn draw_sprite(
    framebuffer: &mut Framebuffer,
    block_size: usize,
    goal_sprite: &Sprite,
    sprite_distance: i64,
    sprite_center: usize,
)
    requires
        old(framebuffer).wf(),
        0 < block_size <= MAX_BLOCK,
        goal_sprite.wf(),
        WIN_DISTANCE <= sprite_distance,
        sprite_center <= MAX_DIM,
        1 <= old(framebuffer).width,
    ensures
        final(framebuffer).wf(),
        final(framebuffer).width == old(framebuffer).width,
        final(framebuffer).height == old(framebuffer).height,
        final(framebuffer).background_color == old(framebuffer).background_color,
        ({
            let size = billboard_size_spec(
                sprite_distance as int,
                old(framebuffer).height as int / 2,
                block_size as int,
            );
            let start_x = sprite_center - size / 2;
            let end_x = if sprite_center + size / 2 >= old(framebuffer).width {
                old(framebuffer).width - 1
            } else {
                sprite_center + size / 2
            };
            let start_y = old(framebuffer).height as int / 2 - size / 2;
            let end_y = old(framebuffer).height as int / 2 + size / 2;
            forall|a: int, b: int|
                old(framebuffer).pixel_in_bounds(a, b) ==> final(framebuffer).pixel(a, b)
                    == billboard_pixel_spec(
                    *goal_sprite,
                    size,
                    start_x,
                    end_x,
                    start_y,
                    end_y,
                    a,
                    b,
                    old(framebuffer).pixel(a, b),
                )
        }),
{
    let hh = framebuffer.height / 2;
    let width = framebuffer.width;
    let rect = place_billboard(sprite_center, sprite_distance, hh, block_size, width);
    if rect.size == 0 {
        return ;
    }
    let mut x: i64 = rect.start_x;
    while x < rect.end_x
        invariant
            old(framebuffer).wf(),
            framebuffer.wf(),
            goal_sprite.wf(),
            framebuffer.width == old(framebuffer).width,
            framebuffer.height == old(framebuffer).height,
            framebuffer.background_color == old(framebuffer).background_color,
            1 <= rect.size <= 0x4000_0000,
            rect.size == billboard_size_spec(
                sprite_distance as int,
                old(framebuffer).height as int / 2,
                block_size as int,
            ),
            rect.start_x == sprite_center - rect.size / 2,
            rect.start_y == hh - rect.size / 2,
            rect.end_y == hh + rect.size / 2,
            rect.end_x == (if sprite_center + rect.size / 2 >= width {
                width - 1
            } else {
                sprite_center + rect.size / 2
            }),
            hh == old(framebuffer).height / 2,
            width == old(framebuffer).width,
            rect.end_x <= width - 1,
            sprite_center <= MAX_DIM,
            rect.start_x <= x,
            x <= rect.end_x || x == rect.start_x,
            forall|a: int, b: int|
                old(framebuffer).pixel_in_bounds(a, b) ==> framebuffer.pixel(a, b)
                    == billboard_pixel_spec(
                    *goal_sprite,
                    rect.size as int,
                    rect.start_x as int,
                    x as int,
                    rect.start_y as int,
                    rect.end_y as int,
                    a,
                    b,
                    old(framebuffer).pixel(a, b),
                ),
        decreases rect.end_x - x,
    {
        if x >= 0 {
            let tx = sample_index(x - rect.start_x, rect.size, goal_sprite.width);
            let current_line = goal_sprite.get_line(tx);
            let mut y: i64 = rect.start_y;
            while y < rect.end_y
                invariant
                    old(framebuffer).wf(),
                    framebuffer.wf(),
                    goal_sprite.wf(),
                    framebuffer.width == old(framebuffer).width,
                    framebuffer.height == old(framebuffer).height,
                    framebuffer.background_color == old(framebuffer).background_color,
                    1 <= rect.size <= 0x4000_0000,
                    rect.start_x == sprite_center - rect.size / 2,
                    rect.start_y == hh - rect.size / 2,
                    rect.end_y == hh + rect.size / 2,
                    hh == old(framebuffer).height / 2,
                    width == old(framebuffer).width,
                    rect.end_x <= width - 1,
                    sprite_center <= MAX_DIM,
                    rect.start_x <= x < rect.end_x,
                    0 <= x,
                    rect.start_y <= y,
                    y <= rect.end_y || y == rect.start_y,
                    current_line@.len() == goal_sprite.height,
                    tx == sample_index_spec(
                        x - rect.start_x,
                        rect.size as int,
                        goal_sprite.width as int,
                    ),
                    tx < goal_sprite.width,
                    forall|j: int|
                        0 <= j < goal_sprite.height ==> current_line@[j] == goal_sprite.sample(
                            tx as int,
                            j,
                        ),
                    forall|a: int, b: int|
                        old(framebuffer).pixel_in_bounds(a, b) ==> framebuffer.pixel(a, b) == (
                        if a == x && rect.start_y <= b < y {
                            ({
                                let c = goal_sprite.sample(
                                    sample_index_spec(
                                        a - rect.start_x,
                                        rect.size as int,
                                        goal_sprite.width as int,
                                    ),
                                    sample_index_spec(
                                        b - rect.start_y,
                                        rect.size as int,
                                        goal_sprite.height as int,
                                    ),
                                );
                                if c.to_u32_spec() == TRANSPARENT_RGB {
                                    old(framebuffer).pixel(a, b)
                                } else {
                                    c
                                }
                            })
                        } else {
                            billboard_pixel_spec(
                                *goal_sprite,
                                rect.size as int,
                                rect.start_x as int,
                                x as int,
                                rect.start_y as int,
                                rect.end_y as int,
                                a,
                                b,
                                old(framebuffer).pixel(a, b),
                            )
                        }),
                decreases rect.end_y - y,
            {
                let ty = sample_index(y - rect.start_y, rect.size, goal_sprite.height);
                let color = current_line[ty];
                if color.to_u32() != TRANSPARENT_RGB {
                    framebuffer.set_current_color(color);
                    let ghost pre = *framebuffer;
                    framebuffer.point(x as isize, y as isize);
                    proof {
                        if pre.pixel_in_bounds(x as int, y as int) {
                            crate::framebuffer::lemma_point_effect(
                                pre,
                                *framebuffer,
                                x as int,
                                y as int,
                            );
                        }
                    }
                }
                y = y + 1;
            }
            proof {
                assert forall|a: int, b: int| old(framebuffer).pixel_in_bounds(a, b)
                    implies framebuffer.pixel(a, b) == billboard_pixel_spec(
                    *goal_sprite,
                    rect.size as int,
                    rect.start_x as int,
                    x + 1,
                    rect.start_y as int,
                    rect.end_y as int,
                    a,
                    b,
                    old(framebuffer).pixel(a, b),
                ) by {
                }
            }
        } else {
            proof {
                assert forall|a: int, b: int| old(framebuffer).pixel_in_bounds(a, b)
                    implies framebuffer.pixel(a, b) == billboard_pixel_spec(
                    *goal_sprite,
                    rect.size as int,
                    rect.start_x as int,
                    x + 1,
                    rect.start_y as int,
                    rect.end_y as int,
                    a,
                    b,
                    old(framebuffer).pixel(a, b),
                ) by {
                }
            }
        }
        x = x + 1;
    }
}

/// The per-frame entry point of the first-person view: casts one ray
/// per screen column, paints each column's wall slice between a ceiling
/// and floor gradient, tracks the goal crossing nearest the screen
/// center, composites the goal billboard when it is visible but still
/// beyond the win threshold, and reports whether the win condition
/// fired instead.
///
/// `rays` supplies one ray per column, swept across the field of view by
/// the caller. An `Err` reports the first column whose march exhausted
/// its ceiling (the engine-fatal unbounded-march condition).
pub fn render3d(
    framebuffer: &mut Framebuffer,
    maze: &Maze,
    rays: &Vec<Ray>,
    block_size: usize,
    sprites: &Vec<Sprite>,
    goal_sprite: &Sprite,
) -> (r: Result<bool, MarchError>)
    requires
        old(framebuffer).wf(),
        maze.wf(),
        0 < block_size <= MAX_BLOCK,
        1 <= old(framebuffer).width,
        rays@.len() == old(framebuffer).width,
        forall|i: int| 0 <= i < rays@.len() ==> (#[trigger] rays@[i]).wf(),
        sprites@.len() == 3,
        forall|i: int| 0 <= i < sprites@.len() ==> (#[trigger] sprites@[i]).wf(),
        goal_sprite.wf(),
    ensures
        final(framebuffer).wf(),
        final(framebuffer).width == old(framebuffer).width,
        final(framebuffer).height == old(framebuffer).height,
        final(framebuffer).background_color == old(framebuffer).background_color,
        (r is Ok) == (forall|i: int|
            0 <= i < rays@.len() ==> (#[trigger] rays@[i]).first_wall(
                *maze,
                block_size as int,
            ) is Some),
        r matches Ok(win) ==> ({
            let t = tracked_goal(
                *maze,
                block_size as int,
                rays@,
                old(framebuffer).width as int,
                rays@.len() as int,
            );
            win == (t matches Some(p) && p.1 < WIN_DISTANCE)
        }),
        r is Ok ==> ({
            let t = tracked_goal(
                *maze,
                block_size as int,
                rays@,
                old(framebuffer).width as int,
                rays@.len() as int,
            );
            let hh = old(framebuffer).height as int / 2;
            let wd = old(framebuffer).width as int;
            forall|a: int, b: int|
                old(framebuffer).pixel_in_bounds(a, b) ==> final(framebuffer).pixel(a, b) == (
                if t is Some && t.unwrap().1 > WIN_DISTANCE {
                    ({
                        let size = billboard_size_spec(t.unwrap().1, hh, block_size as int);
                        billboard_pixel_spec(
                            *goal_sprite,
                            size,
                            t.unwrap().0 - size / 2,
                            (if t.unwrap().0 + size / 2 >= wd {
                                wd - 1
                            } else {
                                t.unwrap().0 + size / 2
                            }),
                            hh - size / 2,
                            hh + size / 2,
                            a,
                            b,
                            column_pixel_spec(
                                *maze,
                                block_size as int,
                                rays@[a],
                                sprites@,
                                hh,
                                b,
                            ),
                        )
                    })
                } else {
                    column_pixel_spec(*maze, block_size as int, rays@[a], sprites@, hh, b)
                })
        }),
{
    let ghost m = *maze;
    let ghost bsi = block_size as int;
    let w = framebuffer.width;
    let ghost wi = w as int;
    let h = framebuffer.height;
    let hh = h / 2;
    let background_color = Color::from_hex(0x323638);
    let mut try_sprite = false;
    let mut sprite_center: usize = 0;
    let mut sprite_distance: i64 = 0;
    let mut i: usize = 0;
    while i < w
        invariant
            maze.wf(),
            m == *maze,
            bsi == block_size as int,
            0 < block_size <= MAX_BLOCK,
            w == old(framebuffer).width,
            wi == w as int,
            h == old(framebuffer).height,
            hh == h / 2,
            1 <= w,
            i <= w,
            rays@.len() == w,
            forall|j: int| 0 <= j < rays@.len() ==> (#[trigger] rays@[j]).wf(),
            sprites@.len() == 3,
            forall|j: int| 0 <= j < sprites@.len() ==> (#[trigger] sprites@[j]).wf(),
            goal_sprite.wf(),
            framebuffer.wf(),
            framebuffer.width == old(framebuffer).width,
            framebuffer.height == old(framebuffer).height,
            framebuffer.background_color == old(framebuffer).background_color,
            forall|j: int|
                0 <= j < i ==> (#[trigger] rays@[j]).first_wall(m, bsi) is Some,
            try_sprite == (tracked_goal(m, bsi, rays@, wi, i as int) is Some),
            tracked_goal(m, bsi, rays@, wi, i as int) matches Some(p) ==> p.0
                == sprite_center as int && p.1 == sprite_distance as int && 0 <= p.0 < i,
            try_sprite ==> sprite_center < w,
            background_color == Color::from_hex_spec(0x323638),
            forall|a: int, b: int|
                old(framebuffer).pixel_in_bounds(a, b) ==> framebuffer.pixel(a, b) == (
                if 0 <= a < i {
                    column_pixel_spec(m, bsi, rays@[a], sprites@, hh as int, b)
                } else {
                    old(framebuffer).pixel(a, b)
                }),
        decreases w - i,
    {
        let ray = rays[i];
        let cast = cast_ray(framebuffer, maze, ray, block_size, false);
        let intersect = match cast {
            Ok(it) => it,
            Err(e) => {
                proof {
                    assert(!(rays@[i as int].first_wall(m, bsi) is Some));
                }
                return Err(e);
            },
        };
        let in_goal = intersect.in_goal;
        let dgoal = intersect.distance_to_goal;
        proof {
            let fw = rays@[i as int].first_wall(m, bsi);
            assert(fw is Some);
            assert(column_goal_dist(m, bsi, rays@[i as int]) == (if in_goal {
                Some(dgoal as int)
            } else {
                Option::<int>::None
            }));
        }
        let ghost tg_next = tracked_goal(m, bsi, rays@, wi, i as int + 1);
        if in_goal {
            let half_w = w / 2;
            if !try_sprite {
                try_sprite = true;
                sprite_center = i;
                sprite_distance = dgoal;
            } else {
                let dev_new = if i >= half_w {
                    i - half_w
                } else {
                    half_w - i
                };
                let dev_best = if sprite_center >= half_w {
                    sprite_center - half_w
                } else {
                    half_w - sprite_center
                };
                if dev_new < dev_best {
                    sprite_center = i;
                    sprite_distance = dgoal;
                }
            }
        }
        proof {
            assert(try_sprite == (tg_next is Some));
            assert(tg_next matches Some(p) ==> p.0 == sprite_center as int && p.1
                == sprite_distance as int && 0 <= p.0 < i + 1);
        }
        let impact = intersect.impact;
        let sprite_index: usize = if impact == '+' {
            0
        } else if impact == '-' {
            1
        } else {
            2
        };
        let sh = stake_height(intersect.distance, hh, block_size);
        let stake_bottom: i64 = hh as i64 - sh / 2;
        let stake_top: i64 = hh as i64 + sh / 2;
        let texture = &sprites[sprite_index];
        let tx = sample_index(intersect.texture_coord, FP_ONE, texture.width);
        let current_line = texture.get_line(tx);
        let ghost kk = rays@[i as int].first_wall(m, bsi).unwrap();
        proof {
            assert(*texture == wall_texture_spec(
                sprites@,
                m.symbol_spec(rays@[i as int].col(bsi, kk), rays@[i as int].row(bsi, kk)),
            ));
        }
        let mut y: usize = 0;
        while y < h
            invariant
                maze.wf(),
                m == *maze,
                bsi == block_size as int,
                framebuffer.wf(),
                framebuffer.width == old(framebuffer).width,
                framebuffer.height == old(framebuffer).height,
                framebuffer.background_color == old(framebuffer).background_color,
                w == old(framebuffer).width,
                h == old(framebuffer).height,
                hh == h / 2,
                i < w,
                y <= h,
                h <= MAX_DIM,
                w <= MAX_DIM,
                rays@.len() == w,
                texture.wf(),
                current_line@.len() == texture.height,
                stake_bottom == hh as i64 - sh / 2,
                stake_top == hh as i64 + sh / 2,
                0 <= sh <= 0x4000_0000,
                rays@[i as int].first_wall(m, bsi) is Some,
                kk == rays@[i as int].first_wall(m, bsi).unwrap(),
                sh as int == stake_height_spec(
                    fp_mul_spec(rays@[i as int].dist(kk), rays@[i as int].cos_dev as int),
                    hh as int,
                    bsi,
                ),
                *texture == wall_texture_spec(
                    sprites@,
                    m.symbol_spec(rays@[i as int].col(bsi, kk), rays@[i as int].row(bsi, kk)),
                ),
                tx == sample_index_spec(
                    texture_coord_spec(
                        rays@[i as int].point_x(kk),
                        rays@[i as int].point_y(kk),
                        bsi,
                    ),
                    FP_ONE as int,
                    texture.width as int,
                ),
                forall|j: int|
                    0 <= j < texture.height ==> current_line@[j] == texture.sample(
                        tx as int,
                        j,
                    ),
                background_color == Color::from_hex_spec(0x323638),
                forall|a: int, b: int|
                    old(framebuffer).pixel_in_bounds(a, b) ==> framebuffer.pixel(a, b) == (
                    if a == i && 0 <= b < y {
                        column_pixel_spec(m, bsi, rays@[a], sprites@, hh as int, b)
                    } else if 0 <= a < i {
                        column_pixel_spec(m, bsi, rays@[a], sprites@, hh as int, b)
                    } else {
                        old(framebuffer).pixel(a, b)
                    }),
            decreases h - y,
        {
            if stake_bottom < y as i64 && (y as i64) < stake_top {
                proof {
                    vstd::arithmetic::div_mod::lemma_fundamental_div_mod(sh as int, 2);
                }
                let ty = sample_index(y as i64 - stake_bottom, sh, texture.height);
                framebuffer.set_current_color(current_line[ty]);
            } else if y as i64 <= stake_bottom {
                let c = if hh > 0 {
                    background_color.scaled(3 * hh as i64 - 2 * y as i64, 2 * hh as i64)
                } else {
                    background_color
                };
                framebuffer.set_current_color(c);
            } else {
                let c = if hh > 0 {
                    background_color.scaled(2 * y as i64 - hh as i64, 2 * hh as i64)
                } else {
                    background_color
                };
                framebuffer.set_current_color(c);
            }
            let ghost pre = *framebuffer;
            framebuffer.point(i as isize, y as isize);
            proof {
                crate::framebuffer::lemma_point_effect(pre, *framebuffer, i as int, y as int);
                assert forall|a: int, b: int| old(framebuffer).pixel_in_bounds(a, b)
                    implies framebuffer.pixel(a, b) == (if a == i && 0 <= b < y + 1 {
                    column_pixel_spec(m, bsi, rays@[a], sprites@, hh as int, b)
                } else if 0 <= a < i {
                    column_pixel_spec(m, bsi, rays@[a], sprites@, hh as int, b)
                } else {
                    old(framebuffer).pixel(a, b)
                }) by {
                    if a == i && b == y {
                        assert(pre.pixel_in_bounds(a, b));
                    }
                }
            }
            y += 1;
        }
        proof {
            assert forall|a: int, b: int| old(framebuffer).pixel_in_bounds(a, b)
                implies framebuffer.pixel(a, b) == (if 0 <= a < i + 1 {
                column_pixel_spec(m, bsi, rays@[a], sprites@, hh as int, b)
            } else {
                old(framebuffer).pixel(a, b)
            }) by {
            }
        }
        i += 1;
    }
    if try_sprite && sprite_distance > WIN_DISTANCE {
        let ghost before_billboard = *framebuffer;
        draw_sprite(framebuffer, block_size, goal_sprite, sprite_distance, sprite_center);
        proof {
            assert(forall|a: int, b: int|
                old(framebuffer).pixel_in_bounds(a, b) ==> before_billboard.pixel(a, b)
                    == column_pixel_spec(m, bsi, rays@[a], sprites@, hh as int, b));
        }
        Ok(false)
    } else if try_sprite && sprite_distance < WIN_DISTANCE {
        Ok(true)
    } else {
        Ok(false)
    }
}

} // verus!
