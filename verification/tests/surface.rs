//! Tests of the pixel surface, sprites, the 2D views and the projector.

use mazecast::color::Color;
use mazecast::fixed::FP_ONE;
use mazecast::framebuffer::Framebuffer;
use mazecast::map::Maze;
use mazecast::project::{
    draw_sprite, place_billboard, render3d, stake_height, NEAR_CLAMP, WIN_DISTANCE,
};
use mazecast::render::{cell_center, init_maze, render, render2d};
use mazecast::sprite::{draw_block, sample_index, Sprite};
use mazecast::cast_ray::Ray;

fn maze_from(rows: &[&str]) -> Maze {
    let cells: Vec<Vec<char>> = rows.iter().map(|r| r.chars().collect()).collect();
    Maze::new(cells).expect("well-formed grid")
}

fn pixel(fb: &Framebuffer, x: usize, y: usize) -> u32 {
    fb.buffer[y * fb.width + x].to_u32()
}

fn flat_sprite(w: usize, h: usize, rgb: u32) -> Sprite {
    let buffer = vec![Color::from_hex(rgb); w * h];
    Sprite::new(buffer, w, h).expect("consistent sprite")
}

fn fan_rays(ox: i64, oy: i64, heading: f32, fov: f32, columns: usize) -> Vec<Ray> {
    let mut rays = Vec::new();
    for i in 0..columns {
        let angle = heading - fov / 2.0 + fov * (i as f32) / (columns as f32);
        let dir_x = (angle.cos() * FP_ONE as f32).round() as i64;
        let dir_y = (angle.sin() * FP_ONE as f32).round() as i64;
        let cos_dev = ((angle - heading).cos() * FP_ONE as f32).round() as i64;
        rays.push(Ray { ox, oy, dir_x, dir_y, cos_dev, step: 102, max_steps: 1 << 15 });
    }
    rays
}

#[test]
fn framebuffer_starts_black_and_paints_points() {
    let mut fb = Framebuffer::new(4, 3);
    assert_eq!(fb.width, 4);
    assert_eq!(fb.height, 3);
    assert_eq!(fb.buffer.len(), 12);
    assert_eq!(pixel(&fb, 2, 1), 0x000000);
    fb.set_current_color(Color::from_hex(0xAABBCC));
    fb.point(2, 1);
    assert_eq!(pixel(&fb, 2, 1), 0xAABBCC);
    // Out-of-range writes are no-ops, not errors.
    fb.point(-1, 0);
    fb.point(4, 0);
    fb.point(0, 3);
    assert_eq!(pixel(&fb, 0, 0), 0x000000);
    let words = fb.to_u32_buffer();
    assert_eq!(words.len(), 12);
    assert_eq!(words[1 * 4 + 2], 0xAABBCC);
    fb.clear();
    assert_eq!(pixel(&fb, 2, 1), 0x000000);
}

#[test]
fn color_packs_and_scales_channels() {
    let c = Color::from_hex(0x11AA33);
    assert_eq!(c.r, 0x11);
    assert_eq!(c.g, 0xAA);
    assert_eq!(c.b, 0x33);
    assert_eq!(c.to_u32(), 0x11AA33);
    let half = c.scaled(1, 2);
    assert_eq!((half.r, half.g, half.b), (0x08, 0x55, 0x19));
    let dark = c.scaled(-3, 2);
    assert_eq!((dark.r, dark.g, dark.b), (0, 0, 0));
    let bright = Color::from_hex(0xFF0102).scaled(3, 2);
    assert_eq!((bright.r, bright.g, bright.b), (255, 1, 3));
}

#[test]
fn sprite_new_checks_its_extent() {
    assert!(Sprite::new(vec![Color::from_hex(0); 6], 3, 2).is_some());
    assert!(Sprite::new(vec![Color::from_hex(0); 5], 3, 2).is_none());
    assert!(Sprite::new(vec![], 0, 0).is_none());
}

#[test]
fn get_line_returns_one_column() {
    let mut buffer = Vec::new();
    for v in 0..6u32 {
        buffer.push(Color::from_hex(v));
    }
    let s = Sprite::new(buffer, 3, 2).unwrap();
    let line = s.get_line(1);
    assert_eq!(line.len(), 2);
    assert_eq!(line[0].to_u32(), 1);
    assert_eq!(line[1].to_u32(), 4);
}

#[test]
fn sample_index_clamps_defensively() {
    assert_eq!(sample_index(0, 10, 5), 0);
    assert_eq!(sample_index(9, 10, 5), 4);
    assert_eq!(sample_index(10, 10, 5), 4);
    assert_eq!(sample_index(25, 10, 5), 4);
    assert_eq!(sample_index(-3, 10, 5), 0);
    assert_eq!(sample_index(5, 10, 5), 2);
}

#[test]
fn render_screen_stretches_by_nearest_neighbor() {
    let mut buffer = Vec::new();
    for v in 1..=4u32 {
        buffer.push(Color::from_hex(v * 0x111111));
    }
    let s = Sprite::new(buffer, 2, 2).unwrap();
    let mut fb = Framebuffer::new(4, 4);
    Sprite::render_screen(&mut fb, &s);
    // Painted region misses the last row and column.
    assert_eq!(pixel(&fb, 0, 0), 0x111111);
    assert_eq!(pixel(&fb, 2, 0), 0x222222);
    assert_eq!(pixel(&fb, 0, 2), 0x333333);
    assert_eq!(pixel(&fb, 2, 2), 0x444444);
    assert_eq!(pixel(&fb, 3, 3), 0x000000);
    assert_eq!(pixel(&fb, 3, 0), 0x000000);
}

#[test]
fn draw_block_paints_a_clipped_square() {
    let mut fb = Framebuffer::new(4, 4);
    fb.set_current_color(Color::from_hex(0x123456));
    draw_block(&mut fb, 2, 2, 3);
    assert_eq!(pixel(&fb, 2, 2), 0x123456);
    assert_eq!(pixel(&fb, 3, 3), 0x123456);
    assert_eq!(pixel(&fb, 1, 1), 0x000000);
    assert_eq!(pixel(&fb, 1, 2), 0x000000);
}

#[test]
fn render_paints_each_cell_by_symbol() {
    let m = maze_from(&["+ g", "p|x"]);
    let mut fb = Framebuffer::new(6, 4);
    render(&mut fb, &m, 2);
    assert_eq!(pixel(&fb, 0, 0), 0x000000);
    assert_eq!(pixel(&fb, 1, 1), 0x000000);
    assert_eq!(pixel(&fb, 2, 0), 0x0000FF);
    assert_eq!(pixel(&fb, 4, 1), 0x00FF00);
    assert_eq!(pixel(&fb, 0, 2), 0xFF0000);
    assert_eq!(pixel(&fb, 2, 3), 0x000000);
    assert_eq!(pixel(&fb, 5, 2), 0x0000FF);
}

#[test]
fn init_maze_finds_markers_and_draws_walls() {
    let m = maze_from(&["#p ", " gg"]);
    let mut fb = Framebuffer::new(6, 4);
    fb.set_current_color(Color::from_hex(0xFFFFFF));
    let (player, goal) = init_maze(&mut fb, &m, 2);
    assert_eq!(player, Some((1, 0)));
    // The scan overwrites: the last goal in row-major order wins.
    assert_eq!(goal, Some((2, 1)));
    assert_eq!(pixel(&fb, 0, 0), 0xFFFFFF);
    assert_eq!(pixel(&fb, 1, 1), 0xFFFFFF);
    assert_eq!(pixel(&fb, 2, 0), 0x000000);
    assert_eq!(pixel(&fb, 2, 2), 0x000000);
}

#[test]
fn init_maze_reports_missing_markers() {
    let m = maze_from(&["# ", "  "]);
    let mut fb = Framebuffer::new(4, 4);
    let (player, goal) = init_maze(&mut fb, &m, 2);
    assert_eq!(player, None);
    assert_eq!(goal, None);
}

#[test]
fn cell_center_lands_mid_cell() {
    let (x, y) = cell_center(2, 1, 64);
    assert_eq!(x, (2 * 64 + 32) * FP_ONE);
    assert_eq!(y, (64 + 32) * FP_ONE);
}

#[test]
fn render2d_reports_the_win_condition() {
    let m = maze_from(&["#####", "# g #", "#####"]);
    let bs = 16usize;
    let mut fb = Framebuffer::new(80, 48);
    let (gx, gy) = cell_center(2, 1, bs);
    assert!(render2d(&mut fb, &m, bs, gx, gy, false));
    let (ox, oy) = cell_center(1, 1, bs);
    assert!(!render2d(&mut fb, &m, bs, ox, oy, false));
    // The minimap never triggers the win.
    assert!(!render2d(&mut fb, &m, bs, gx, gy, true));
    // Wall cells are white blocks, the goal cell a centered green patch.
    assert_eq!(pixel(&fb, 0, 0), 0xFFFFFF);
    assert_eq!(pixel(&fb, 2 * bs + bs / 2, bs + bs / 2), 0x03FC0F);
    assert_eq!(pixel(&fb, bs + bs / 2, bs + bs / 2), 0x000000);
}

#[test]
fn stake_height_follows_the_inverse_distance_law() {
    let h = stake_height(2 * 60 * FP_ONE, 300, 60);
    assert_eq!(h, (300 + 60) * 60 * FP_ONE / (2 * 60 * FP_ONE));
    assert_eq!(h, 180);
    // The near-plane clamp caps the blow-up of touching walls.
    assert_eq!(stake_height(0, 300, 60), (300 + 60) * 60 * FP_ONE / NEAR_CLAMP);
    assert_eq!(stake_height(-5, 300, 60), stake_height(0, 300, 60));
}

#[test]
fn billboard_wider_than_the_screen_clips_at_the_last_column() {
    let rect = place_billboard(300, WIN_DISTANCE + 1, 300, 60, 600);
    assert!(rect.size > 600);
    assert_eq!(rect.end_x, 599);
    assert!(rect.start_x < 0);
    assert_eq!(rect.start_y, 300 - rect.size / 2);
    assert_eq!(rect.end_y, 300 + rect.size / 2);
}

#[test]
fn billboard_far_away_needs_no_clipping() {
    let far = 200 * 60 * FP_ONE;
    let rect = place_billboard(300, far, 300, 60, 600);
    assert_eq!(rect.size, (150 + 60) * 60 * FP_ONE / far);
    assert!(rect.end_x < 599);
    assert_eq!(rect.end_x, 300 + rect.size / 2);
}

#[test]
fn billboard_skips_transparent_pixels_exactly() {
    // A sprite of pure white, the transparency sentinel, leaves no mark.
    let mut fb = Framebuffer::new(16, 16);
    let white = flat_sprite(4, 4, 0xFFFFFF);
    draw_sprite(&mut fb, 8, &white, WIN_DISTANCE + 1, 8);
    for y in 0..16 {
        for x in 0..16 {
            assert_eq!(pixel(&fb, x, y), 0x000000);
        }
    }
    // An opaque sprite paints its rectangle.
    let red = flat_sprite(4, 4, 0xFF0000);
    draw_sprite(&mut fb, 8, &red, WIN_DISTANCE + 1, 8);
    assert_eq!(pixel(&fb, 8, 8), 0xFF0000);
    assert_eq!(pixel(&fb, 0, 0), 0x000000);
}

#[test]
fn render3d_sweeps_without_a_goal() {
    let m = maze_from(&["###", "# #", "###"]);
    let bs = 64usize;
    let (ox, oy) = cell_center(1, 1, bs);
    let rays = fan_rays(ox, oy, 0.0, std::f32::consts::PI / 3.0, 24);
    let mut fb = Framebuffer::new(24, 24);
    let walls = vec![
        flat_sprite(8, 8, 0x802020),
        flat_sprite(8, 8, 0x208020),
        flat_sprite(8, 8, 0x202080),
    ];
    let goal_sprite = flat_sprite(8, 8, 0xF0F000);
    let win = render3d(&mut fb, &m, &rays, bs, &walls, &goal_sprite).expect("all columns stop");
    assert!(!win);
    assert_eq!(fb.width, 24);
    assert_eq!(fb.height, 24);
}

#[test]
fn render3d_triggers_the_win_next_to_the_goal() {
    let m = maze_from(&["#####", "# g #", "#####"]);
    let bs = 32usize;
    // The viewer stands a fraction of a pixel left of the goal cell's
    // near face: every ray crosses the goal within the win threshold.
    let ox = 2 * bs as i64 * FP_ONE - FP_ONE / 2;
    let oy = (bs as i64 + bs as i64 / 2) * FP_ONE;
    let rays = fan_rays(ox, oy, 0.0, std::f32::consts::PI / 6.0, 16);
    let mut fb = Framebuffer::new(16, 16);
    let walls = vec![
        flat_sprite(4, 4, 0x802020),
        flat_sprite(4, 4, 0x208020),
        flat_sprite(4, 4, 0x202080),
    ];
    let goal_sprite = flat_sprite(4, 4, 0xF0F000);
    let win = render3d(&mut fb, &m, &rays, bs, &walls, &goal_sprite).expect("all columns stop");
    assert!(win);
}

#[test]
fn render3d_draws_a_distant_goal_as_a_billboard() {
    let rows = ["#########", "#p  g   #", "#########"];
    let m = maze_from(&rows);
    let bs = 64usize;
    let (ox, oy) = cell_center(1, 1, bs);
    let rays = fan_rays(ox, oy, 0.0, std::f32::consts::PI / 3.0, 32);
    let mut fb = Framebuffer::new(32, 32);
    let walls = vec![
        flat_sprite(4, 4, 0x802020),
        flat_sprite(4, 4, 0x208020),
        flat_sprite(4, 4, 0x202080),
    ];
    // An opaque single-color goal sprite must leave its mark on screen.
    let goal_sprite = flat_sprite(4, 4, 0x123456);
    let win = render3d(&mut fb, &m, &rays, bs, &walls, &goal_sprite).expect("all columns stop");
    assert!(!win);
    let mut stamped = false;
    for y in 0..32 {
        for x in 0..32 {
            if pixel(&fb, x, y) == 0x123456 {
                stamped = true;
            }
        }
    }
    assert!(stamped);
}
