//! Tests of the fixed-point helpers, the grid model and the ray march.

use mazecast::cast_ray::{cast_ray, corrected_distance, texture_coord, MarchError, Ray};
use mazecast::fixed::{floor_div, floor_mod, fp_mul, FP_ONE};
use mazecast::framebuffer::Framebuffer;
use mazecast::map::{cell_of, Maze, BOUNDARY};

fn maze_from(rows: &[&str]) -> Maze {
    let cells: Vec<Vec<char>> = rows.iter().map(|r| r.chars().collect()).collect();
    Maze::new(cells).expect("well-formed grid")
}

fn straight_ray(ox: i64, oy: i64, max_steps: usize) -> Ray {
    Ray { ox, oy, dir_x: FP_ONE, dir_y: 0, cos_dev: FP_ONE, step: 102, max_steps }
}

fn angled_ray(ox: i64, oy: i64, angle: f32, heading: f32, max_steps: usize) -> Ray {
    let dir_x = (angle.cos() * FP_ONE as f32).round() as i64;
    let dir_y = (angle.sin() * FP_ONE as f32).round() as i64;
    let cos_dev = ((angle - heading).cos() * FP_ONE as f32).round() as i64;
    Ray { ox, oy, dir_x, dir_y, cos_dev, step: 102, max_steps }
}

#[test]
fn floor_div_rounds_toward_negative_infinity() {
    assert_eq!(floor_div(7, 2), 3);
    assert_eq!(floor_div(-7, 2), -4);
    assert_eq!(floor_div(-8, 2), -4);
    assert_eq!(floor_div(0, 5), 0);
    assert_eq!(floor_div(-1, 1024), -1);
}

#[test]
fn floor_mod_is_always_non_negative() {
    assert_eq!(floor_mod(7, 2), 1);
    assert_eq!(floor_mod(-7, 2), 1);
    assert_eq!(floor_mod(-1, 1024), 1023);
    assert_eq!(floor_mod(2048, 1024), 0);
}

#[test]
fn fp_mul_scales_by_fixed_point_one() {
    assert_eq!(fp_mul(12345, FP_ONE), 12345);
    assert_eq!(fp_mul(1000, 512), 500);
    assert_eq!(fp_mul(-1000, 512), -500);
    assert_eq!(fp_mul(1, 1), 0);
}

#[test]
fn maze_new_rejects_malformed_grids() {
    assert!(Maze::new(vec![]).is_none());
    assert!(Maze::new(vec![vec![]]).is_none());
    assert!(Maze::new(vec![vec!['#', '#'], vec!['#']]).is_none());
    assert!(Maze::new(vec![vec!['#', '#'], vec!['#', ' ']]).is_some());
}

#[test]
fn is_wall_closes_the_world_out_of_bounds() {
    let m = maze_from(&["###", "# #", "###"]);
    assert!(m.is_wall(-1, 1));
    assert!(m.is_wall(3, 1));
    assert!(m.is_wall(1, -1));
    assert!(m.is_wall(1, 3));
    assert!(m.is_wall(0, 0));
    assert!(!m.is_wall(1, 1));
}

#[test]
fn goal_and_start_cells_are_walkable() {
    let m = maze_from(&["#####", "#p g#", "#####"]);
    assert!(!m.is_wall(1, 1));
    assert!(!m.is_wall(3, 1));
    assert!(m.is_goal(3, 1));
    assert!(!m.is_goal(1, 1));
    assert!(!m.is_goal(-1, 1));
    assert_eq!(m.symbol_at(3, 1), 'g');
    assert_eq!(m.symbol_at(9, 1), BOUNDARY);
}

#[test]
fn cell_of_maps_negative_coordinates_below_zero() {
    let bs = 64usize;
    assert_eq!(cell_of(0, bs), 0);
    assert_eq!(cell_of(64 * FP_ONE - 1, bs), 0);
    assert_eq!(cell_of(64 * FP_ONE, bs), 1);
    assert_eq!(cell_of(-1, bs), -1);
}

#[test]
fn straight_cast_into_ring_wall_hits_at_half_block() {
    // A 3-by-3 grid, all open but a ring of wall cells on the border;
    // the viewer sits at the center cell's center facing right.
    let m = maze_from(&["###", "# #", "###"]);
    let bs = 64usize;
    let ox = (3 * bs as i64 / 2) * FP_ONE;
    let oy = ox;
    let mut fb = Framebuffer::new(8, 8);
    let ray = straight_ray(ox, oy, 4096);
    let it = cast_ray(&mut fb, &m, ray, bs, false).expect("march must stop");
    assert_eq!(it.impact, '#');
    // Distance from the center to the border wall is half a block,
    // overshot by less than one step.
    let face = (bs as i64 / 2) * FP_ONE;
    assert!(it.raw_distance >= face);
    assert!(it.raw_distance < face + ray.step);
    // Straight ahead, the corrected distance equals the raw distance.
    assert_eq!(it.distance, it.raw_distance);
    assert!(!it.in_goal);
}

#[test]
fn goal_crossing_is_nearer_than_the_wall_behind_it() {
    let m = maze_from(&["#####", "# g #", "#####"]);
    let bs = 64usize;
    let ox = (bs as i64 + bs as i64 / 2) * FP_ONE;
    let oy = ox;
    let mut fb = Framebuffer::new(8, 8);
    let ray = straight_ray(ox, oy, 8192);
    let it = cast_ray(&mut fb, &m, ray, bs, false).expect("march must stop");
    assert!(it.in_goal);
    assert_eq!(it.impact, '#');
    assert!(it.distance_to_goal < it.distance);
    assert!(it.distance_to_goal >= 0);
}

#[test]
fn ray_aimed_off_the_grid_stops_at_the_boundary() {
    // A single open cell with an open border: the closed-world convention
    // stops the ray at the grid's edge instead of looping forever.
    let m = maze_from(&[" "]);
    let bs = 64usize;
    let ox = 32 * FP_ONE;
    let mut fb = Framebuffer::new(4, 4);
    let ray = straight_ray(ox, ox, 4096);
    let it = cast_ray(&mut fb, &m, ray, bs, false).expect("march must stop at the edge");
    assert_eq!(it.impact, BOUNDARY);
    let face = 32 * FP_ONE;
    assert!(it.raw_distance >= face && it.raw_distance < face + ray.step);
}

#[test]
fn march_exhausts_its_ceiling_without_a_wall() {
    // A single open cell and a zero direction: no sample ever leaves the
    // cell, so the step ceiling runs out.
    let m = maze_from(&[" "]);
    let bs = 64usize;
    let ray = Ray {
        ox: 32 * FP_ONE,
        oy: 32 * FP_ONE,
        dir_x: 0,
        dir_y: 0,
        cos_dev: FP_ONE,
        step: 102,
        max_steps: 16,
    };
    let mut fb = Framebuffer::new(4, 4);
    assert_eq!(cast_ray(&mut fb, &m, ray, bs, false), Err(MarchError::Unbounded));
}

#[test]
fn overlay_flag_does_not_change_the_result() {
    let m = maze_from(&["###", "# #", "###"]);
    let bs = 64usize;
    let ox = (3 * bs as i64 / 2) * FP_ONE;
    let mut fb = Framebuffer::new(256, 256);
    let ray = straight_ray(ox, ox, 4096);
    let plain = cast_ray(&mut fb, &m, ray, bs, false).unwrap();
    let drawn = cast_ray(&mut fb, &m, ray, bs, true).unwrap();
    assert_eq!(plain, drawn);
}

#[test]
fn corrected_distance_is_identity_on_heading() {
    assert_eq!(corrected_distance(12345, FP_ONE), 12345);
    assert_eq!(corrected_distance(1000, 512), 500);
    assert_eq!(corrected_distance(0, 77), 0);
}

#[test]
fn texture_coord_stays_in_unit_range() {
    let bs = 64usize;
    let scale = bs as i64 * FP_ONE;
    // A hit exactly on a vertical cell boundary: the tie-break reads the
    // coordinate along y.
    let t = texture_coord(3 * scale, 3 * scale + scale / 2, bs);
    assert_eq!(t, FP_ONE / 2);
    // A corner hit resolves to the face start, not to one.
    let t = texture_coord(3 * scale, 3 * scale, bs);
    assert_eq!(t, 0);
    // A hit deep inside a cell, nearer the horizontal boundary, reads x.
    let t = texture_coord(3 * scale + scale / 4, 3 * scale + scale / 64, bs);
    assert_eq!(t, FP_ONE / 4);
    for probe in [0i64, 1, scale - 1, scale / 3, 7 * scale / 8] {
        let t = texture_coord(3 * scale + probe, 5 * scale + probe / 2, bs);
        assert!(t >= 0 && t < FP_ONE);
    }
}

#[test]
fn fisheye_correction_flattens_a_wall_across_the_fov() {
    // An open field with a wall plane at column 5; the viewer faces it
    // head on. Five rays spread evenly across a 60-degree field of view
    // must report near-equal corrected distances while the raw march
    // distances grow toward the edges.
    let rows: Vec<&str> = vec!["     #"; 9];
    let m = maze_from(&rows);
    let bs = 64usize;
    let ox = (bs as i64 + bs as i64 / 2) * FP_ONE;
    let oy = (4 * bs as i64 + bs as i64 / 2) * FP_ONE;
    let face = 5 * bs as i64 * FP_ONE - ox;
    let fov = std::f32::consts::PI / 3.0;
    let mut corrected = Vec::new();
    let mut raw = Vec::new();
    for i in 0..5 {
        let angle = -fov / 2.0 + fov * (i as f32) / 4.0;
        let ray = angled_ray(ox, oy, angle, 0.0, 1 << 16);
        let mut fb = Framebuffer::new(4, 4);
        let it = cast_ray(&mut fb, &m, ray, bs, false).expect("march must stop");
        assert_eq!(it.impact, '#');
        corrected.push(it.distance);
        raw.push(it.raw_distance);
    }
    // Raw distances increase toward the field-of-view edges.
    assert!(raw[0] > raw[1] && raw[1] > raw[2]);
    assert!(raw[4] > raw[3] && raw[3] > raw[2]);
    // Corrected distances converge on the true perpendicular distance.
    let tolerance = face / 100 + 2 * 102;
    for d in corrected {
        assert!((d - face).abs() <= tolerance, "corrected {} vs face {}", d, face);
    }
}
