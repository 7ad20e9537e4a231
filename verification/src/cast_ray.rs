//! The ray stepper and the intersection result builder.
//!
//! A ray is marched from the viewer in fixed increments of its parametric
//! distance; at each step the sample point is converted to a grid cell and
//! classified. The first obstructed cell ends the march; the first goal
//! crossing on the way is recorded without stopping. The raw terminal
//! distance is then corrected for fisheye distortion (multiplied by the
//! cosine of the ray's angular deviation from the viewer's heading) and a
//! texture coordinate is derived from the hit point's offset inside its
//! cell.

use vstd::prelude::*;
use vstd::arithmetic::div_mod::lemma_div_is_ordered;
use vstd::arithmetic::div_mod::lemma_fundamental_div_mod;
use vstd::arithmetic::div_mod::lemma_fundamental_div_mod_converse;
use vstd::arithmetic::mul::lemma_mul_inequality;
use crate::fixed::FP_ONE;
use crate::fixed::FACTOR_BOUND;
use crate::fixed::DIV_BOUND;
use crate::fixed::fp_mul;
use crate::fixed::fp_mul_spec;
use crate::fixed::floor_div;
use crate::fixed::floor_mod;
use crate::fixed::lemma_fp_mul_bounded;
use crate::fixed::lemma_fp_mul_one;
use crate::map::Maze;
use crate::map::MAX_BLOCK;
use crate::map::cell_of;
use crate::map::cell_of_spec;
use crate::framebuffer::Framebuffer;
use crate::color::Color;

verus! {

/// Largest magnitude accepted for a viewer coordinate, in fixed-point
/// pixels.
pub const COORD_BOUND: i64 = 0x10_0000_0000;

/// A ray cast: origin, direction, angular deviation from the viewer's
/// heading, and the march schedule.
///
/// `dir_x` and `dir_y` are the cosine and sine of the ray's angle and
/// `cos_dev` the cosine of `angle - heading`, all in fixed-point units of
/// `FP_ONE`.
#[derive(Clone, Copy, PartialEq, Eq, Structural)]
pub struct Ray {
    pub ox: i64,
    pub oy: i64,
    pub dir_x: i64,
    pub dir_y: i64,
    pub cos_dev: i64,
    /// March increment, in fixed-point pixels.
    pub step: i64,
    /// Hard ceiling on the number of march steps; exhausting it is the
    /// engine-fatal "unbounded march" condition.
    pub max_steps: usize,
}

impl Ray {
    pub open spec fn wf(self) -> bool {
        &&& -COORD_BOUND <= self.ox <= COORD_BOUND
        &&& -COORD_BOUND <= self.oy <= COORD_BOUND
        &&& -FP_ONE <= self.dir_x <= FP_ONE
        &&& -FP_ONE <= self.dir_y <= FP_ONE
        &&& -FP_ONE <= self.cos_dev <= FP_ONE
        &&& 1 <= self.step
        &&& self.step * self.max_steps <= FACTOR_BOUND
    }

    /// Parametric distance travelled after `k` steps.
    pub open spec fn dist(self, k: int) -> int {
        k * self.step
    }

    /// The sample point after `k` steps, x coordinate.
    pub open spec fn point_x(self, k: int) -> int {
        self.ox + fp_mul_spec(self.dist(k), self.dir_x as int)
    }

    /// The sample point after `k` steps, y coordinate.
    pub open spec fn point_y(self, k: int) -> int {
        self.oy + fp_mul_spec(self.dist(k), self.dir_y as int)
    }

    /// Grid column of the sample point after `k` steps.
    pub open spec fn col(self, block_size: int, k: int) -> int {
        cell_of_spec(self.point_x(k), block_size)
    }

    /// Grid row of the sample point after `k` steps.
    pub open spec fn row(self, block_size: int, k: int) -> int {
        cell_of_spec(self.point_y(k), block_size)
    }

    /// Whether the sample after `k` steps lies in an obstructed cell.
    pub open spec fn hits_wall(self, m: Maze, block_size: int, k: int) -> bool {
        m.is_wall_spec(self.col(block_size, k), self.row(block_size, k))
    }

    /// Whether the sample after `k` steps lies in the goal cell.
    pub open spec fn crosses_goal(self, m: Maze, block_size: int, k: int) -> bool {
        m.is_goal_spec(self.col(block_size, k), self.row(block_size, k))
    }

    /// The first obstructed step at or after step `k`, up to the ceiling.
    pub open spec fn first_wall_from(self, m: Maze, block_size: int, k: int) -> Option<int>
        decreases self.max_steps + 1 - k,
    {
        if k > self.max_steps {
            None
        } else if self.hits_wall(m, block_size, k) {
            Some(k)
        } else {
            self.first_wall_from(m, block_size, k + 1)
        }
    }

    /// The step of the march's terminal wall hit, if the ceiling admits one.
    pub open spec fn first_wall(self, m: Maze, block_size: int) -> Option<int> {
        self.first_wall_from(m, block_size, 0)
    }

    /// The first goal crossing in steps `[j, k)`.
    pub open spec fn first_goal_from(self, m: Maze, block_size: int, j: int, k: int) -> Option<
        int,
    >
        decreases k - j,
    {
        if j >= k {
            None
        } else if self.crosses_goal(m, block_size, j) {
            Some(j)
        } else {
            self.first_goal_from(m, block_size, j + 1, k)
        }
    }

    /// The first goal crossing strictly before the wall step `k`.
    pub open spec fn first_goal_before(self, m: Maze, block_size: int, k: int) -> Option<int> {
        self.first_goal_from(m, block_size, 0, k)
    }

    /// If the steps `[j, k)` are clear and step `k` is obstructed, the
    /// search from `j` finds exactly `k`.
    pub proof fn lemma_first_wall_reaches(self, m: Maze, block_size: int, j: int, k: int)
        requires
            0 <= j <= k <= self.max_steps,
            self.hits_wall(m, block_size, k),
            forall|i: int| j <= i < k ==> !self.hits_wall(m, block_size, i),
        ensures
            self.first_wall_from(m, block_size, j) == Some(k),
        decreases k - j,
    {
        if j < k {
            self.lemma_first_wall_reaches(m, block_size, j + 1, k);
        }
    }

    /// If every step from `j` to the ceiling is clear, the search from `j`
    /// finds nothing.
    pub proof fn lemma_first_wall_exhausts(self, m: Maze, block_size: int, j: int)
        requires
            0 <= j,
            forall|i: int| j <= i <= self.max_steps ==> !self.hits_wall(m, block_size, i),
        ensures
            self.first_wall_from(m, block_size, j) is None,
        decreases self.max_steps + 1 - j,
    {
        if j <= self.max_steps {
            self.lemma_first_wall_exhausts(m, block_size, j + 1);
        }
    }

    /// What a wall search result means: a found step is the least
    /// obstructed one; no result means every step to the ceiling is clear.
    pub proof fn lemma_first_wall_props(self, m: Maze, block_size: int, j: int)
        requires
            0 <= j,
        ensures
            match self.first_wall_from(m, block_size, j) {
                Some(k) => j <= k <= self.max_steps && self.hits_wall(m, block_size, k)
                    && forall|i: int| j <= i < k ==> !self.hits_wall(m, block_size, i),
                None => forall|i: int|
                    j <= i <= self.max_steps ==> !self.hits_wall(m, block_size, i),
            },
        decreases self.max_steps + 1 - j,
    {
        if j <= self.max_steps && !self.hits_wall(m, block_size, j) {
            self.lemma_first_wall_props(m, block_size, j + 1);
        }
    }

    /// Extending a goal search past a fresh step: an already-found
    /// crossing stands; otherwise the fresh step decides.
    pub proof fn lemma_first_goal_extend(self, m: Maze, block_size: int, j: int, k: int)
        requires
            0 <= j <= k,
        ensures
            self.first_goal_from(m, block_size, j, k + 1) == if self.first_goal_from(
                m,
                block_size,
                j,
                k,
            ) is Some {
                self.first_goal_from(m, block_size, j, k)
            } else if self.crosses_goal(m, block_size, k) {
                Some(k)
            } else {
                None
            },
        decreases k - j,
    {
        reveal_with_fuel(Ray::first_goal_from, 3);
        if j < k {
            self.lemma_first_goal_extend(m, block_size, j + 1, k);
        }
    }

    /// What a goal search result means over `[j, k)`.
    pub proof fn lemma_first_goal_props(self, m: Maze, block_size: int, j: int, k: int)
        requires
            0 <= j,
        ensures
            match self.first_goal_from(m, block_size, j, k) {
                Some(g) => j <= g < k && self.crosses_goal(m, block_size, g)
                    && forall|i: int| j <= i < g ==> !self.crosses_goal(m, block_size, i),
                None => forall|i: int| j <= i < k ==> !self.crosses_goal(m, block_size, i),
            },
        decreases k - j,
    {
        if j < k && !self.crosses_goal(m, block_size, j) {
            self.lemma_first_goal_props(m, block_size, j + 1, k);
        }
    }
}

/// A sample point beyond the grid's pixel extent lies in an out-of-bounds
/// cell, which the closed-world convention counts as a wall.
pub proof fn lemma_escaped_sample_hits_wall(ray: Ray, m: Maze, block_size: int, k: int)
    requires
        m.wf(),
        0 < block_size,
        ray.point_x(k) < 0 || ray.point_x(k) >= m.width_spec() * block_size * (FP_ONE as int)
            || ray.point_y(k) < 0 || ray.point_y(k) >= m.height_spec() * block_size * (
        FP_ONE as int),
    ensures
        ray.hits_wall(m, block_size, k),
{
    let scale = FP_ONE as int * block_size;
    let px = ray.point_x(k);
    let py = ray.point_y(k);
    lemma_fundamental_div_mod_converse(-1, scale, -1, scale - 1);
    if px < 0 {
        lemma_div_is_ordered(px, -1, scale);
    } else if px >= m.width_spec() * block_size * (FP_ONE as int) {
        assert(m.width_spec() * block_size * (FP_ONE as int) == m.width_spec() * scale)
            by (nonlinear_arith)
            requires scale == FP_ONE as int * block_size;
        lemma_div_is_ordered(m.width_spec() * scale, px, scale);
        vstd::arithmetic::div_mod::lemma_div_by_multiple(m.width_spec(), scale);
    } else if py < 0 {
        lemma_div_is_ordered(py, -1, scale);
    } else {
        assert(m.height_spec() * block_size * (FP_ONE as int) == m.height_spec() * scale)
            by (nonlinear_arith)
            requires scale == FP_ONE as int * block_size;
        lemma_div_is_ordered(m.height_spec() * scale, py, scale);
        vstd::arithmetic::div_mod::lemma_div_by_multiple(m.height_spec(), scale);
    }
}

/// A ray whose sample escapes the grid at some step within the ceiling is
/// guaranteed a terminal wall hit no later than that step: the march
/// never runs past its ceiling on a ray aimed out of the grid.
pub proof fn lemma_march_stops_at_edge(ray: Ray, m: Maze, block_size: int, k: int)
    requires
        m.wf(),
        0 < block_size,
        0 <= k <= ray.max_steps,
        ray.point_x(k) < 0 || ray.point_x(k) >= m.width_spec() * block_size * (FP_ONE as int)
            || ray.point_y(k) < 0 || ray.point_y(k) >= m.height_spec() * block_size * (
        FP_ONE as int),
    ensures
        ray.first_wall(m, block_size) matches Some(j) && j <= k,
{
    lemma_escaped_sample_hits_wall(ray, m, block_size, k);
    ray.lemma_first_wall_props(m, block_size, 0);
}

/// An axis-aligned cast down an open corridor stops at the first wall
/// cell's near face: the raw march distance overshoots the geometric
/// distance to the face by less than one step. With no angular deviation
/// (`cos_dev == FP_ONE`) the corrected distance equals the raw distance,
/// so it carries the same error bound.
pub proof fn lemma_axis_aligned_march(ray: Ray, m: Maze, block_size: int, wall_col: int)
    requires
        m.wf(),
        0 < block_size <= MAX_BLOCK,
        ray.wf(),
        ray.dir_x == FP_ONE,
        ray.dir_y == 0,
        0 <= ray.ox,
        ray.ox < wall_col * (FP_ONE as int * block_size),
        forall|c: int|
            cell_of_spec(ray.ox as int, block_size) <= c < wall_col ==> !m.is_wall_spec(
                c,
                cell_of_spec(ray.oy as int, block_size),
            ),
        m.is_wall_spec(wall_col, cell_of_spec(ray.oy as int, block_size)),
        ray.step <= FP_ONE as int * block_size,
        ray.dist(ray.max_steps as int) >= wall_col * (FP_ONE as int * block_size) - ray.ox,
    ensures
        ({
            let face = wall_col * (FP_ONE as int * block_size) - ray.ox;
            let k = (face + ray.step - 1) / (ray.step as int);
            &&& ray.first_wall(m, block_size) == Some(k)
            &&& face <= ray.dist(k) < face + ray.step
        }),
{
    let scale = FP_ONE as int * block_size;
    let boundary = wall_col * scale;
    let face = boundary - ray.ox;
    let s = ray.step as int;
    let k0 = (face + s - 1) / s;
    let c0 = cell_of_spec(ray.ox as int, block_size);
    let r0 = cell_of_spec(ray.oy as int, block_size);

    // The ceiling division lands in [face, face + step).
    lemma_fundamental_div_mod(face + s - 1, s);
    let rem = (face + s - 1) % s;
    assert(face + s - 1 == s * k0 + rem);
    assert(s * k0 == k0 * s) by (nonlinear_arith);
    assert(s * (k0 - 1) == k0 * s - s) by (nonlinear_arith);
    assert(face <= k0 * s < face + s);

    // The ceiling step is within the march's own ceiling.
    if k0 > ray.max_steps {
        lemma_mul_inequality(ray.max_steps as int, k0 - 1, s);
        assert(false);
    }
    assert(k0 >= 1) by {
        lemma_div_is_ordered(s, face + s - 1, s);
        lemma_fundamental_div_mod_converse(s, s, 1, 0);
    }

    // Every sample point of this ray moves straight along x.
    assert forall|j: int| 0 <= j implies ray.point_x(j) == ray.ox + j * s && ray.point_y(j)
        == ray.oy by {
        lemma_fp_mul_one(j * s);
        vstd::arithmetic::mul::lemma_mul_basics(j * s);
        vstd::arithmetic::div_mod::lemma_div_of0(FP_ONE as int);
    }

    // Steps before the ceiling step stay strictly inside the corridor.
    assert forall|j: int| 0 <= j < k0 implies !ray.hits_wall(m, block_size, j) by {
        lemma_mul_inequality(j, k0 - 1, s);
        vstd::arithmetic::mul::lemma_mul_nonnegative(j, s);
        let px = ray.ox + j * s;
        assert(px < boundary);
        lemma_div_is_ordered(ray.ox as int, px, scale);
        assert(boundary - 1 == (wall_col - 1) * scale + (scale - 1)) by (nonlinear_arith)
            requires boundary == wall_col * scale;
        lemma_fundamental_div_mod_converse(boundary - 1, scale, wall_col - 1, scale - 1);
        lemma_div_is_ordered(px, boundary - 1, scale);
        assert(c0 <= ray.col(block_size, j) < wall_col);
    }

    // The ceiling step lands inside the wall cell.
    assert(ray.hits_wall(m, block_size, k0)) by {
        let px = ray.ox + k0 * s;
        assert(boundary <= px < boundary + scale);
        lemma_fundamental_div_mod_converse(px, scale, wall_col, px - boundary);
    }

    ray.lemma_first_wall_reaches(m, block_size, 0, k0);
}

/// A recorded goal crossing lies strictly before the terminal wall step,
/// so with a non-negative deviation cosine its corrected distance is no
/// greater than the corrected distance to the wall itself.
pub proof fn lemma_goal_no_farther_than_wall(ray: Ray, m: Maze, block_size: int)
    requires
        ray.wf(),
        0 <= ray.cos_dev,
        ray.first_wall(m, block_size) is Some,
        ray.first_goal_before(m, block_size, ray.first_wall(m, block_size).unwrap()) is Some,
    ensures
        ({
            let k = ray.first_wall(m, block_size).unwrap();
            let g = ray.first_goal_before(m, block_size, k).unwrap();
            &&& 0 <= g < k
            &&& fp_mul_spec(ray.dist(g), ray.cos_dev as int) <= fp_mul_spec(
                ray.dist(k),
                ray.cos_dev as int,
            )
        }),
{
    let k = ray.first_wall(m, block_size).unwrap();
    let g = ray.first_goal_before(m, block_size, k).unwrap();
    ray.lemma_first_wall_props(m, block_size, 0);
    ray.lemma_first_goal_props(m, block_size, 0, k);
    lemma_mul_inequality(g, k, ray.step as int);
    assert(ray.dist(g) * ray.cos_dev <= ray.dist(k) * ray.cos_dev) by (nonlinear_arith)
        requires ray.dist(g) <= ray.dist(k) && 0 <= ray.cos_dev;
    lemma_div_is_ordered(
        ray.dist(g) * ray.cos_dev,
        ray.dist(k) * ray.cos_dev,
        FP_ONE as int,
    );
}

/// The texture coordinate of a hit point: the fractional offset, inside
/// its cell, along the struck face, in fixed-point units (so always in
/// `[0, FP_ONE)`).
///
/// Face selection compares the hit's distance to the nearest cell
/// boundary on each axis and takes the axis that is closer; on a tie —
/// including a hit exactly on a boundary or corner — the vertical face
/// wins and the coordinate is read along y. The coordinate is the other
/// axis' offset divided by the cell edge.
pub open spec fn texture_coord_spec(hx: int, hy: int, block_size: int) -> int {
    let scale = FP_ONE as int * block_size;
    let off_x = hx % scale;
    let off_y = hy % scale;
    let near_x = if off_x <= scale - off_x {
        off_x
    } else {
        scale - off_x
    };
    let near_y = if off_y <= scale - off_y {
        off_y
    } else {
        scale - off_y
    };
    if near_x <= near_y {
        off_y / block_size
    } else {
        off_x / block_size
    }
}

/// Derives the texture coordinate from a hit point. The result always
/// lies in `[0, FP_ONE)` — a hit exactly on a cell boundary resolves by
/// the fixed nearest-boundary tie-break, never to the right endpoint.
pub fn texture_coord(hit_x: i64, hit_y: i64, block_size: usize) -> (t: i64)
    requires
        0 < block_size <= MAX_BLOCK,
        -DIV_BOUND <= hit_x <= DIV_BOUND,
        -DIV_BOUND <= hit_y <= DIV_BOUND,
    ensures
        t == texture_coord_spec(hit_x as int, hit_y as int, block_size as int),
        0 <= t < FP_ONE,
{
    let bs: i64 = block_size as i64;
    let scale: i64 = FP_ONE * bs;
    let off_x = floor_mod(hit_x, scale);
    let off_y = floor_mod(hit_y, scale);
    let near_x = if off_x <= scale - off_x {
        off_x
    } else {
        scale - off_x
    };
    let near_y = if off_y <= scale - off_y {
        off_y
    } else {
        scale - off_y
    };
    let off = if near_x <= near_y {
        off_y
    } else {
        off_x
    };
    let t = off / bs;
    proof {
        lemma_div_is_ordered(0, off as int, bs as int);
        lemma_div_is_ordered(off as int, scale - 1, bs as int);
        lemma_fundamental_div_mod_converse(scale - 1, bs as int, FP_ONE - 1, bs - 1);
    }
    t
}

/// The fisheye correction of the intersection result builder: the raw
/// march distance scaled by the cosine of the ray's angular deviation
/// from the viewer's heading, giving the perpendicular distance used for
/// projection.
pub fn corrected_distance(raw: i64, cos_dev: i64) -> (d: i64)
    requires
        0 <= raw <= FACTOR_BOUND,
        -FP_ONE <= cos_dev <= FP_ONE,
    ensures
        d == fp_mul_spec(raw as int, cos_dev as int),
        -raw <= d <= raw,
{
    proof {
        lemma_fp_mul_bounded(raw as int, cos_dev as int);
    }
    fp_mul(raw, cos_dev)
}

/// A ray cast exactly along the viewer's heading has deviation cosine
/// `FP_ONE`, and then the corrected distance equals the raw march
/// distance: no fisheye correction is applied to a straight-ahead ray.
pub proof fn lemma_no_correction_on_heading(raw: int, cos_dev: int)
    requires
        cos_dev == FP_ONE,
    ensures
        fp_mul_spec(raw, cos_dev) == raw,
{
    lemma_fp_mul_one(raw);
}

/// The consumer-facing record of one ray cast.
#[derive(Clone, Copy, PartialEq, Eq, Structural, Debug)]
pub struct Intersect {
    /// Perpendicular (fisheye-corrected) distance to the hit, fixed-point
    /// pixels.
    pub distance: i64,
    /// Distance travelled along the ray to the hit, fixed-point pixels.
    pub raw_distance: i64,
    /// The symbol of the struck cell; the boundary sentinel for a hit on
    /// the grid's outer edge.
    pub impact: char,
    /// Terminal sample point, fixed-point pixels.
    pub hit_x: i64,
    /// Terminal sample point, fixed-point pixels.
    pub hit_y: i64,
    /// Offset along the struck face, in `[0, FP_ONE)`.
    pub texture_coord: i64,
    /// Whether the march crossed the goal cell before stopping.
    pub in_goal: bool,
    /// Corrected distance to the first goal crossing; zero when `in_goal`
    /// is false (callers must check the flag first).
    pub distance_to_goal: i64,
}

/// The march's engine-fatal condition: the step ceiling was exhausted
/// without striking a wall, which a well-formed closed-bordered grid
/// cannot produce.
#[derive(Clone, Copy, PartialEq, Eq, Structural, Debug)]
pub enum MarchError {
    Unbounded,
}

/// Casts one ray: marches from the ray's origin in fixed increments until
/// the first obstructed cell, recording the first goal crossing on the
/// way, and builds the intersection record. With `draw_overlay` the
/// sample trail is painted onto the surface (the debug overlay), which
/// has no effect on the returned result.
pub fn cast_ray(
    framebuffer: &mut Framebuffer,
    maze: &Maze,
    ray: Ray,
    block_size: usize,
    draw_overlay: bool,
) -> (r: Result<Intersect, MarchError>)
    requires
        old(framebuffer).wf(),
        maze.wf(),
        ray.wf(),
        0 < block_size <= MAX_BLOCK,
    ensures
        final(framebuffer).wf(),
        final(framebuffer).width == old(framebuffer).width,
        final(framebuffer).height == old(framebuffer).height,
        final(framebuffer).background_color == old(framebuffer).background_color,
        !draw_overlay ==> *final(framebuffer) == *old(framebuffer),
        (r is Ok) == (ray.first_wall(*maze, block_size as int) is Some),
        r matches Ok(it) ==> ({
            let k = ray.first_wall(*maze, block_size as int).unwrap();
            let g = ray.first_goal_before(*maze, block_size as int, k);
            &&& it.raw_distance == ray.dist(k)
            &&& it.hit_x == ray.point_x(k)
            &&& it.hit_y == ray.point_y(k)
            &&& it.impact == maze.symbol_spec(
                ray.col(block_size as int, k),
                ray.row(block_size as int, k),
            )
            &&& it.distance == fp_mul_spec(ray.dist(k), ray.cos_dev as int)
            &&& it.texture_coord == texture_coord_spec(
                it.hit_x as int,
                it.hit_y as int,
                block_size as int,
            )
            &&& 0 <= it.texture_coord < FP_ONE
            &&& it.in_goal == (g is Some)
            &&& (g matches Some(gi) ==> it.distance_to_goal == fp_mul_spec(
                ray.dist(gi),
                ray.cos_dev as int,
            ))
            &&& (g is None ==> it.distance_to_goal == 0)
        }),
{
    let ghost m = *maze;
    let ghost bsi = block_size as int;
    if draw_overlay {
        framebuffer.set_current_color(Color::from_hex(0xFFF333));
    }
    let mut k: usize = 0;
    let mut goal_found: bool = false;
    let mut goal_raw: i64 = 0;
    proof {
        lemma_mul_inequality(1, ray.step as int, ray.max_steps as int);
        assert(ray.step as int * ray.max_steps as int == ray.max_steps as int * ray.step as int)
            by (nonlinear_arith);
    }
    while k <= ray.max_steps
        invariant
            maze.wf(),
            ray.wf(),
            m == *maze,
            bsi == block_size as int,
            0 < block_size <= MAX_BLOCK,
            ray.max_steps <= FACTOR_BOUND,
            k <= ray.max_steps + 1,
            forall|j: int| 0 <= j < k ==> !ray.hits_wall(m, bsi, j),
            goal_found == (ray.first_goal_before(m, bsi, k as int) is Some),
            goal_found ==> goal_raw == ray.dist(
                ray.first_goal_before(m, bsi, k as int).unwrap(),
            ),
            0 <= goal_raw <= FACTOR_BOUND,
            framebuffer.wf(),
            framebuffer.width == old(framebuffer).width,
            framebuffer.height == old(framebuffer).height,
            framebuffer.background_color == old(framebuffer).background_color,
            !draw_overlay ==> *framebuffer == *old(framebuffer),
        decreases ray.max_steps + 1 - k,
    {
        proof {
            lemma_mul_inequality(k as int, ray.max_steps as int, ray.step as int);
            vstd::arithmetic::mul::lemma_mul_nonnegative(k as int, ray.step as int);
        }
        let d: i64 = k as i64 * ray.step;
        proof {
            lemma_fp_mul_bounded(d as int, ray.dir_x as int);
            lemma_fp_mul_bounded(d as int, ray.dir_y as int);
        }
        let px: i64 = ray.ox + fp_mul(d, ray.dir_x);
        let py: i64 = ray.oy + fp_mul(d, ray.dir_y);
        let col = cell_of(px, block_size);
        let row = cell_of(py, block_size);
        if maze.is_wall(col, row) {
            proof {
                ray.lemma_first_wall_reaches(m, bsi, 0, k as int);
            }
            let impact = maze.symbol_at(col, row);
            let distance = corrected_distance(d, ray.cos_dev);
            let tex = texture_coord(px, py, block_size);
            let distance_to_goal = if goal_found {
                corrected_distance(goal_raw, ray.cos_dev)
            } else {
                0
            };
            return Ok(
                Intersect {
                    distance,
                    raw_distance: d,
                    impact,
                    hit_x: px,
                    hit_y: py,
                    texture_coord: tex,
                    in_goal: goal_found,
                    distance_to_goal,
                },
            );
        }
        proof {
            ray.lemma_first_goal_extend(m, bsi, 0, k as int);
        }
        if !goal_found && maze.is_goal(col, row) {
            goal_found = true;
            goal_raw = d;
        }
        if draw_overlay {
            let pixel_x = floor_div(px, FP_ONE);
            let pixel_y = floor_div(py, FP_ONE);
            proof {
                lemma_div_is_ordered(-(COORD_BOUND + FACTOR_BOUND) as int, px as int, FP_ONE as int);
                lemma_div_is_ordered(px as int, (COORD_BOUND + FACTOR_BOUND) as int, FP_ONE as int);
                lemma_div_is_ordered(-(COORD_BOUND + FACTOR_BOUND) as int, py as int, FP_ONE as int);
                lemma_div_is_ordered(py as int, (COORD_BOUND + FACTOR_BOUND) as int, FP_ONE as int);
            }
            framebuffer.point(pixel_x as isize, pixel_y as isize);
        }
        k = k + 1;
    }
    proof {
        ray.lemma_first_wall_exhausts(m, bsi, 0);
    }
    Err(MarchError::Unbounded)
}

} // verus!
