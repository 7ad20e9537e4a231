//! Visibility and projection engine for a grid-based first-person maze
//! renderer.
//!
//! Given a rectangular occupancy grid of cell symbols, a viewer position and
//! per-ray direction data, the engine finds the nearest wall surface struck by
//! each ray, derives the perpendicular (fisheye-corrected) distance and a
//! texture coordinate along the struck face, tracks goal crossings, projects
//! the results into vertical wall slices, and places a single billboard
//! sprite for the goal.
//!
//! All geometry is carried in sub-pixel fixed-point integers: one pixel is
//! [`fixed::FP_ONE`] units. Callers supply ray directions (cosine/sine pairs)
//! and angular-deviation cosines in the same fixed-point scale.

pub mod cast_ray;
pub mod color;
pub mod fixed;
pub mod framebuffer;
pub mod map;
pub mod project;
pub mod render;
pub mod sprite;
