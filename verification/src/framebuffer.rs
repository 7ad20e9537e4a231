//! The pixel surface the engine paints on.
//!
//! A write outside the surface is a no-op, never an error: the hot
//! rendering loops stay free of bounds-check branching in the caller.

use vstd::prelude::*;
use crate::color::Color;

verus! {

/// Largest accepted framebuffer edge, so that pixel indices stay inside
/// `usize` on every platform.
pub const MAX_DIM: usize = 0x8000;

pub struct Framebuffer {
    pub width: usize,
    pub height: usize,
    /// Row-major pixel samples: `(x, y)` lives at `y * width + x`.
    pub buffer: Vec<Color>,
    pub background_color: Color,
    pub current_color: Color,
}

impl Framebuffer {
    /// Well-formedness: the buffer holds exactly one sample per pixel.
    pub open spec fn wf(self) -> bool {
        &&& self.width <= MAX_DIM
        &&& self.height <= MAX_DIM
        &&& self.buffer@.len() == self.width * self.height
    }

    /// The sample at pixel `(x, y)`.
    pub open spec fn pixel(self, x: int, y: int) -> Color {
        self.buffer@[y * self.width + x]
    }

    pub open spec fn pixel_in_bounds(self, x: int, y: int) -> bool {
        0 <= x < self.width && 0 <= y < self.height
    }

    /// A fresh surface, cleared to black, drawing in white.
    pub fn new(width: usize, height: usize) -> (fb: Framebuffer)
        requires
            width <= MAX_DIM,
            height <= MAX_DIM,
        ensures
            fb.wf(),
            fb.width == width,
            fb.height == height,
            fb.background_color == Color::from_hex_spec(0x000000),
            fb.current_color == Color::from_hex_spec(0xFFFFFF),
            forall|x: int, y: int|
                fb.pixel_in_bounds(x, y) ==> fb.pixel(x, y) == fb.background_color,
    {
        let background_color = Color::from_hex(0x000000);
        let current_color = Color::from_hex(0xFFFFFF);
        proof {
            assert(width * height <= MAX_DIM * MAX_DIM) by (nonlinear_arith)
                requires 0 <= width as int <= MAX_DIM as int && 0 <= height as int <= MAX_DIM as int;
        }
        let n: usize = width * height;
        let mut buffer: Vec<Color> = Vec::new();
        let mut i: usize = 0;
        while i < n
            invariant
                i <= n,
                buffer@.len() == i,
                forall|j: int| 0 <= j < i ==> buffer@[j] == background_color,
            decreases n - i,
        {
            buffer.push(background_color);
            i += 1;
        }
        let fb = Framebuffer { width, height, buffer, background_color, current_color };
        proof {
            assert forall|x: int, y: int| fb.pixel_in_bounds(x, y) implies fb.pixel(x, y)
                == fb.background_color by {
                pixel_index_bound(x, y, width as int, height as int);
            }
        }
        fb
    }

    /// Paints pixel `(x, y)` in the current color; a no-op out of bounds.
    pub fn point(&mut self, x: isize, y: isize)
        requires
            old(self).wf(),
        ensures
            final(self).wf(),
            final(self).width == old(self).width,
            final(self).height == old(self).height,
            final(self).background_color == old(self).background_color,
            final(self).current_color == old(self).current_color,
            old(self).pixel_in_bounds(x as int, y as int) ==> final(self).buffer@ == old(
                self,
            ).buffer@.update(y as int * old(self).width + x as int, old(self).current_color),
            !old(self).pixel_in_bounds(x as int, y as int) ==> final(self).buffer@ == old(
                self,
            ).buffer@,
    {
        if x >= 0 && y >= 0 && (x as usize) < self.width && (y as usize) < self.height {
            proof {
                pixel_index_bound(x as int, y as int, self.width as int, self.height as int);
            }
            let index: usize = (y as usize) * self.width + (x as usize);
            let c = self.current_color;
            self.buffer.set(index, c);
        }
    }

    pub fn set_current_color(&mut self, color: Color)
        ensures
            final(self).current_color == color,
            final(self).width == old(self).width,
            final(self).height == old(self).height,
            final(self).buffer == old(self).buffer,
            final(self).background_color == old(self).background_color,
    {
        self.current_color = color;
    }

    /// Clears every pixel to the background color.
    pub fn clear(&mut self)
        requires
            old(self).wf(),
        ensures
            final(self).wf(),
            final(self).width == old(self).width,
            final(self).height == old(self).height,
            final(self).background_color == old(self).background_color,
            final(self).current_color == old(self).current_color,
            forall|x: int, y: int|
                final(self).pixel_in_bounds(x, y) ==> final(self).pixel(x, y) == final(
                    self
                ).background_color,
    {
        let n = self.buffer.len();
        let bg = self.background_color;
        let mut i: usize = 0;
        while i < n
            invariant
                i <= n,
                n == self.buffer@.len(),
                self.width == old(self).width,
                self.height == old(self).height,
                self.background_color == old(self).background_color,
                self.current_color == old(self).current_color,
                bg == self.background_color,
                forall|j: int| 0 <= j < i ==> self.buffer@[j] == bg,
            decreases n - i,
        {
            self.buffer.set(i, bg);
            i += 1;
        }
        proof {
            assert forall|x: int, y: int| self.pixel_in_bounds(x, y) implies self.pixel(x, y)
                == self.background_color by {
                pixel_index_bound(x, y, self.width as int, self.height as int);
            }
        }
    }

    /// The buffer as packed `0xRRGGBB` words, for presentation.
    pub fn to_u32_buffer(&self) -> (r: Vec<u32>)
        ensures
            r@.len() == self.buffer@.len(),
            forall|i: int|
                0 <= i < r@.len() ==> r@[i] == (#[trigger] self.buffer@[i]).to_u32_spec(),
    {
        let mut r: Vec<u32> = Vec::new();
        let mut i: usize = 0;
        while i < self.buffer.len()
            invariant
                i <= self.buffer@.len(),
                r@.len() == i,
                forall|j: int|
                    0 <= j < i ==> r@[j] == (#[trigger] self.buffer@[j]).to_u32_spec(),
            decreases self.buffer@.len() - i,
        {
            let v = self.buffer[i].to_u32();
            r.push(v);
            i += 1;
        }
        r
    }
}

/// Distinct pixels of a row-major surface have distinct buffer indices.
pub proof fn lemma_pixel_index_injective(w: int, px: int, py: int, qx: int, qy: int)
    requires
        0 <= px < w,
        0 <= qx < w,
        0 <= py,
        0 <= qy,
        py * w + px == qy * w + qx,
    ensures
        px == qx,
        py == qy,
{
    vstd::arithmetic::div_mod::lemma_fundamental_div_mod_converse(py * w + px, w, py, px);
    vstd::arithmetic::div_mod::lemma_fundamental_div_mod_converse(qy * w + qx, w, qy, qx);
}

/// What one `point` write does to the sample grid: the addressed pixel
/// takes the current color, every other pixel keeps its sample.
pub proof fn lemma_point_effect(pre: Framebuffer, post: Framebuffer, x: int, y: int)
    requires
        pre.wf(),
        post.width == pre.width,
        post.height == pre.height,
        pre.pixel_in_bounds(x, y),
        post.buffer@ == pre.buffer@.update(y * pre.width + x, pre.current_color),
    ensures
        forall|a: int, b: int|
            pre.pixel_in_bounds(a, b) ==> post.pixel(a, b) == (if a == x && b == y {
                pre.current_color
            } else {
                pre.pixel(a, b)
            }),
{
    pixel_index_bound(x, y, pre.width as int, pre.height as int);
    assert forall|a: int, b: int| pre.pixel_in_bounds(a, b) implies post.pixel(a, b) == (if a == x
        && b == y {
        pre.current_color
    } else {
        pre.pixel(a, b)
    }) by {
        pixel_index_bound(a, b, pre.width as int, pre.height as int);
        if a == x && b == y {
        } else {
            if b * pre.width + a == y * pre.width + x {
                lemma_pixel_index_injective(pre.width as int, a, b, x, y);
            }
        }
    }
}

/// A pixel inside the surface indexes inside the buffer.
pub proof fn pixel_index_bound(x: int, y: int, width: int, height: int)
    requires
        0 <= x < width,
        0 <= y < height,
        width <= MAX_DIM,
        height <= MAX_DIM,
    ensures
        0 <= y * width,
        y * width + x < width * height,
        width * height <= 0x4000_0000,
{
    assert(y * width + x < width * height) by (nonlinear_arith)
        requires 0 <= x < width && 0 <= y < height;
    assert(0 <= y * width) by (nonlinear_arith)
        requires 0 <= y && 0 < width;
    assert(width * height <= 0x4000_0000) by (nonlinear_arith)
        requires 0 < width <= MAX_DIM as int && 0 < height <= MAX_DIM as int;
}

} // verus!
