//! Sprite and texture images, and the block/screen painting helpers.
//!
//! A sprite is an immutable pixel grid handed in by a loading
//! collaborator (image decoding is out of the engine's scope). Sampling
//! is nearest-neighbor; an index that rounds to or past the image extent
//! is clamped to the last valid row or column, never indexed out of
//! range.

use vstd::prelude::*;
use vstd::arithmetic::div_mod::lemma_div_is_ordered;
use vstd::arithmetic::div_mod::lemma_multiply_divide_lt;
use vstd::arithmetic::mul::lemma_mul_nonnegative;
use vstd::arithmetic::mul::lemma_mul_strict_inequality;
use crate::color::Color;
use crate::framebuffer::Framebuffer;
use crate::framebuffer::MAX_DIM;
use crate::framebuffer::lemma_point_effect;
use crate::framebuffer::pixel_index_bound;

verus! {

/// An immutable image: row-major color samples with `(x, y)` at
/// `x + y * width`.
pub struct Sprite {
    pub buffer: Vec<Color>,
    pub height: usize,
    pub width: usize,
}

impl Sprite {
    /// Well-formedness: one sample per pixel, and a positive extent.
    pub open spec fn wf(self) -> bool {
        &&& 0 < self.width <= MAX_DIM
        &&& 0 < self.height <= MAX_DIM
        &&& self.buffer@.len() == self.width * self.height
    }

    /// The sample in column `x`, row `y`.
    pub open spec fn sample(self, x: int, y: int) -> Color {
        self.buffer@[x + y * self.width]
    }

    /// Builds a sprite from already-decoded pixel data; accepts exactly
    /// the buffers whose length matches the claimed extent.
    pub fn new(buffer: Vec<Color>, width: usize, height: usize) -> (r: Option<Sprite>)
        ensures
            r is Some <==> (Sprite { buffer, height, width }).wf(),
            r matches Some(s) ==> s == (Sprite { buffer, height, width }),
    {
        if width == 0 || width > MAX_DIM || height == 0 || height > MAX_DIM {
            return None;
        }
        proof {
            assert(width * height <= MAX_DIM * MAX_DIM) by (nonlinear_arith)
                requires 0 <= width as int <= MAX_DIM as int && 0 <= height as int <= MAX_DIM as int;
        }
        if buffer.len() != width * height {
            return None;
        }
        Some(Sprite { buffer, height, width })
    }

    /// The image's column `x`, top to bottom.
    pub fn get_line(&self, x: usize) -> (line: Vec<Color>)
        requires
            self.wf(),
            x < self.width,
        ensures
            line@.len() == self.height,
            forall|y: int| 0 <= y < self.height ==> line@[y] == self.sample(x as int, y),
    {
        let mut line: Vec<Color> = Vec::new();
        let mut y: usize = 0;
        while y < self.height
            invariant
                self.wf(),
                x < self.width,
                y <= self.height,
                line@.len() == y,
                forall|j: int| 0 <= j < y ==> line@[j] == self.sample(x as int, j),
            decreases self.height - y,
        {
            proof {
                pixel_index_bound(x as int, y as int, self.width as int, self.height as int);
            }
            let c = self.buffer[x + y * self.width];
            line.push(c);
            y += 1;
        }
        line
    }
}

impl Sprite {
    /// Stretches a sprite over the whole surface by nearest-neighbor
    /// sampling (the full-screen menu and ending cards). The last pixel
    /// column and row of the surface are left untouched.
    pub fn render_screen(framebuffer: &mut Framebuffer, sprite: &Sprite)
        requires
            old(framebuffer).wf(),
            1 <= old(framebuffer).width,
            1 <= old(framebuffer).height,
            sprite.wf(),
        ensures
            final(framebuffer).wf(),
            final(framebuffer).width == old(framebuffer).width,
            final(framebuffer).height == old(framebuffer).height,
            final(framebuffer).background_color == old(framebuffer).background_color,
            forall|a: int, b: int|
                old(framebuffer).pixel_in_bounds(a, b) ==> final(framebuffer).pixel(a, b) == (
                if a < old(framebuffer).width - 1 && b < old(framebuffer).height - 1 {
                    sprite.sample(
                        a * sprite.width / old(framebuffer).width as int,
                        b * sprite.height / old(framebuffer).height as int,
                    )
                } else {
                    old(framebuffer).pixel(a, b)
                }),
    {
        let w = framebuffer.width;
        let h = framebuffer.height;
        let mut x: usize = 0;
        while x + 1 < w
            invariant
                old(framebuffer).wf(),
                framebuffer.wf(),
                sprite.wf(),
                w == old(framebuffer).width,
                h == old(framebuffer).height,
                1 <= w,
                1 <= h,
                framebuffer.width == w,
                framebuffer.height == h,
                framebuffer.background_color == old(framebuffer).background_color,
                x <= w - 1,
                forall|a: int, b: int|
                    old(framebuffer).pixel_in_bounds(a, b) ==> framebuffer.pixel(a, b) == (
                    if a < x && b < h - 1 {
                        sprite.sample(a * sprite.width / w as int, b * sprite.height / h as int)
                    } else {
                        old(framebuffer).pixel(a, b)
                    }),
            decreases w - x,
        {
            let tx = sample_index(x as i64, w as i64, sprite.width);
            proof {
                lemma_sample_index_exact(x as int, w as int, sprite.width as int);
            }
            let current_line = sprite.get_line(tx);
            let mut y: usize = 0;
            while y + 1 < h
                invariant
                    old(framebuffer).wf(),
                    framebuffer.wf(),
                    sprite.wf(),
                    w == old(framebuffer).width,
                    h == old(framebuffer).height,
                    1 <= w,
                    1 <= h,
                    framebuffer.width == w,
                    framebuffer.height == h,
                    framebuffer.background_color == old(framebuffer).background_color,
                    x < w,
                    x <= w - 1,
                    y <= h - 1,
                    tx == x as int * sprite.width / w as int,
                    tx < sprite.width,
                    current_line@.len() == sprite.height,
                    forall|j: int|
                        0 <= j < sprite.height ==> current_line@[j] == sprite.sample(
                            tx as int,
                            j,
                        ),
                    forall|a: int, b: int|
                        old(framebuffer).pixel_in_bounds(a, b) ==> framebuffer.pixel(a, b) == (
                        if (a < x && b < h - 1) || (a == x && b < y) {
                            sprite.sample(
                                a * sprite.width / w as int,
                                b * sprite.height / h as int,
                            )
                        } else {
                            old(framebuffer).pixel(a, b)
                        }),
                decreases h - y,
            {
                let ty = sample_index(y as i64, h as i64, sprite.height);
                proof {
                    lemma_sample_index_exact(y as int, h as int, sprite.height as int);
                }
                let c = current_line[ty];
                framebuffer.set_current_color(c);
                let ghost pre = *framebuffer;
                framebuffer.point(x as isize, y as isize);
                proof {
                    lemma_point_effect(pre, *framebuffer, x as int, y as int);
                }
                y += 1;
            }
            x += 1;
        }
    }
}

/// Nearest-neighbor sample index: position `pos` of an extent of
/// `extent` mapped onto `size` texels, clamped into `[0, size)`.
pub open spec fn sample_index_spec(pos: int, extent: int, size: int) -> int {
    let i = pos * size / extent;
    if i < 0 {
        0
    } else if i >= size {
        size - 1
    } else {
        i
    }
}

/// Maps a screen position onto a texel index, with the defensive clamp
/// to the last valid index.
pub fn sample_index(pos: i64, extent: i64, size: usize) -> (idx: usize)
    requires
        0 < extent <= 0x4000_0000,
        0 < size <= MAX_DIM,
        -0x4000_0000 <= pos <= 0x4000_0000,
    ensures
        idx == sample_index_spec(pos as int, extent as int, size as int),
        idx < size,
{
    if pos <= 0 {
        proof {
            vstd::arithmetic::mul::lemma_mul_basics(size as int);
            if pos < 0 {
                lemma_mul_strict_inequality(pos as int, 0, size as int);
                lemma_div_is_ordered(pos as int * size as int, -1, extent as int);
                vstd::arithmetic::div_mod::lemma_fundamental_div_mod_converse(
                    -1,
                    extent as int,
                    -1,
                    extent as int - 1,
                );
            } else {
                vstd::arithmetic::div_mod::lemma_div_of0(extent as int);
            }
        }
        return 0;
    }
    proof {
        assert(0 <= pos as int * size as int <= 0x4000_0000 * MAX_DIM as int) by (nonlinear_arith)
            requires 0 <= pos as int <= 0x4000_0000 && 0 < size as int <= MAX_DIM as int;
    }
    let scaled: i64 = pos * size as i64;
    let i: i64 = scaled / extent;
    proof {
        lemma_div_is_ordered(0, scaled as int, extent as int);
        lemma_div_is_ordered(scaled as int, 0x4000_0000 * MAX_DIM as int, extent as int);
    }
    if i >= size as i64 {
        size - 1
    } else {
        i as usize
    }
}

/// When the position lies strictly inside the extent, the sample index
/// needs no clamping: the map into `[0, size)` is exact.
pub proof fn lemma_sample_index_exact(pos: int, extent: int, size: int)
    requires
        0 <= pos < extent,
        0 < size,
    ensures
        sample_index_spec(pos, extent, size) == pos * size / extent,
        0 <= pos * size / extent < size,
{
    lemma_mul_nonnegative(pos, size);
    lemma_div_is_ordered(0, pos * size, extent);
    assert(pos * size < extent * size) by (nonlinear_arith)
        requires 0 <= pos < extent && 0 < size;
    lemma_multiply_divide_lt(pos * size, extent, size);
}

/// Paints the square of `block_size` pixels whose top-left pixel is
/// `(xo, yo)` in the current color; pixels outside the surface are
/// skipped, pixels outside the square keep their sample.
pub fn draw_block(framebuffer: &mut Framebuffer, xo: usize, yo: usize, block_size: usize)
    requires
        old(framebuffer).wf(),
        xo + block_size <= 0x4000_0000,
        yo + block_size <= 0x4000_0000,
    ensures
        final(framebuffer).wf(),
        final(framebuffer).width == old(framebuffer).width,
        final(framebuffer).height == old(framebuffer).height,
        final(framebuffer).background_color == old(framebuffer).background_color,
        final(framebuffer).current_color == old(framebuffer).current_color,
        forall|a: int, b: int|
            old(framebuffer).pixel_in_bounds(a, b) ==> final(framebuffer).pixel(a, b) == (
            if xo <= a < xo + block_size && yo <= b < yo + block_size {
                old(framebuffer).current_color
            } else {
                old(framebuffer).pixel(a, b)
            }),
{
    let mut i: usize = 0;
    while i < block_size
        invariant
            old(framebuffer).wf(),
            framebuffer.wf(),
            framebuffer.width == old(framebuffer).width,
            framebuffer.height == old(framebuffer).height,
            framebuffer.background_color == old(framebuffer).background_color,
            framebuffer.current_color == old(framebuffer).current_color,
            i <= block_size,
            xo + block_size <= 0x4000_0000,
            yo + block_size <= 0x4000_0000,
            forall|a: int, b: int|
                old(framebuffer).pixel_in_bounds(a, b) ==> framebuffer.pixel(a, b) == (
                if xo <= a < xo + i && yo <= b < yo + block_size {
                    old(framebuffer).current_color
                } else {
                    old(framebuffer).pixel(a, b)
                }),
        decreases block_size - i,
    {
        let mut j: usize = 0;
        while j < block_size
            invariant
                old(framebuffer).wf(),
                framebuffer.wf(),
                framebuffer.width == old(framebuffer).width,
                framebuffer.height == old(framebuffer).height,
                framebuffer.background_color == old(framebuffer).background_color,
                framebuffer.current_color == old(framebuffer).current_color,
                i < block_size,
                j <= block_size,
                xo + block_size <= 0x4000_0000,
                yo + block_size <= 0x4000_0000,
                forall|a: int, b: int|
                    old(framebuffer).pixel_in_bounds(a, b) ==> framebuffer.pixel(a, b) == (
                    if (xo <= a < xo + i && yo <= b < yo + block_size) || (a == xo + i && yo <= b
                        < yo + j) {
                        old(framebuffer).current_color
                    } else {
                        old(framebuffer).pixel(a, b)
                    }),
            decreases block_size - j,
        {
            let ghost pre = *framebuffer;
            framebuffer.point((xo + i) as isize, (yo + j) as isize);
            proof {
                if pre.pixel_in_bounds((xo + i) as int, (yo + j) as int) {
                    lemma_point_effect(pre, *framebuffer, (xo + i) as int, (yo + j) as int);
                }
            }
            j += 1;
        }
        i += 1;
    }
}

} // verus!
