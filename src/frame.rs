//! Colors, the pixel framebuffer and the per-pixel depth buffer.

use vstd::prelude::*;

verus! {

#[derive(Clone, Copy, Debug, PartialEq, Eq, Structural)]
pub struct Color {
    pub r: u8,
    pub g: u8,
    pub b: u8,
    pub a: u8,
}

/// Scales one channel by `num / den`, rounding down.
pub open spec fn scale_channel(c: u8, num: int, den: int) -> u8 {
    ((c as int * num) / den) as u8
}

impl Color {
    pub fn new(r: u8, g: u8, b: u8, a: u8) -> (c: Color)
        ensures
            c == (Color { r, g, b, a }),
    {
        Color { r, g, b, a }
    }

    /// An opaque color from three channels.
    pub fn opaque(rgb: [u8; 3]) -> (c: Color)
        ensures
            c == (Color { r: rgb[0], g: rgb[1], b: rgb[2], a: 255 }),
    {
        Color { r: rgb[0], g: rgb[1], b: rgb[2], a: 255 }
    }

    /// An opaque color whose three channels are those of `rgb` times `num / den`.
    pub fn opaque_scaled(rgb: [u8; 3], num: u64, den: u64) -> (c: Color)
        requires
            0 < den,
            num <= den,
            den <= 1_000_000,
        ensures
            c == (Color {
                r: scale_channel(rgb[0], num as int, den as int),
                g: scale_channel(rgb[1], num as int, den as int),
                b: scale_channel(rgb[2], num as int, den as int),
                a: 255,
            }),
    {
        Color {
            r: scale_u8(rgb[0], num, den),
            g: scale_u8(rgb[1], num, den),
            b: scale_u8(rgb[2], num, den),
            a: 255,
        }
    }

    pub fn sky_blue() -> (c: Color)
        ensures
            c == (Color { r: 102, g: 191, b: 255, a: 255 }),
    {
        Color { r: 102, g: 191, b: 255, a: 255 }
    }

    pub fn white() -> (c: Color)
        ensures
            c == (Color { r: 255, g: 255, b: 255, a: 255 }),
    {
        Color { r: 255, g: 255, b: 255, a: 255 }
    }

    pub fn gold() -> (c: Color)
        ensures
            c == (Color { r: 255, g: 203, b: 0, a: 255 }),
    {
        Color { r: 255, g: 203, b: 0, a: 255 }
    }

    pub fn transparent() -> (c: Color)
        ensures
            c == (Color { r: 0, g: 0, b: 0, a: 0 }),
    {
        Color { r: 0, g: 0, b: 0, a: 0 }
    }
}

fn scale_u8(c: u8, num: u64, den: u64) -> (r: u8)
    requires
        0 < den,
        num <= den,
        den <= 1_000_000,
    ensures
        r == scale_channel(c, num as int, den as int),
{
    assert(c as u64 * num <= 255 * 1_000_000) by (nonlinear_arith)
        requires
            c <= 255,
            num <= 1_000_000,
    ;
    let p: u64 = c as u64 * num;
    assert(p <= 255 * den) by (nonlinear_arith)
        requires
            p == c as u64 * num,
            num <= den,
            c <= 255,
    ;
    assert(p / den <= 255) by (nonlinear_arith)
        requires
            p <= 255 * den,
            0 < den,
    ;
    (p / den) as u8
}

/// Largest framebuffer side, in pixels.
pub const MAX_SCREEN: usize = 16384;

/// A `width` by `height` grid of colors stored row after row, plus the color
/// that the next `set_pixel` writes.
pub struct Framebuffer {
    pub width: usize,
    pub height: usize,
    pub pixels: Vec<Color>,
    pub current_color: Color,
}

/// Index of pixel `(x, y)` in a row-major buffer of the given width.
pub open spec fn pixel_index(width: int, x: int, y: int) -> int {
    y * width + x
}

impl Framebuffer {
    pub open spec fn wf(&self) -> bool {
        self.pixels@.len() == self.width * self.height
    }

    pub fn new(width: usize, height: usize, background: Color) -> (fb: Framebuffer)
        requires
            width * height <= usize::MAX,
        ensures
            fb.wf(),
            fb.width == width,
            fb.height == height,
            fb.current_color == background,
            forall|i: int| 0 <= i < fb.pixels@.len() ==> fb.pixels@[i] == background,
    {
        let n: usize = width * height;
        let mut pixels: Vec<Color> = Vec::new();
        let mut i: usize = 0;
        while i < n
            invariant
                i <= n,
                pixels@.len() == i,
                forall|k: int| 0 <= k < i ==> pixels@[k] == background,
            decreases n - i,
        {
            pixels.push(background);
            i = i + 1;
        }
        Framebuffer { width, height, pixels, current_color: background }
    }

    /// Fills every pixel with `c`.
    pub fn clear(&mut self, c: Color)
        requires
            old(self).wf(),
        ensures
            final(self).wf(),
            final(self).width == old(self).width,
            final(self).height == old(self).height,
            final(self).current_color == old(self).current_color,
            forall|i: int| 0 <= i < final(self).pixels@.len() ==> final(self).pixels@[i] == c,
    {
        let n: usize = self.pixels.len();
        let mut i: usize = 0;
        while i < n
            invariant
                i <= n,
                n == self.pixels@.len(),
                self.wf(),
                self.width == old(self).width,
                self.height == old(self).height,
                self.current_color == old(self).current_color,
                forall|k: int| 0 <= k < i ==> self.pixels@[k] == c,
            decreases n - i,
        {
            self.pixels.set(i, c);
            i = i + 1;
        }
    }

    pub fn set_current_color(&mut self, c: Color)
        ensures
            *final(self) == (Framebuffer { current_color: c, ..*old(self) }),
    {
        self.current_color = c;
    }

    /// Paints `(x, y)` with the current color; a point outside the buffer is ignored.
    pub fn set_pixel(&mut self, x: usize, y: usize)
        requires
            old(self).wf(),
        ensures
            final(self).wf(),
            final(self).width == old(self).width,
            final(self).height == old(self).height,
            final(self).current_color == old(self).current_color,
            final(self).pixels@ == if x < old(self).width && y < old(self).height {
                old(self).pixels@.update(
                    pixel_index(old(self).width as int, x as int, y as int),
                    old(self).current_color,
                )
            } else {
                old(self).pixels@
            },
    {
        let n: usize = self.pixels.len();
        if x < self.width && y < self.height {
            proof {
                lemma_index_in_grid(self.width as int, self.height as int, x as int, y as int);
            }
            let i: usize = y * self.width + x;
            let c = self.current_color;
            self.pixels.set(i, c);
        }
    }
}

/// A pixel inside a `width` by `height` grid has an index below `width * height`.
pub proof fn lemma_index_in_grid(width: int, height: int, x: int, y: int)
    requires
        0 <= x < width,
        0 <= y < height,
    ensures
        0 <= pixel_index(width, x, y) < width * height,
        pixel_index(width, x, y) + (width - x) <= width * height,
{
    assert(y * width + width <= height * width) by (nonlinear_arith)
        requires
            0 <= y < height,
            0 < width,
    ;
    assert(0 <= y * width) by (nonlinear_arith)
        requires
            0 <= y,
            0 < width,
    ;
    assert(height * width == width * height) by (nonlinear_arith);
}

/// Row and column of index `i` in a `w` by `h` row-major grid.
pub proof fn lemma_row_col(i: int, w: int, h: int)
    requires
        0 <= i < w * h,
        0 < w,
    ensures
        0 <= i % w < w,
        0 <= i / w < h,
        i == (i / w) * w + i % w,
{
    vstd::arithmetic::div_mod::lemma_fundamental_div_mod(i, w);
    vstd::arithmetic::div_mod::lemma_mod_pos_bound(i, w);
    let q = i / w;
    let r = i % w;
    assert(0 <= q < h) by (nonlinear_arith)
        requires
            i == w * q + r,
            0 <= r < w,
            0 <= i < w * h,
    ;
    assert(w * q == q * w) by (nonlinear_arith);
}

/// The depth that an untouched pixel holds: nothing lies in front of it.
pub const DEPTH_INFINITE: u64 = 18446744073709551615;

/// One depth per pixel, row after row, in sub-units along the view direction.
pub struct DepthBuffer {
    pub width: usize,
    pub height: usize,
    pub depths: Vec<u64>,
}

impl DepthBuffer {
    pub open spec fn wf(&self) -> bool {
        self.depths@.len() == self.width * self.height
    }

    /// A buffer with every pixel at infinite depth.
    pub fn new(width: usize, height: usize) -> (z: DepthBuffer)
        requires
            width * height <= usize::MAX,
        ensures
            z.wf(),
            z.width == width,
            z.height == height,
            forall|i: int| 0 <= i < z.depths@.len() ==> z.depths@[i] == DEPTH_INFINITE,
    {
        let n: usize = width * height;
        let mut depths: Vec<u64> = Vec::new();
        let mut i: usize = 0;
        while i < n
            invariant
                i <= n,
                depths@.len() == i,
                forall|k: int| 0 <= k < i ==> depths@[k] == DEPTH_INFINITE,
            decreases n - i,
        {
            depths.push(DEPTH_INFINITE);
            i = i + 1;
        }
        DepthBuffer { width, height, depths }
    }
}

} // verus!
