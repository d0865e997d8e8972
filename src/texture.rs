//! RGB textures sampled by nearest neighbour.

use vstd::prelude::*;
use crate::caster::FIX;

verus! {

/// Largest texture side, in texels.
pub const MAX_TEXTURE: usize = 16384;

/// Side of the fallback chessboard texture.
pub const FALLBACK_SIZE: usize = 64;

/// Side of one chessboard square of the fallback texture.
pub const FALLBACK_SQUARE: usize = 8;

#[verifier::external_type_specification]
#[verifier::external_body]
pub struct ExDynamicImage(image::DynamicImage);

/// Relies on `DynamicImage::to_rgb8`, `ImageBuffer::dimensions` and
/// `ImageBuffer::into_raw`: the image converted to RGB, as its width, its
/// height and its rows of bytes, three per pixel (`to_rgb8` allocates exactly
/// that many through `ImageBuffer::new`).
#[verifier::external_body]
fn rgb_pixels(img: &image::DynamicImage) -> (r: (u32, u32, Vec<u8>))
    ensures
        r.2@.len() == 3 * r.0 * r.1,
{
    let rgb = img.to_rgb8();
    let (w, h) = rgb.dimensions();
    (w, h, rgb.into_raw())
}

/// Rows of RGB texels.
pub struct ImageTexture {
    pub data: Vec<Vec<[u8; 3]>>,
    pub width: usize,
    pub height: usize,
}

/// A texture coordinate (`FIX` stands for 1) clamped to `[0, FIX]`.
pub open spec fn clamp_unit(t: int) -> int {
    if t < 0 {
        0
    } else if t > FIX {
        FIX as int
    } else {
        t
    }
}

/// The texel that coordinate `t` picks along a side of `size` texels.
pub open spec fn texel_index(t: int, size: int) -> int {
    clamp_unit(t) * (size - 1) / (FIX as int)
}

/// The fallback texel at `(x, y)`: yellow and magenta squares.
pub open spec fn fallback_texel(x: int, y: int) -> [u8; 3] {
    if (x / FALLBACK_SQUARE as int + y / FALLBACK_SQUARE as int) % 2 == 0 {
        [255u8, 255u8, 0u8]
    } else {
        [255u8, 0u8, 255u8]
    }
}

/// The texel at `(x, y)` of row-major RGB bytes.
pub open spec fn rgb_texel(bytes: Seq<u8>, width: int, x: int, y: int) -> [u8; 3] {
    let i = 3 * (y * width + x);
    [bytes[i], bytes[i + 1], bytes[i + 2]]
}

proof fn lemma_texel_index_bounds(t: int, size: int)
    requires
        1 <= size,
    ensures
        0 <= texel_index(t, size) < size,
{
    let c = clamp_unit(t);
    assert(0 <= c * (size - 1) <= FIX * (size - 1)) by (nonlinear_arith)
        requires
            0 <= c <= FIX,
            1 <= size,
    ;
    assert(c * (size - 1) / (FIX as int) <= size - 1) by (nonlinear_arith)
        requires
            0 <= c * (size - 1) <= FIX * (size - 1),
            FIX == 1024,
    ;
}

impl ImageTexture {
    pub open spec fn wf(&self) -> bool {
        &&& 1 <= self.width <= MAX_TEXTURE
        &&& 1 <= self.height <= MAX_TEXTURE
        &&& self.data@.len() == self.height
        &&& forall|y: int| 0 <= y < self.height ==> #[trigger] self.data@[y]@.len() == self.width
    }

    pub open spec fn texel(&self, x: int, y: int) -> [u8; 3] {
        self.data@[y]@[x]
    }

    /// The texel nearest to `(tex_x, tex_y)`, each coordinate clamped to
    /// `[0, FIX]` first.
    pub fn get_color(&self, tex_x: i64, tex_y: i64) -> (r: [u8; 3])
        requires
            self.wf(),
        ensures
            r == self.texel(
                texel_index(tex_x as int, self.width as int),
                texel_index(tex_y as int, self.height as int),
            ),
    {
        proof {
            lemma_texel_index_bounds(tex_x as int, self.width as int);
            lemma_texel_index_bounds(tex_y as int, self.height as int);
        }
        let cx: u64 = if tex_x < 0 {
            0
        } else if tex_x > FIX {
            FIX as u64
        } else {
            tex_x as u64
        };
        let cy: u64 = if tex_y < 0 {
            0
        } else if tex_y > FIX {
            FIX as u64
        } else {
            tex_y as u64
        };
        assert(cx * (self.width - 1) <= 1024 * 16384) by (nonlinear_arith)
            requires
                cx <= 1024,
                1 <= self.width <= 16384,
        ;
        assert(cy * (self.height - 1) <= 1024 * 16384) by (nonlinear_arith)
            requires
                cy <= 1024,
                1 <= self.height <= 16384,
        ;
        let x: usize = (cx * (self.width as u64 - 1) / FIX as u64) as usize;
        let y: usize = (cy * (self.height as u64 - 1) / FIX as u64) as usize;
        self.data[y][x]
    }

    /// The magenta and yellow chessboard that stands in for a texture that
    /// could not be loaded.
    pub fn fallback() -> (t: ImageTexture)
        ensures
            t.wf(),
            t.width == FALLBACK_SIZE,
            t.height == FALLBACK_SIZE,
            forall|x: int, y: int|
                0 <= x < FALLBACK_SIZE && 0 <= y < FALLBACK_SIZE ==> #[trigger] t.texel(x, y)
                    == fallback_texel(x, y),
    {
        let mut data: Vec<Vec<[u8; 3]>> = Vec::new();
        let mut y: usize = 0;
        while y < FALLBACK_SIZE
            invariant
                y <= FALLBACK_SIZE,
                data@.len() == y,
                forall|j: int| 0 <= j < y ==> #[trigger] data@[j]@.len() == FALLBACK_SIZE,
                forall|i: int, j: int|
                    0 <= i < FALLBACK_SIZE && 0 <= j < y ==> data@[j]@[i] == fallback_texel(i, j),
            decreases FALLBACK_SIZE - y,
        {
            let mut row: Vec<[u8; 3]> = Vec::new();
            let mut x: usize = 0;
            while x < FALLBACK_SIZE
                invariant
                    x <= FALLBACK_SIZE,
                    y < FALLBACK_SIZE,
                    row@.len() == x,
                    forall|i: int| 0 <= i < x ==> row@[i] == fallback_texel(i, y as int),
                decreases FALLBACK_SIZE - x,
            {
                if (x / FALLBACK_SQUARE + y / FALLBACK_SQUARE) % 2 == 0 {
                    row.push([255u8, 255u8, 0u8]);
                } else {
                    row.push([255u8, 0u8, 255u8]);
                }
                x = x + 1;
            }
            data.push(row);
            y = y + 1;
        }
        ImageTexture { data, width: FALLBACK_SIZE, height: FALLBACK_SIZE }
    }

    /// A texture from a decoded image: its pixels as RGB, or the fallback
    /// where a side is zero or too large.
    pub fn from_image(img: &image::DynamicImage) -> (t: ImageTexture)
        ensures
            t.wf(),
    {
        let (w, h, bytes) = rgb_pixels(img);
        match Self::from_rgb(w as usize, h as usize, &bytes) {
            Some(t) => t,
            None => Self::fallback(),
        }
    }

    /// A texture from row-major RGB bytes, three per texel; `None` where a side
    /// is zero or too large, or the byte count does not match.
    pub fn from_rgb(width: usize, height: usize, bytes: &Vec<u8>) -> (r: Option<ImageTexture>)
        ensures
            r is Some <==> (1 <= width <= MAX_TEXTURE && 1 <= height <= MAX_TEXTURE && bytes@.len()
                == 3 * width * height),
            r matches Some(t) ==> {
                &&& t.wf()
                &&& t.width == width
                &&& t.height == height
                &&& forall|x: int, y: int|
                    0 <= x < width && 0 <= y < height ==> #[trigger] t.texel(x, y) == rgb_texel(
                        bytes@,
                        width as int,
                        x,
                        y,
                    )
            },
    {
        if width < 1 || width > MAX_TEXTURE || height < 1 || height > MAX_TEXTURE {
            return None;
        }
        assert(3 * width * height <= 3 * 16384 * 16384) by (nonlinear_arith)
            requires
                width <= 16384,
                height <= 16384,
        ;
        if bytes.len() != 3 * width * height {
            return None;
        }
        let mut data: Vec<Vec<[u8; 3]>> = Vec::new();
        let mut y: usize = 0;
        while y < height
            invariant
                1 <= width <= MAX_TEXTURE,
                1 <= height <= MAX_TEXTURE,
                bytes@.len() == 3 * width * height,
                y <= height,
                data@.len() == y,
                forall|j: int| 0 <= j < y ==> #[trigger] data@[j]@.len() == width,
                forall|i: int, j: int|
                    0 <= i < width && 0 <= j < y ==> data@[j]@[i] == rgb_texel(
                        bytes@,
                        width as int,
                        i,
                        j,
                    ),
            decreases height - y,
        {
            let mut row: Vec<[u8; 3]> = Vec::new();
            let mut x: usize = 0;
            while x < width
                invariant
                    1 <= width <= MAX_TEXTURE,
                    1 <= height <= MAX_TEXTURE,
                    bytes@.len() == 3 * width * height,
                    x <= width,
                    y < height,
                    row@.len() == x,
                    forall|i: int| 0 <= i < x ==> row@[i] == rgb_texel(bytes@, width as int, i, y as int),
                decreases width - x,
            {
                let n: usize = bytes.len();
                assert(3 * (y * width + x) + 2 < 3 * width * height) by (nonlinear_arith)
                    requires
                        x < width,
                        y < height,
                ;
                let i: usize = 3 * (y * width + x);
                row.push([bytes[i], bytes[i + 1], bytes[i + 2]]);
                x = x + 1;
            }
            data.push(row);
            y = y + 1;
        }
        Some(ImageTexture { data, width, height })
    }
}

/// The wall texture and the floor texture.
pub struct TextureManager {
    pub stadium_texture: ImageTexture,
    pub grass_texture: ImageTexture,
}

impl TextureManager {
    pub open spec fn wf(&self) -> bool {
        self.stadium_texture.wf() && self.grass_texture.wf()
    }

    pub fn new(stadium_texture: ImageTexture, grass_texture: ImageTexture) -> (r: TextureManager)
        ensures
            r == (TextureManager { stadium_texture, grass_texture }),
    {
        TextureManager { stadium_texture, grass_texture }
    }

    /// The texture of a wall cell: every wall kind uses the stadium texture.
    pub fn get_texture(&self, wall_char: char) -> (r: &ImageTexture)
        ensures
            *r == self.stadium_texture,
    {
        &self.stadium_texture
    }

    pub fn get_grass_texture(&self) -> (r: &ImageTexture)
        ensures
            *r == self.grass_texture,
    {
        &self.grass_texture
    }
}

} // verus!
