//! Animated billboard sprites: their frames, their lifecycle, and the
//! depth-tested drawing of one sprite into the frame.

use vstd::prelude::*;
use crate::caster::{FIX, POS_LIMIT, Ray};
use crate::frame::{Color, Framebuffer, DepthBuffer, MAX_SCREEN, lemma_index_in_grid, lemma_row_col};
use vstd::arithmetic::div_mod::lemma_fundamental_div_mod_converse;
use crate::maze::SpritePosition;

verus! {

/// Side of a sprite frame, in texels.
pub const SPRITE_SIZE: usize = 32;

/// Texels in one sprite frame.
pub const FRAME_TEXELS: usize = 1024;

/// Frames in the ball animation.
pub const BALL_FRAMES: usize = 6;

/// A texel is drawn only where its alpha exceeds this.
pub const ALPHA_THRESHOLD: u8 = 128;

/// How long one animation frame is shown, in milliseconds.
pub const FRAME_DURATION_MS: u64 = 1000;

/// Size factor of the ball, in percent.
pub const BALL_SCALE: u64 = 50;

pub struct Sprite {
    /// Position in sub-units.
    pub x: i64,
    pub y: i64,
    pub texture_frames: Vec<Vec<Color>>,
    /// Size factor, in percent.
    pub scale: u64,
    pub animation_frame: usize,
    /// Time spent on the current frame, in milliseconds.
    pub animation_timer: u64,
    pub collected: bool,
}

pub struct SpriteAnimation {
    /// In milliseconds.
    pub frame_duration: u64,
    pub loop_animation: bool,
}

pub struct SpriteManager {
    pub sprites: Vec<Sprite>,
    pub animation: SpriteAnimation,
    pub last_frame_time: u64,
}

impl Sprite {
    pub open spec fn wf(&self) -> bool {
        &&& -POS_LIMIT <= self.x <= POS_LIMIT
        &&& -POS_LIMIT <= self.y <= POS_LIMIT
        &&& 1 <= self.texture_frames@.len()
        &&& self.animation_frame < self.texture_frames@.len()
        &&& forall|k: int|
            0 <= k < self.texture_frames@.len() ==> #[trigger] self.texture_frames@[k]@.len()
                == FRAME_TEXELS
    }

    pub open spec fn frame(&self) -> Seq<Color> {
        self.texture_frames@[self.animation_frame as int]@
    }
}

/// The three colors of one ball frame.
pub struct BallPalette {
    pub body: Color,
    pub rim: Color,
    pub seam: Color,
}

/// `100 dx^2 + 225 dy^2` about the frame centre: at most 22500 inside the
/// ball's ellipse (half axes 15 and 10), at most 27000 inside its rim.
pub open spec fn ellipse_measure(x: int, y: int) -> int {
    100 * (x - 16) * (x - 16) + 225 * (y - 16) * (y - 16)
}

/// The seams: three horizontal lines and two short vertical ones.
pub open spec fn on_seam(x: int, y: int) -> bool {
    ||| (6 <= x < 26 && (y == 10 || y == 16 || y == 22))
    ||| (12 <= y < 21 && (x == 8 || x == 24))
}

pub open spec fn ball_texel(p: BallPalette, x: int, y: int) -> Color {
    if on_seam(x, y) {
        p.seam
    } else if ellipse_measure(x, y) <= 22500 {
        p.body
    } else if ellipse_measure(x, y) <= 27000 {
        p.rim
    } else {
        Color { r: 0, g: 0, b: 0, a: 0 }
    }
}

pub open spec fn normal_palette() -> BallPalette {
    BallPalette {
        body: Color { r: 100, g: 50, b: 15, a: 255 },
        rim: Color { r: 70, g: 35, b: 10, a: 255 },
        seam: Color { r: 200, g: 200, b: 200, a: 255 },
    }
}

pub open spec fn bright_palette() -> BallPalette {
    BallPalette {
        body: Color { r: 220, g: 140, b: 80, a: 255 },
        rim: Color { r: 180, g: 110, b: 60, a: 255 },
        seam: Color { r: 255, g: 255, b: 255, a: 255 },
    }
}

pub open spec fn dark_palette() -> BallPalette {
    BallPalette {
        body: Color { r: 60, g: 30, b: 8, a: 255 },
        rim: Color { r: 40, g: 20, b: 5, a: 255 },
        seam: Color { r: 120, g: 120, b: 120, a: 255 },
    }
}

/// The palette of frame `k` of the blink cycle:
/// normal, bright, normal, dark, normal, bright.
pub open spec fn ball_palette(k: int) -> BallPalette {
    if k == 1 || k == 5 {
        bright_palette()
    } else if k == 3 {
        dark_palette()
    } else {
        normal_palette()
    }
}

/// One ball frame, row after row.
pub fn build_ball_frame(p: &BallPalette) -> (r: Vec<Color>)
    ensures
        r@.len() == FRAME_TEXELS,
        forall|i: int| 0 <= i < FRAME_TEXELS ==> #[trigger] r@[i] == ball_texel(*p, i % 32, i / 32),
{
    let mut out: Vec<Color> = Vec::new();
    let mut y: i64 = 0;
    while y < 32
        invariant
            0 <= y <= 32,
            out@.len() == 32 * y,
            forall|i: int| 0 <= i < 32 * y ==> #[trigger] out@[i] == ball_texel(*p, i % 32, i / 32),
        decreases 32 - y,
    {
        let mut x: i64 = 0;
        while x < 32
            invariant
                0 <= y < 32,
                0 <= x <= 32,
                out@.len() == 32 * y + x,
                forall|i: int| 0 <= i < 32 * y + x ==> #[trigger] out@[i] == ball_texel(*p, i % 32, i / 32),
            decreases 32 - x,
        {
            assert(0 <= (x - 16) * (x - 16) <= 256) by (nonlinear_arith)
                requires
                    0 <= x < 32,
            ;
            assert(0 <= (y - 16) * (y - 16) <= 256) by (nonlinear_arith)
                requires
                    0 <= y < 32,
            ;
            let sx: i64 = (x - 16) * (x - 16);
            let sy: i64 = (y - 16) * (y - 16);
            let e: i64 = 100 * sx + 225 * sy;
            assert(e == 100 * (x - 16) * (x - 16) + 225 * (y - 16) * (y - 16)) by (nonlinear_arith)
                requires
                    e == 100 * sx + 225 * sy,
                    sx == (x - 16) * (x - 16),
                    sy == (y - 16) * (y - 16),
            ;
            let seam: bool = (6 <= x && x < 26 && (y == 10 || y == 16 || y == 22)) || (12 <= y && y < 21
                && (x == 8 || x == 24));
            let c: Color = if seam {
                p.seam
            } else if e <= 22500 {
                p.body
            } else if e <= 27000 {
                p.rim
            } else {
                Color::transparent()
            };
            proof {
                let i = 32 * y + x;
                assert(i % 32 == x && i / 32 == y) by (nonlinear_arith)
                    requires
                        i == 32 * y + x,
                        0 <= x < 32,
                        0 <= y,
                ;
            }
            out.push(c);
            x = x + 1;
        }
        y = y + 1;
    }
    out
}

/// Squared distance between two points.
pub open spec fn dist_squared(ax: int, ay: int, bx: int, by: int) -> int {
    (ax - bx) * (ax - bx) + (ay - by) * (ay - by)
}

/// One animation tick of a sprite: the timer grows by `delta`; once it reaches
/// `duration` it restarts and the next frame, cyclically, is shown. A collected
/// sprite does not change.
pub open spec fn ticked(s: Sprite, delta: int, duration: int) -> Sprite {
    if s.collected {
        s
    } else {
        let t = s.animation_timer + delta;
        let t = if t > u64::MAX {
            u64::MAX as int
        } else {
            t
        };
        if t >= duration {
            Sprite {
                animation_timer: 0,
                animation_frame: ((s.animation_frame + 1) % s.texture_frames@.len() as int) as usize,
                ..s
            }
        } else {
            Sprite { animation_timer: t as u64, ..s }
        }
    }
}

/// The sprite can be collected from `(px, py)`: it is not collected yet and
/// lies closer than `reach`.
pub open spec fn collectable(s: Sprite, px: int, py: int, reach: int) -> bool {
    !s.collected && dist_squared(s.x as int, s.y as int, px, py) < reach * reach
}

/// One collision test from `(px, py)` took the sprites from `before` to
/// `after` and answered `r`: the first collectable sprite is marked collected
/// and its index returned; where none is collectable nothing changes.
pub open spec fn collision_step(
    before: Seq<Sprite>,
    px: int,
    py: int,
    reach: int,
    r: Option<usize>,
    after: Seq<Sprite>,
) -> bool {
    match r {
        None => {
            &&& after == before
            &&& forall|j: int| 0 <= j < before.len() ==> !collectable(#[trigger] before[j], px, py, reach)
        },
        Some(i) => {
            &&& i < before.len()
            &&& collectable(before[i as int], px, py, reach)
            &&& forall|j: int| 0 <= j < i ==> !collectable(#[trigger] before[j], px, py, reach)
            &&& after == before.update(i as int, Sprite { collected: true, ..before[i as int] })
        },
    }
}

/// Once a collision test has collected sprite `i`, a later test, from any
/// position and with any reach, never returns `i` again, and the sprite stays
/// collected.
pub proof fn lemma_collected_stays_collected(
    s0: Seq<Sprite>,
    p1x: int,
    p1y: int,
    reach1: int,
    i: usize,
    s1: Seq<Sprite>,
    p2x: int,
    p2y: int,
    reach2: int,
    r2: Option<usize>,
    s2: Seq<Sprite>,
)
    requires
        collision_step(s0, p1x, p1y, reach1, Some(i), s1),
        collision_step(s1, p2x, p2y, reach2, r2, s2),
    ensures
        r2 != Some(i),
        s1[i as int].collected,
        s2[i as int].collected,
{
}

/// Number of collected sprites among the first `n`.
pub open spec fn collected_count(s: Seq<Sprite>, n: int) -> nat
    decreases n,
{
    if n <= 0 {
        0
    } else {
        collected_count(s, n - 1) + if s[n - 1].collected {
            1nat
        } else {
            0nat
        }
    }
}

proof fn lemma_collected_count_bound(s: Seq<Sprite>, n: int)
    requires
        0 <= n,
    ensures
        collected_count(s, n) <= n,
    decreases n,
{
    if n > 0 {
        lemma_collected_count_bound(s, n - 1);
    }
}

impl SpriteManager {
    pub open spec fn wf(&self) -> bool {
        forall|i: int| 0 <= i < self.sprites@.len() ==> #[trigger] self.sprites@[i].wf()
    }

    pub fn new() -> (r: SpriteManager)
        ensures
            r.wf(),
            r.sprites@.len() == 0,
            r.animation.frame_duration == FRAME_DURATION_MS,
            r.animation.loop_animation,
    {
        SpriteManager {
            sprites: Vec::new(),
            animation: SpriteAnimation { frame_duration: FRAME_DURATION_MS, loop_animation: true },
            last_frame_time: 0,
        }
    }

    /// The six frames of the blinking ball.
    pub fn create_football_frames() -> (r: Vec<Vec<Color>>)
        ensures
            r@.len() == BALL_FRAMES,
            forall|k: int| 0 <= k < BALL_FRAMES ==> #[trigger] r@[k]@.len() == FRAME_TEXELS,
            forall|k: int, i: int|
                0 <= k < BALL_FRAMES && 0 <= i < FRAME_TEXELS ==> #[trigger] r@[k]@[i] == ball_texel(
                    ball_palette(k),
                    i % 32,
                    i / 32,
                ),
    {
        let normal = BallPalette {
            body: Color::new(100, 50, 15, 255),
            rim: Color::new(70, 35, 10, 255),
            seam: Color::new(200, 200, 200, 255),
        };
        let bright = BallPalette {
            body: Color::new(220, 140, 80, 255),
            rim: Color::new(180, 110, 60, 255),
            seam: Color::white(),
        };
        let dark = BallPalette {
            body: Color::new(60, 30, 8, 255),
            rim: Color::new(40, 20, 5, 255),
            seam: Color::new(120, 120, 120, 255),
        };
        let mut frames: Vec<Vec<Color>> = Vec::new();
        frames.push(build_ball_frame(&normal));
        frames.push(build_ball_frame(&bright));
        frames.push(build_ball_frame(&normal));
        frames.push(build_ball_frame(&dark));
        frames.push(build_ball_frame(&normal));
        frames.push(build_ball_frame(&bright));
        frames
    }

    /// Replaces the sprites by one uncollected ball at each position, in order.
    pub fn initialize_from_positions(&mut self, positions: &Vec<SpritePosition>)
        requires
            forall|i: int|
                0 <= i < positions@.len() ==> -POS_LIMIT <= #[trigger] positions@[i].x <= POS_LIMIT
                    && -POS_LIMIT <= positions@[i].y <= POS_LIMIT,
        ensures
            final(self).wf(),
            final(self).animation == old(self).animation,
            final(self).sprites@.len() == positions@.len(),
            forall|i: int|
                0 <= i < positions@.len() ==> {
                    let s = #[trigger] final(self).sprites@[i];
                    &&& s.x == positions@[i].x
                    &&& s.y == positions@[i].y
                    &&& s.scale == BALL_SCALE
                    &&& s.animation_frame == 0
                    &&& s.animation_timer == 0
                    &&& !s.collected
                    &&& s.texture_frames@.len() == BALL_FRAMES
                    &&& forall|k: int, t: int|
                        0 <= k < BALL_FRAMES && 0 <= t < FRAME_TEXELS ==> #[trigger] s.texture_frames@[k]@[t]
                            == ball_texel(ball_palette(k), t % 32, t / 32)
                },
    {
        self.sprites.clear();
        let mut i: usize = 0;
        while i < positions.len()
            invariant
                i <= positions@.len(),
                self.animation == old(self).animation,
                self.sprites@.len() == i,
                forall|j: int|
                    0 <= j < positions@.len() ==> -POS_LIMIT <= #[trigger] positions@[j].x <= POS_LIMIT
                        && -POS_LIMIT <= positions@[j].y <= POS_LIMIT,
                forall|j: int| 0 <= j < i ==> #[trigger] self.sprites@[j].wf(),
                forall|j: int|
                    0 <= j < i ==> {
                        let s = #[trigger] self.sprites@[j];
                        &&& s.x == positions@[j].x
                        &&& s.y == positions@[j].y
                        &&& s.scale == BALL_SCALE
                        &&& s.animation_frame == 0
                        &&& s.animation_timer == 0
                        &&& !s.collected
                        &&& s.texture_frames@.len() == BALL_FRAMES
                        &&& forall|k: int, t: int|
                            0 <= k < BALL_FRAMES && 0 <= t < FRAME_TEXELS
                                ==> #[trigger] s.texture_frames@[k]@[t] == ball_texel(
                                ball_palette(k),
                                t % 32,
                                t / 32,
                            )
                    },
            decreases positions@.len() - i,
        {
            let p = positions[i];
            let sprite = Sprite {
                x: p.x,
                y: p.y,
                texture_frames: Self::create_football_frames(),
                scale: BALL_SCALE,
                animation_frame: 0,
                animation_timer: 0,
                collected: false,
            };
            self.sprites.push(sprite);
            i = i + 1;
        }
    }

    /// Advances the animation of every uncollected sprite by `delta_ms`
    /// milliseconds.
    pub fn update(&mut self, delta_ms: u64)
        requires
            old(self).wf(),
        ensures
            final(self).wf(),
            final(self).animation == old(self).animation,
            final(self).sprites@.len() == old(self).sprites@.len(),
            forall|i: int|
                0 <= i < old(self).sprites@.len() ==> #[trigger] final(self).sprites@[i] == ticked(
                    old(self).sprites@[i],
                    delta_ms as int,
                    old(self).animation.frame_duration as int,
                ),
    {
        let n: usize = self.sprites.len();
        let duration: u64 = self.animation.frame_duration;
        let mut i: usize = 0;
        while i < n
            invariant
                n == old(self).sprites@.len(),
                self.sprites@.len() == n,
                duration == old(self).animation.frame_duration,
                self.animation == old(self).animation,
                i <= n,
                forall|j: int| 0 <= j < n ==> #[trigger] old(self).sprites@[j].wf(),
                forall|j: int| 0 <= j < i ==> #[trigger] self.sprites@[j] == ticked(
                    old(self).sprites@[j],
                    delta_ms as int,
                    duration as int,
                ),
                forall|j: int| i <= j < n ==> #[trigger] self.sprites@[j] == old(self).sprites@[j],
            decreases n - i,
        {
            proof {
                assert(old(self).sprites@[i as int].wf());
            }
            if !self.sprites[i].collected {
                let t: u64 = self.sprites[i].animation_timer.saturating_add(delta_ms);
                if t >= duration {
                    let len: usize = self.sprites[i].texture_frames.len();
                    let next: usize = (self.sprites[i].animation_frame + 1) % len;
                    self.sprites[i].animation_timer = 0;
                    self.sprites[i].animation_frame = next;
                } else {
                    self.sprites[i].animation_timer = t;
                }
            }
            proof {
                let s = old(self).sprites@[i as int];
                assert(self.sprites@[i as int] == ticked(s, delta_ms as int, duration as int));
            }
            i = i + 1;
        }
        proof {
            assert forall|j: int| 0 <= j < n implies #[trigger] self.sprites@[j].wf() by {
                assert(old(self).sprites@[j].wf());
                assert(self.sprites@[j] == ticked(old(self).sprites@[j], delta_ms as int, duration as int));
            }
        }
    }

    /// Marks as collected the first uncollected sprite closer than `reach`
    /// (sub-units) to `(px, py)`, and returns its index; `None` where there is
    /// none.
    pub fn check_collision(&mut self, px: i64, py: i64, reach: u64) -> (r: Option<usize>)
        requires
            old(self).wf(),
            -POS_LIMIT <= px <= POS_LIMIT,
            -POS_LIMIT <= py <= POS_LIMIT,
            reach <= POS_LIMIT,
        ensures
            final(self).wf(),
            final(self).animation == old(self).animation,
            collision_step(old(self).sprites@, px as int, py as int, reach as int, r, final(self).sprites@),
    {
        let n: usize = self.sprites.len();
        let mut i: usize = 0;
        assert(reach * reach <= POS_LIMIT * POS_LIMIT) by (nonlinear_arith)
            requires
                reach <= POS_LIMIT,
        ;
        let reach_sq: i128 = reach as i128 * reach as i128;
        while i < n
            invariant
                n == self.sprites@.len(),
                *self == *old(self),
                old(self).wf(),
                i <= n,
                -POS_LIMIT <= px <= POS_LIMIT,
                -POS_LIMIT <= py <= POS_LIMIT,
                reach_sq == reach * reach,
                forall|j: int|
                    0 <= j < i ==> !collectable(#[trigger] old(self).sprites@[j], px as int, py as int, reach as int),
            decreases n - i,
        {
            if !self.sprites[i].collected {
                let sx: i64 = self.sprites[i].x;
                let sy: i64 = self.sprites[i].y;
                proof {
                    assert(old(self).sprites@[i as int].wf());
                }
                let dx: i128 = sx as i128 - px as i128;
                let dy: i128 = sy as i128 - py as i128;
                assert(0 <= dx * dx <= 4 * POS_LIMIT * POS_LIMIT) by (nonlinear_arith)
                    requires
                        -2 * POS_LIMIT <= dx <= 2 * POS_LIMIT,
                ;
                assert(0 <= dy * dy <= 4 * POS_LIMIT * POS_LIMIT) by (nonlinear_arith)
                    requires
                        -2 * POS_LIMIT <= dy <= 2 * POS_LIMIT,
                ;
                let d2: i128 = dx * dx + dy * dy;
                if d2 < reach_sq {
                    self.sprites[i].collected = true;
                    proof {
                        assert(self.sprites@ =~= old(self).sprites@.update(
                            i as int,
                            Sprite { collected: true, ..old(self).sprites@[i as int] },
                        ));
                        assert forall|j: int| 0 <= j < n implies #[trigger] self.sprites@[j].wf() by {
                            assert(old(self).sprites@[j].wf());
                        }
                    }
                    return Some(i);
                }
            }
            i = i + 1;
        }
        None
    }

    pub fn get_collected_count(&self) -> (r: usize)
        ensures
            r == collected_count(self.sprites@, self.sprites@.len() as int),
    {
        let mut c: usize = 0;
        let mut i: usize = 0;
        while i < self.sprites.len()
            invariant
                i <= self.sprites@.len(),
                c == collected_count(self.sprites@, i as int),
            decreases self.sprites@.len() - i,
        {
            proof {
                lemma_collected_count_bound(self.sprites@, i as int);
            }
            if self.sprites[i].collected {
                c = c + 1;
            }
            i = i + 1;
        }
        c
    }

    pub fn get_total_count(&self) -> (r: usize)
        ensures
            r == self.sprites@.len(),
    {
        self.sprites.len()
    }
}

/// Largest magnitude of a quad coordinate.
pub const QUAD_LIMIT: i64 = 1099511627776;

/// The screen rectangle of a sprite: columns `start_x..end_x`, rows
/// `start_y..end_y`, at camera-space depth `depth` (sub-units).
#[derive(Clone, Copy, Debug, PartialEq, Eq, Structural)]
pub struct SpriteQuad {
    pub start_x: i64,
    pub end_x: i64,
    pub start_y: i64,
    pub end_y: i64,
    pub depth: u64,
}

impl SpriteQuad {
    pub open spec fn wf(&self) -> bool {
        &&& -QUAD_LIMIT <= self.start_x <= QUAD_LIMIT
        &&& -QUAD_LIMIT <= self.end_x <= QUAD_LIMIT
        &&& -QUAD_LIMIT <= self.start_y <= QUAD_LIMIT
        &&& -QUAD_LIMIT <= self.end_y <= QUAD_LIMIT
    }
}

pub open spec fn quad_covers(q: SpriteQuad, x: int, y: int) -> bool {
    q.start_x <= x < q.end_x && q.start_y <= y < q.end_y
}

/// The frame texel shown at screen pixel `(x, y)` of the quad: the quad's
/// extent is stretched over the 32 by 32 frame.
pub open spec fn quad_texel(q: SpriteQuad, x: int, y: int) -> int {
    let tx = (x - q.start_x) * 32 / (q.end_x - q.start_x);
    let ty = (y - q.start_y) * 32 / (q.end_y - q.start_y);
    ty * 32 + tx
}

/// The sprite shows at `(x, y)`: the quad covers it, the sprite is nearer than
/// the stored depth `z`, and the texel there is visible.
pub open spec fn sprite_shows(q: SpriteQuad, frame: Seq<Color>, z: u64, x: int, y: int) -> bool {
    &&& quad_covers(q, x, y)
    &&& q.depth < z
    &&& frame[quad_texel(q, x, y)].a > ALPHA_THRESHOLD
}

/// The color of pixel `i` of a row-major buffer of width `w` once the quad is
/// drawn over `pixels`.
pub open spec fn painted_pixel(
    pixels: Seq<Color>,
    depths: Seq<u64>,
    w: int,
    q: SpriteQuad,
    frame: Seq<Color>,
    i: int,
) -> Color {
    if sprite_shows(q, frame, depths[i], i % w, i / w) {
        frame[quad_texel(q, i % w, i / w)]
    } else {
        pixels[i]
    }
}

/// The whole buffer once the quad is drawn over it.
pub open spec fn sprite_paint(
    pixels: Seq<Color>,
    depths: Seq<u64>,
    w: int,
    q: SpriteQuad,
    frame: Seq<Color>,
) -> Seq<Color> {
    Seq::new(pixels.len(), |i: int| painted_pixel(pixels, depths, w, q, frame, i))
}

/// Pixel `i` comes before pixel `(x, y)` in row-major order.
pub open spec fn before(i: int, w: int, x: int, y: int) -> bool {
    i / w < y || (i / w == y && i % w < x)
}

proof fn lemma_quad_texel_bounds(q: SpriteQuad, x: int, y: int)
    requires
        quad_covers(q, x, y),
    ensures
        0 <= quad_texel(q, x, y) < FRAME_TEXELS,
        0 <= (x - q.start_x) * 32 / (q.end_x - q.start_x) < 32,
        0 <= (y - q.start_y) * 32 / (q.end_y - q.start_y) < 32,
{
    let dx = x - q.start_x;
    let wx = q.end_x - q.start_x;
    let dy = y - q.start_y;
    let wy = q.end_y - q.start_y;
    assert(0 <= dx * 32 / wx < 32) by (nonlinear_arith)
        requires
            0 <= dx < wx,
    ;
    assert(0 <= dy * 32 / wy < 32) by (nonlinear_arith)
        requires
            0 <= dy < wy,
    ;
}

/// Draws the frame over the quad, pixel by pixel, where the sprite is nearer
/// than the depth buffer and the texel is visible. The depth buffer is only read.
pub fn draw_sprite_quad(fb: &mut Framebuffer, z: &DepthBuffer, frame: &Vec<Color>, q: SpriteQuad)
    requires
        old(fb).wf(),
        z.wf(),
        z.width == old(fb).width,
        z.height == old(fb).height,
        1 <= old(fb).width <= MAX_SCREEN,
        old(fb).height <= MAX_SCREEN,
        frame@.len() == FRAME_TEXELS,
        q.wf(),
    ensures
        final(fb).wf(),
        final(fb).width == old(fb).width,
        final(fb).height == old(fb).height,
        final(fb).current_color == old(fb).current_color,
        final(fb).pixels@ == sprite_paint(old(fb).pixels@, z.depths@, old(fb).width as int, q, frame@),
{
    let ghost w0 = fb.width as int;
    let ghost old_px = fb.pixels@;
    let ghost target = sprite_paint(old_px, z.depths@, w0, q, frame@);
    let w: i64 = fb.width as i64;
    let h: i64 = fb.height as i64;
    let x0: i64 = if q.start_x > 0 { q.start_x } else { 0 };
    let x1: i64 = if q.end_x < w { q.end_x } else { w };
    let y0: i64 = if q.start_y > 0 { q.start_y } else { 0 };
    let y1: i64 = if q.end_y < h { q.end_y } else { h };
    let mut y: i64 = y0;
    proof {
        assert forall|i: int| 0 <= i < old_px.len() && before(i, w0, x0 as int, y0 as int) implies
            #[trigger] target[i] == old_px[i] by {
            lemma_row_col(i, w0, h as int);
            assert(i / w0 < y0 || i % w0 < x0);
        }
    }
    while y < y1
        invariant
            fb.wf(),
            fb.width == w0,
            fb.width == w,
            fb.height == h,
            fb.current_color == old(fb).current_color,
            z.wf(),
            z.width == w,
            z.height == h,
            1 <= w <= MAX_SCREEN,
            0 <= h <= MAX_SCREEN,
            frame@.len() == FRAME_TEXELS,
            q.wf(),
            0 <= x0,
            x1 <= w,
            0 <= y0,
            y1 <= h,
            x0 >= q.start_x,
            y0 >= q.start_y,
            x1 <= q.end_x,
            y1 <= q.end_y,
            x0 == q.start_x || x0 == 0,
            x1 == q.end_x || x1 == w,
            y1 == q.end_y || y1 == h,
            y0 <= y,
            target == sprite_paint(old_px, z.depths@, w0, q, frame@),
            old_px.len() == fb.pixels@.len(),
            forall|i: int|
                0 <= i < old_px.len() ==> #[trigger] fb.pixels@[i] == if before(i, w0, x0 as int, y as int) {
                    target[i]
                } else {
                    old_px[i]
                },
        decreases y1 - y,
    {
        let mut x: i64 = x0;
        while x < x1
            invariant
                fb.wf(),
                fb.width == w0,
                fb.width == w,
                fb.height == h,
                fb.current_color == old(fb).current_color,
                z.wf(),
                z.width == w,
                z.height == h,
                1 <= w <= MAX_SCREEN,
                0 <= h <= MAX_SCREEN,
                frame@.len() == FRAME_TEXELS,
                q.wf(),
                0 <= x0,
                x1 <= w,
                0 <= y0 <= y < y1,
                y1 <= h,
                x0 >= q.start_x,
                y0 >= q.start_y,
                x1 <= q.end_x,
                y1 <= q.end_y,
                x0 == q.start_x || x0 == 0,
                x1 == q.end_x || x1 == w,
                y1 == q.end_y || y1 == h,
                x0 <= x,
                target == sprite_paint(old_px, z.depths@, w0, q, frame@),
                old_px.len() == fb.pixels@.len(),
                forall|i: int|
                    0 <= i < old_px.len() ==> #[trigger] fb.pixels@[i] == if before(
                        i,
                        w0,
                        x as int,
                        y as int,
                    ) {
                        target[i]
                    } else {
                        old_px[i]
                    },
            decreases x1 - x,
        {
            proof {
                lemma_index_in_grid(w as int, h as int, x as int, y as int);
                lemma_fundamental_div_mod_converse(y * w + x, w as int, y as int, x as int);
                lemma_quad_texel_bounds(q, x as int, y as int);
            }
            assert(0 <= y * w <= MAX_SCREEN * MAX_SCREEN) by (nonlinear_arith)
                requires
                    0 <= y <= MAX_SCREEN,
                    0 <= w <= MAX_SCREEN,
            ;
            let idx: usize = (y * w + x) as usize;
            let ghost gi = idx as int;
            if q.depth < z.depths[idx] {
                let tx: i64 = (x - q.start_x) * 32 / (q.end_x - q.start_x);
                let ty: i64 = (y - q.start_y) * 32 / (q.end_y - q.start_y);
                let t: Color = frame[(ty * 32 + tx) as usize];
                if t.a > ALPHA_THRESHOLD {
                    fb.pixels.set(idx, t);
                }
            }
            proof {
                assert(fb.pixels@[gi] == target[gi]);
                assert forall|i: int| 0 <= i < old_px.len() implies #[trigger] fb.pixels@[i] == if before(
                    i,
                    w0,
                    x + 1,
                    y as int,
                ) {
                    target[i]
                } else {
                    old_px[i]
                } by {
                    if i != gi {
                        lemma_row_col(i, w0, h as int);
                        assert(before(i, w0, x + 1, y as int) == before(i, w0, x as int, y as int));
                    }
                }
            }
            x = x + 1;
        }
        proof {
            assert forall|i: int| 0 <= i < old_px.len() implies #[trigger] fb.pixels@[i] == if before(
                i,
                w0,
                x0 as int,
                y + 1,
            ) {
                target[i]
            } else {
                old_px[i]
            } by {
                lemma_row_col(i, w0, h as int);
                if before(i, w0, x0 as int, y + 1) != before(i, w0, x as int, y as int) {
                    assert(i % w0 >= x1 || i % w0 < x0);
                    assert(target[i] == old_px[i]);
                }
            }
        }
        y = y + 1;
    }
    proof {
        assert forall|i: int| 0 <= i < old_px.len() implies #[trigger] fb.pixels@[i] == target[i] by {
            lemma_row_col(i, w0, h as int);
            if !before(i, w0, x0 as int, y as int) {
                assert(i / w0 >= y1);
                assert(target[i] == old_px[i]);
            }
        }
        assert(fb.pixels@ =~= target);
    }
}

/// Drawing a sprite never changes a pixel where the stored depth is not
/// greater than the sprite's depth; where the sprite is strictly nearer and its
/// texel is visible, the pixel takes the texel.
pub proof fn lemma_depth_occlusion(
    pixels: Seq<Color>,
    depths: Seq<u64>,
    w: int,
    q: SpriteQuad,
    frame: Seq<Color>,
    i: int,
)
    requires
        0 <= i < pixels.len(),
    ensures
        depths[i] <= q.depth ==> sprite_paint(pixels, depths, w, q, frame)[i] == pixels[i],
        (q.depth < depths[i] && quad_covers(q, i % w, i / w) && frame[quad_texel(q, i % w, i / w)].a
            > ALPHA_THRESHOLD) ==> sprite_paint(pixels, depths, w, q, frame)[i] == frame[quad_texel(
            q,
            i % w,
            i / w,
        )],
{
}

/// Sprites nearer than this many sub-units are not drawn.
pub const NEAR_LIMIT: i64 = 20480;

/// Sprites farther than this many sub-units are not drawn.
pub const FAR_LIMIT: i64 = 819200;

/// Largest magnitude of a sprite's screen column.
pub const SCREEN_X_LIMIT: i64 = 549755813888;

pub open spec fn is_floor_sqrt(n: int, r: int) -> bool {
    0 <= r && r * r <= n < (r + 1) * (r + 1)
}

/// The integer square root of `n`, rounded down.
pub open spec fn floor_sqrt(n: int) -> int {
    choose|r: int| is_floor_sqrt(n, r)
}

proof fn lemma_floor_sqrt_unique(n: int, r: int)
    requires
        is_floor_sqrt(n, r),
    ensures
        floor_sqrt(n) == r,
{
    let s = floor_sqrt(n);
    assert(is_floor_sqrt(n, s));
    if s < r {
        assert((s + 1) * (s + 1) <= r * r) by (nonlinear_arith)
            requires
                0 <= s < r,
        ;
    } else if r < s {
        assert((r + 1) * (r + 1) <= s * s) by (nonlinear_arith)
            requires
                0 <= r < s,
        ;
    }
}

/// The integer square root of `n`, rounded down.
pub fn isqrt(n: u64) -> (r: u64)
    requires
        n <= 1099511627776,
    ensures
        is_floor_sqrt(n as int, r as int),
        r == floor_sqrt(n as int),
{
    let mut lo: u64 = 0;
    let mut hi: u64 = 1048577;
    while hi - lo > 1
        invariant
            lo < hi <= 1048577,
            lo * lo <= n,
            n < hi * hi,
        decreases hi - lo,
    {
        let mid: u64 = lo + (hi - lo) / 2;
        assert(mid * mid <= 1048577 * 1048577) by (nonlinear_arith)
            requires
                mid < 1048577,
        ;
        if mid * mid <= n {
            lo = mid;
        } else {
            hi = mid;
        }
    }
    proof {
        lemma_floor_sqrt_unique(n as int, lo as int);
    }
    lo
}

/// The screen rectangle of a sprite at `(sx, sy)` seen from `(cx, cy)` facing
/// `dir`, centred on column `screen_x` of a `w` by `h` screen: none where the
/// sprite is too near, too far, not in front, or entirely off screen. The size
/// shrinks with the true distance; the depth is the distance along `dir`.
pub open spec fn sprite_quad(
    cx: int,
    cy: int,
    dir: Ray,
    sx: int,
    sy: int,
    screen_x: int,
    w: int,
    h: int,
) -> Option<SpriteQuad> {
    let dx = sx - cx;
    let dy = sy - cy;
    let d2 = dx * dx + dy * dy;
    let forward = dx * dir.dx + dy * dir.dy;
    if d2 < NEAR_LIMIT * NEAR_LIMIT || d2 > FAR_LIMIT * FAR_LIMIT || forward <= 0 {
        None
    } else {
        let dist = floor_sqrt(d2);
        let half_h = h * 12 * FIX / dist;
        let half_w = h * 48 * FIX / (5 * dist);
        let hh = h / 2;
        let start_x = screen_x - half_w;
        let end_x = screen_x + half_w;
        let start_y = if hh - half_h > 0 {
            hh - half_h
        } else {
            0
        };
        let end_y = if hh + half_h < h {
            hh + half_h
        } else {
            h
        };
        if start_x >= w || end_x < 0 || start_y >= h || end_y < 0 {
            None
        } else {
            Some(
                SpriteQuad {
                    start_x: start_x as i64,
                    end_x: end_x as i64,
                    start_y: start_y as i64,
                    end_y: end_y as i64,
                    depth: (forward / FIX as int) as u64,
                },
            )
        }
    }
}

/// Projects a sprite onto the screen (see `sprite_quad`).
pub fn project_sprite(
    cx: i64,
    cy: i64,
    dir: Ray,
    sx: i64,
    sy: i64,
    screen_x: i64,
    width: usize,
    height: usize,
) -> (r: Option<SpriteQuad>)
    requires
        -POS_LIMIT <= cx <= POS_LIMIT,
        -POS_LIMIT <= cy <= POS_LIMIT,
        -POS_LIMIT <= sx <= POS_LIMIT,
        -POS_LIMIT <= sy <= POS_LIMIT,
        dir.wf(),
        -SCREEN_X_LIMIT <= screen_x <= SCREEN_X_LIMIT,
        width <= MAX_SCREEN,
        height <= MAX_SCREEN,
    ensures
        r == sprite_quad(cx as int, cy as int, dir, sx as int, sy as int, screen_x as int, width as int, height as int),
        r matches Some(q) ==> q.wf(),
{
    let dx: i128 = sx as i128 - cx as i128;
    let dy: i128 = sy as i128 - cy as i128;
    assert(0 <= dx * dx <= 4 * POS_LIMIT * POS_LIMIT) by (nonlinear_arith)
        requires
            -2 * POS_LIMIT <= dx <= 2 * POS_LIMIT,
    ;
    assert(0 <= dy * dy <= 4 * POS_LIMIT * POS_LIMIT) by (nonlinear_arith)
        requires
            -2 * POS_LIMIT <= dy <= 2 * POS_LIMIT,
    ;
    assert(-2 * POS_LIMIT * FIX <= dx * dir.dx <= 2 * POS_LIMIT * FIX) by (nonlinear_arith)
        requires
            -2 * POS_LIMIT <= dx <= 2 * POS_LIMIT,
            -FIX <= dir.dx <= FIX,
    ;
    assert(-2 * POS_LIMIT * FIX <= dy * dir.dy <= 2 * POS_LIMIT * FIX) by (nonlinear_arith)
        requires
            -2 * POS_LIMIT <= dy <= 2 * POS_LIMIT,
            -FIX <= dir.dy <= FIX,
    ;
    let d2: i128 = dx * dx + dy * dy;
    let forward: i128 = dx * dir.dx as i128 + dy * dir.dy as i128;
    let near: i128 = NEAR_LIMIT as i128 * NEAR_LIMIT as i128;
    let far: i128 = FAR_LIMIT as i128 * FAR_LIMIT as i128;
    if d2 < near || d2 > far || forward <= 0 {
        return None;
    }
    let dist: u64 = isqrt(d2 as u64);
    assert(dist >= NEAR_LIMIT) by (nonlinear_arith)
        requires
            dist * dist <= d2 < (dist + 1) * (dist + 1),
            d2 >= NEAR_LIMIT * NEAR_LIMIT,
            0 <= dist,
    ;
    assert(dist <= FAR_LIMIT) by (nonlinear_arith)
        requires
            dist * dist <= d2,
            d2 <= FAR_LIMIT * FAR_LIMIT,
            0 <= dist,
    ;
    let h: i64 = height as i64;
    let w: i64 = width as i64;
    let di: i64 = dist as i64;
    assert(0 <= h * 12 * FIX / (di as int) <= MAX_SCREEN * 12 * FIX) by (nonlinear_arith)
        requires
            0 <= h <= MAX_SCREEN,
            di >= 1,
    ;
    assert(0 <= h * 48 * FIX / (5 * di as int) <= MAX_SCREEN * 48 * FIX) by (nonlinear_arith)
        requires
            0 <= h <= MAX_SCREEN,
            di >= 1,
    ;
    let half_h: i64 = h * 12 * FIX / di;
    let half_w: i64 = h * 48 * FIX / (5 * di);
    let hh: i64 = h / 2;
    let start_x: i64 = screen_x - half_w;
    let end_x: i64 = screen_x + half_w;
    let start_y: i64 = if hh - half_h > 0 {
        hh - half_h
    } else {
        0
    };
    let end_y: i64 = if hh + half_h < h {
        hh + half_h
    } else {
        h
    };
    if start_x >= w || end_x < 0 || start_y >= h || end_y < 0 {
        return None;
    }
    assert(forward <= 4 * POS_LIMIT * FIX);
    let depth: u64 = (forward / FIX as i128) as u64;
    Some(SpriteQuad { start_x, end_x, start_y, end_y, depth })
}

/// Sprite `a` is painted before sprite `b`: it is farther from `(cx, cy)`, or
/// as far and earlier in the collection.
pub open spec fn draws_before(cx: int, cy: int, sprites: Seq<Sprite>, a: int, b: int) -> bool {
    let da = dist_squared(sprites[a].x as int, sprites[a].y as int, cx, cy);
    let db = dist_squared(sprites[b].x as int, sprites[b].y as int, cx, cy);
    da > db || (da == db && a < b)
}

/// `order` lists every uncollected sprite once, farthest first.
pub open spec fn is_draw_order(cx: int, cy: int, sprites: Seq<Sprite>, order: Seq<usize>) -> bool {
    &&& forall|k: int|
        0 <= k < order.len() ==> #[trigger] order[k] < sprites.len() && !sprites[order[k] as int].collected
    &&& forall|j: int|
        0 <= j < sprites.len() && !sprites[j].collected ==> exists|k: int|
            0 <= k < order.len() && #[trigger] order[k] == j
    &&& forall|a: int, b: int|
        0 <= a < b < order.len() ==> draws_before(cx, cy, sprites, #[trigger] order[a] as int, #[trigger] order[b] as int)
}

/// The uncollected sprites in painting order: farthest from `(cx, cy)`
/// first, ties in collection order.
pub fn sprite_draw_order(cx: i64, cy: i64, sprites: &Vec<Sprite>) -> (r: Vec<usize>)
    requires
        -POS_LIMIT <= cx <= POS_LIMIT,
        -POS_LIMIT <= cy <= POS_LIMIT,
        forall|i: int| 0 <= i < sprites@.len() ==> #[trigger] sprites@[i].wf(),
    ensures
        is_draw_order(cx as int, cy as int, sprites@, r@),
{
    let ghost sp = sprites@;
    let mut order: Vec<usize> = Vec::new();
    let mut keys: Vec<i128> = Vec::new();
    let n: usize = sprites.len();
    let mut i: usize = 0;
    while i < n
        invariant
            n == sp.len(),
            sp == sprites@,
            i <= n,
            -POS_LIMIT <= cx <= POS_LIMIT,
            -POS_LIMIT <= cy <= POS_LIMIT,
            forall|j: int| 0 <= j < sp.len() ==> #[trigger] sp[j].wf(),
            keys@.len() == order@.len(),
            forall|k: int|
                0 <= k < order@.len() ==> #[trigger] order@[k] < i && !sp[order@[k] as int].collected
                    && keys@[k] == dist_squared(
                    sp[order@[k] as int].x as int,
                    sp[order@[k] as int].y as int,
                    cx as int,
                    cy as int,
                ),
            forall|j: int|
                0 <= j < i && !sp[j].collected ==> exists|k: int|
                    0 <= k < order@.len() && #[trigger] order@[k] == j,
            forall|a: int, b: int|
                0 <= a < b < order@.len() ==> draws_before(
                    cx as int,
                    cy as int,
                    sp,
                    #[trigger] order@[a] as int,
                    #[trigger] order@[b] as int,
                ),
        decreases n - i,
    {
        if !sprites[i].collected {
            proof {
                assert(sp[i as int].wf());
            }
            let dx: i128 = sprites[i].x as i128 - cx as i128;
            let dy: i128 = sprites[i].y as i128 - cy as i128;
            assert(0 <= dx * dx <= 4 * POS_LIMIT * POS_LIMIT) by (nonlinear_arith)
                requires
                    -2 * POS_LIMIT <= dx <= 2 * POS_LIMIT,
            ;
            assert(0 <= dy * dy <= 4 * POS_LIMIT * POS_LIMIT) by (nonlinear_arith)
                requires
                    -2 * POS_LIMIT <= dy <= 2 * POS_LIMIT,
            ;
            let key: i128 = dx * dx + dy * dy;
            let mut p: usize = 0;
            while p < order.len() && keys[p] >= key
                invariant
                    p <= order@.len(),
                    keys@.len() == order@.len(),
                    forall|k: int| 0 <= k < p ==> #[trigger] keys@[k] >= key,
                decreases order@.len() - p,
            {
                p = p + 1;
            }
            let ghost old_order = order@;
            let ghost old_keys = keys@;
            order.insert(p, i);
            keys.insert(p, key);
            proof {
                assert(forall|k: int| 0 <= k < p ==> #[trigger] order@[k] == old_order[k]);
                assert(forall|k: int| p < k < order@.len() ==> #[trigger] order@[k] == old_order[k - 1]);
                assert(forall|k: int| p < k < order@.len() ==> #[trigger] keys@[k] == old_keys[k - 1]);
                assert(forall|k: int| 0 <= k < p ==> #[trigger] keys@[k] == old_keys[k]);
                // keys are non-increasing along the old order
                assert forall|a: int, b: int| 0 <= a < b < old_order.len() implies old_keys[a] >= old_keys[b] by {
                    assert(draws_before(cx as int, cy as int, sp, old_order[a] as int, old_order[b] as int));
                }
                assert forall|a: int, b: int| 0 <= a < b < order@.len() implies draws_before(
                    cx as int,
                    cy as int,
                    sp,
                    #[trigger] order@[a] as int,
                    #[trigger] order@[b] as int,
                ) by {
                    if b < p {
                        assert(draws_before(cx as int, cy as int, sp, old_order[a] as int, old_order[b] as int));
                    } else if b == p {
                        assert(old_keys[a] >= key);
                    } else if a < p {
                        assert(draws_before(cx as int, cy as int, sp, old_order[a] as int, old_order[b - 1] as int));
                    } else if a == p {
                        assert(p < old_order.len());
                        assert(old_keys[p as int] < key);
                        assert(old_keys[p as int] >= old_keys[b - 1] || p == b - 1);
                    } else {
                        assert(draws_before(
                            cx as int,
                            cy as int,
                            sp,
                            old_order[a - 1] as int,
                            old_order[b - 1] as int,
                        ));
                    }
                }
                assert forall|j: int| 0 <= j < i + 1 && !sp[j].collected implies exists|k: int|
                    0 <= k < order@.len() && #[trigger] order@[k] == j by {
                    if j == i {
                        assert(order@[p as int] == j);
                    } else {
                        let k0 = choose|k: int| 0 <= k < old_order.len() && #[trigger] old_order[k] == j;
                        if k0 < p {
                            assert(order@[k0] == j);
                        } else {
                            assert(order@[k0 + 1] == j);
                        }
                    }
                }
            }
        }
        i = i + 1;
    }
    order
}

} // verus!
