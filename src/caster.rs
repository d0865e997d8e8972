//! Ray marching through the grid, and the frame built from it: sky, floor,
//! wall columns with their depths, then sprites.

use vstd::prelude::*;
use crate::maze::{Maze, maze_fits, OPEN_CELL};
use crate::frame::{Color, Framebuffer, DepthBuffer, MAX_SCREEN, scale_channel, lemma_index_in_grid, lemma_row_col};
use crate::texture::{ImageTexture, TextureManager, texel_index};
use crate::sprites::{
    Sprite, SpriteManager, SpriteQuad, sprite_quad, sprite_paint, project_sprite, draw_sprite_quad,
    is_draw_order, sprite_draw_order, SCREEN_X_LIMIT,
};
use vstd::arithmetic::div_mod::{lemma_fundamental_div_mod_converse, lemma_mod_multiples_vanish, lemma_mod_add_multiples_vanish};

verus! {

/// Sub-units per world unit; also the length of a unit direction vector.
pub const FIX: i64 = 1024;

/// Distance between two samples of a ray, in sub-units (half a world unit).
pub const RAY_STEP: i64 = 512;

/// Index of the last sample a ray takes: 2000 world units out.
pub const MAX_STEPS: i64 = 4000;

/// The kind reported for a ray that left the map or ran out of distance.
pub const VOID_CELL: char = '+';

/// Largest coordinate, in sub-units, that a camera may stand at.
pub const POS_LIMIT: i64 = 1099511627776;

/// A direction: a unit vector scaled by `FIX`.
#[derive(Clone, Copy, Debug, PartialEq, Eq, Structural)]
pub struct Ray {
    pub dx: i64,
    pub dy: i64,
}

impl Ray {
    pub open spec fn wf(&self) -> bool {
        -FIX <= self.dx <= FIX && -FIX <= self.dy <= FIX
    }
}

/// Where a ray stopped. `hit_x` and `hit_y` are in fine units (`FIX * FIX` per
/// world unit), `distance` in sub-units. `wall` tells a struck wall cell from the
/// void sentinel; `side` tells which face of the cell was struck.
#[derive(Clone, Copy, Debug, PartialEq, Eq, Structural)]
pub struct Intersect {
    pub distance: i64,
    pub impact: char,
    pub hit_x: i64,
    pub hit_y: i64,
    pub side: bool,
    pub wall: bool,
}

/// A coordinate, in fine units, of the point at distance `d` along a ray.
pub open spec fn sample(origin: int, dir: int, d: int) -> int {
    origin * FIX + d * dir
}

/// The width of one cell in fine units.
pub open spec fn cell_span(block: int) -> int {
    block * FIX * FIX
}

pub open spec fn in_grid(m: Seq<Vec<char>>, px: int, py: int, span: int) -> bool {
    &&& 0 <= px
    &&& 0 <= py
    &&& py / span < m.len()
    &&& px / span < m[0]@.len()
}

pub open spec fn cell_at(m: Seq<Vec<char>>, px: int, py: int, span: int) -> char {
    m[py / span]@[px / span]
}

/// The march ends at this point: it left the grid or entered a wall cell.
pub open spec fn stops(m: Seq<Vec<char>>, px: int, py: int, span: int) -> bool {
    !in_grid(m, px, py, span) || cell_at(m, px, py, span) != OPEN_CELL
}

pub open spec fn sample_x(x: int, ray: Ray, k: int) -> int {
    sample(x, ray.dx as int, k * RAY_STEP)
}

pub open spec fn sample_y(y: int, ray: Ray, k: int) -> int {
    sample(y, ray.dy as int, k * RAY_STEP)
}

pub open spec fn sample_stops(m: Seq<Vec<char>>, x: int, y: int, ray: Ray, block: int, k: int) -> bool {
    stops(m, sample_x(x, ray, k), sample_y(y, ray, k), cell_span(block))
}

/// Index of the last sample taken from sample `k` on: the first that stops, or
/// the last one allowed.
pub open spec fn last_sample(m: Seq<Vec<char>>, x: int, y: int, ray: Ray, block: int, k: int) -> int
    decreases MAX_STEPS - k,
{
    if k >= MAX_STEPS || sample_stops(m, x, y, ray, block, k) {
        k
    } else {
        last_sample(m, x, y, ray, block, k + 1)
    }
}

/// Distance from a coordinate to the nearer edge of its cell.
pub open spec fn edge_gap(p: int, span: int) -> int {
    let f = p % span;
    if f < span - f {
        f
    } else {
        span - f
    }
}

/// The point lies nearer an edge across x than an edge across y.
pub open spec fn near_x_edge(px: int, py: int, span: int) -> bool {
    edge_gap(px, span) < edge_gap(py, span)
}

/// What a ray cast from `(x, y)` (sub-units) reports.
pub open spec fn cast_result(m: Seq<Vec<char>>, x: int, y: int, ray: Ray, block: int) -> Intersect {
    let k = last_sample(m, x, y, ray, block, 0);
    let px = sample_x(x, ray, k);
    let py = sample_y(y, ray, k);
    let span = cell_span(block);
    let stopped = stops(m, px, py, span);
    let wall = stopped && in_grid(m, px, py, span);
    Intersect {
        distance: (if stopped {
            k * RAY_STEP
        } else {
            (k + 1) * RAY_STEP
        }) as i64,
        impact: if wall {
            cell_at(m, px, py, span)
        } else {
            VOID_CELL
        },
        hit_x: px as i64,
        hit_y: py as i64,
        side: wall && near_x_edge(px, py, span),
        wall,
    }
}

pub open spec fn position_ok(x: int, y: int) -> bool {
    -POS_LIMIT <= x <= POS_LIMIT && -POS_LIMIT <= y <= POS_LIMIT
}

proof fn lemma_sample_bounds(origin: int, dir: int, k: int)
    requires
        -POS_LIMIT <= origin <= POS_LIMIT,
        -FIX <= dir <= FIX,
        0 <= k <= MAX_STEPS,
    ensures
        -POS_LIMIT * FIX - 4_000_000_000 <= sample(origin, dir, k * RAY_STEP) <= POS_LIMIT * FIX
            + 4_000_000_000,
        -4_000_000_000 <= (k * RAY_STEP) * dir <= 4_000_000_000,
{
    assert(-4_000_000_000 <= (k * RAY_STEP) * dir <= 4_000_000_000) by (nonlinear_arith)
        requires
            -FIX <= dir <= FIX,
            0 <= k <= MAX_STEPS,
            RAY_STEP == 512,
            FIX == 1024,
            MAX_STEPS == 4000,
    ;
}

/// Marches a ray from `(x, y)` in direction `ray`, one `RAY_STEP` at a time,
/// until a sample leaves the map or lands in a wall cell, or the distance
/// ceiling is passed.
pub fn cast_ray(maze: &Maze, x: i64, y: i64, ray: Ray, block_size: usize) -> (r: Intersect)
    requires
        maze_fits(maze@, block_size as int),
        position_ok(x as int, y as int),
        ray.wf(),
    ensures
        r == cast_result(maze@, x as int, y as int, ray, block_size as int),
        0 <= r.distance <= (MAX_STEPS + 1) * RAY_STEP,
        r.wall ==> r.hit_x >= 0 && r.hit_y >= 0,
{
    let ghost m = maze@;
    let span: i64 = block_size as i64 * FIX * FIX;
    assert(span == cell_span(block_size as int));
    let mut k: i64 = 0;
    loop
        invariant
            maze_fits(m, block_size as int),
            m == maze@,
            position_ok(x as int, y as int),
            ray.wf(),
            span == cell_span(block_size as int),
            0 <= k <= MAX_STEPS,
            last_sample(m, x as int, y as int, ray, block_size as int, 0) == last_sample(
                m,
                x as int,
                y as int,
                ray,
                block_size as int,
                k as int,
            ),
        decreases MAX_STEPS - k,
    {
        proof {
            lemma_sample_bounds(x as int, ray.dx as int, k as int);
            lemma_sample_bounds(y as int, ray.dy as int, k as int);
        }
        let d: i64 = k * RAY_STEP;
        let px: i64 = x * FIX + d * ray.dx;
        let py: i64 = y * FIX + d * ray.dy;
        assert(px == sample_x(x as int, ray, k as int));
        assert(py == sample_y(y as int, ray, k as int));
        if px < 0 || py < 0 || (py as u64 / span as u64) >= maze.len() as u64 || (px as u64
            / span as u64) >= maze[0].len() as u64 {
            assert(!in_grid(m, px as int, py as int, span as int));
            return Intersect {
                distance: d,
                impact: VOID_CELL,
                hit_x: px,
                hit_y: py,
                side: false,
                wall: false,
            };
        }
        let row: usize = (py as u64 / span as u64) as usize;
        let col: usize = (px as u64 / span as u64) as usize;
        assert(m[row as int]@.len() == m[0]@.len());
        let c: char = maze[row][col];
        assert(c == cell_at(m, px as int, py as int, span as int));
        if c != OPEN_CELL {
            let fx: i64 = px % span;
            let fy: i64 = py % span;
            let gx: i64 = if fx < span - fx {
                fx
            } else {
                span - fx
            };
            let gy: i64 = if fy < span - fy {
                fy
            } else {
                span - fy
            };
            return Intersect { distance: d, impact: c, hit_x: px, hit_y: py, side: gx < gy, wall: true };
        }
        if k == MAX_STEPS {
            return Intersect {
                distance: d + RAY_STEP,
                impact: VOID_CELL,
                hit_x: px,
                hit_y: py,
                side: false,
                wall: false,
            };
        }
        k = k + 1;
    }
}

proof fn lemma_last_sample_range(m: Seq<Vec<char>>, x: int, y: int, ray: Ray, block: int, k: int)
    requires
        0 <= k <= MAX_STEPS,
    ensures
        k <= last_sample(m, x, y, ray, block, k) <= MAX_STEPS,
    decreases MAX_STEPS - k,
{
    if k < MAX_STEPS && !sample_stops(m, x, y, ray, block, k) {
        lemma_last_sample_range(m, x, y, ray, block, k + 1);
    }
}

proof fn lemma_last_sample_passes_open(
    m: Seq<Vec<char>>,
    x: int,
    y: int,
    ray: Ray,
    block: int,
    k: int,
    stop: int,
)
    requires
        0 <= k <= stop <= MAX_STEPS,
        forall|i: int| k <= i < stop ==> !#[trigger] sample_stops(m, x, y, ray, block, i),
        sample_stops(m, x, y, ray, block, stop),
    ensures
        last_sample(m, x, y, ray, block, k) == stop,
    decreases stop - k,
{
    if k < stop {
        lemma_last_sample_passes_open(m, x, y, ray, block, k + 1, stop);
    }
}

/// A ray that passes only open cells of the map before reaching a wall cell at
/// distance `dist` (a whole number of steps, within the ceiling) reports that
/// wall: its kind, and a distance no more than one step short of `dist`.
pub proof fn lemma_ray_reaches_wall(m: Seq<Vec<char>>, x: int, y: int, ray: Ray, block: int, dist: int)
    requires
        0 <= dist <= MAX_STEPS * RAY_STEP,
        dist % (RAY_STEP as int) == 0,
        forall|k: int|
            0 <= k < dist / (RAY_STEP as int) ==> {
                &&& in_grid(m, sample_x(x, ray, k), sample_y(y, ray, k), cell_span(block))
                &&& #[trigger] cell_at(m, sample_x(x, ray, k), sample_y(y, ray, k), cell_span(block))
                    == OPEN_CELL
            },
        in_grid(
            m,
            sample_x(x, ray, dist / (RAY_STEP as int)),
            sample_y(y, ray, dist / (RAY_STEP as int)),
            cell_span(block),
        ),
        cell_at(m, sample_x(x, ray, dist / (RAY_STEP as int)), sample_y(y, ray, dist / (RAY_STEP as int)), cell_span(block))
            != OPEN_CELL,
    ensures
        dist - RAY_STEP <= cast_result(m, x, y, ray, block).distance <= dist,
        cast_result(m, x, y, ray, block).wall,
        cast_result(m, x, y, ray, block).impact == cell_at(
            m,
            sample_x(x, ray, dist / (RAY_STEP as int)),
            sample_y(y, ray, dist / (RAY_STEP as int)),
            cell_span(block),
        ),
{
    let stop = dist / (RAY_STEP as int);
    assert forall|i: int| 0 <= i < stop implies !#[trigger] sample_stops(m, x, y, ray, block, i) by {
        assert(cell_at(m, sample_x(x, ray, i), sample_y(y, ray, i), cell_span(block)) == OPEN_CELL);
    }
    lemma_last_sample_passes_open(m, x, y, ray, block, 0, stop);
    assert(stop * RAY_STEP == dist);
}

/// How many samples of a ray lie before its stop: all of them up to the first
/// that stops, or every allowed one when none does.
pub open spec fn open_samples(m: Seq<Vec<char>>, x: int, y: int, ray: Ray, block: int) -> int {
    let k = last_sample(m, x, y, ray, block, 0);
    if sample_stops(m, x, y, ray, block, k) {
        k
    } else {
        k + 1
    }
}

/// The buffer once the first `n` samples of a ray, rounded down to whole world
/// units, are painted `c` over `pixels`; points off the buffer are skipped.
pub open spec fn trace_paint(pixels: Seq<Color>, w: int, h: int, c: Color, x: int, y: int, ray: Ray, n: int) -> Seq<Color>
    decreases n,
{
    if n <= 0 {
        pixels
    } else {
        let p = trace_paint(pixels, w, h, c, x, y, ray, n - 1);
        let px = sample_x(x, ray, n - 1) / (FIX * FIX);
        let py = sample_y(y, ray, n - 1) / (FIX * FIX);
        if 0 <= px < w && 0 <= py < h {
            p.update(py * w + px, c)
        } else {
            p
        }
    }
}

/// Paints, in the current color, every sample that a cast of the same ray
/// passes before it stops: the ray's trace on the top-down map.
pub fn trace_ray(fb: &mut Framebuffer, maze: &Maze, x: i64, y: i64, ray: Ray, block_size: usize)
    requires
        old(fb).wf(),
        old(fb).width <= MAX_SCREEN,
        old(fb).height <= MAX_SCREEN,
        maze_fits(maze@, block_size as int),
        position_ok(x as int, y as int),
        ray.wf(),
    ensures
        final(fb).wf(),
        final(fb).width == old(fb).width,
        final(fb).height == old(fb).height,
        final(fb).current_color == old(fb).current_color,
        final(fb).pixels@ == trace_paint(
            old(fb).pixels@,
            old(fb).width as int,
            old(fb).height as int,
            old(fb).current_color,
            x as int,
            y as int,
            ray,
            open_samples(maze@, x as int, y as int, ray, block_size as int),
        ),
{
    let ghost m = maze@;
    let ghost old_px = fb.pixels@;
    let ghost w0 = fb.width as int;
    let ghost h0 = fb.height as int;
    let ghost c0 = fb.current_color;
    let span: i64 = block_size as i64 * FIX * FIX;
    let mut k: i64 = 0;
    loop
        invariant
            maze_fits(m, block_size as int),
            m == maze@,
            position_ok(x as int, y as int),
            ray.wf(),
            span == cell_span(block_size as int),
            0 <= k <= MAX_STEPS,
            fb.wf(),
            fb.width == w0,
            fb.height == h0,
            fb.current_color == c0,
            w0 == old(fb).width,
            h0 == old(fb).height,
            c0 == old(fb).current_color,
            old_px == old(fb).pixels@,
            w0 <= MAX_SCREEN,
            h0 <= MAX_SCREEN,
            last_sample(m, x as int, y as int, ray, block_size as int, 0) == last_sample(
                m,
                x as int,
                y as int,
                ray,
                block_size as int,
                k as int,
            ),
            fb.pixels@ == trace_paint(old_px, w0, h0, c0, x as int, y as int, ray, k as int),
        decreases MAX_STEPS - k,
    {
        proof {
            lemma_sample_bounds(x as int, ray.dx as int, k as int);
            lemma_sample_bounds(y as int, ray.dy as int, k as int);
        }
        let d: i64 = k * RAY_STEP;
        let px: i64 = x * FIX + d * ray.dx;
        let py: i64 = y * FIX + d * ray.dy;
        assert(px == sample_x(x as int, ray, k as int));
        assert(py == sample_y(y as int, ray, k as int));
        if px < 0 || py < 0 || (py as u64 / span as u64) >= maze.len() as u64 || (px as u64
            / span as u64) >= maze[0].len() as u64 {
            assert(!in_grid(m, px as int, py as int, span as int));
            return;
        }
        let row: usize = (py as u64 / span as u64) as usize;
        let col: usize = (px as u64 / span as u64) as usize;
        assert(m[row as int]@.len() == m[0]@.len());
        if maze[row][col] != OPEN_CELL {
            return;
        }
        let wx: u64 = px as u64 / (FIX * FIX) as u64;
        let wy: u64 = py as u64 / (FIX * FIX) as u64;
        if wx < fb.width as u64 && wy < fb.height as u64 {
            fb.set_pixel(wx as usize, wy as usize);
        }
        if k == MAX_STEPS {
            return;
        }
        k = k + 1;
    }
}

/// Every cast ends within the distance ceiling plus one step; one that meets no
/// wall cell on its way reports the void sentinel.
pub proof fn lemma_open_ray_ends_in_void(m: Seq<Vec<char>>, x: int, y: int, ray: Ray, block: int)
    requires
        forall|k: int|
            0 <= k <= MAX_STEPS && #[trigger] in_grid(
                m,
                sample_x(x, ray, k),
                sample_y(y, ray, k),
                cell_span(block),
            ) ==> cell_at(m, sample_x(x, ray, k), sample_y(y, ray, k), cell_span(block))
                == OPEN_CELL,
    ensures
        0 <= cast_result(m, x, y, ray, block).distance <= (MAX_STEPS + 1) * RAY_STEP,
        !cast_result(m, x, y, ray, block).wall,
        cast_result(m, x, y, ray, block).impact == VOID_CELL,
{
    lemma_last_sample_range(m, x, y, ray, block, 0);
    let k = last_sample(m, x, y, ray, block, 0);
    if in_grid(m, sample_x(x, ray, k), sample_y(y, ray, k), cell_span(block)) {
        assert(cell_at(m, sample_x(x, ray, k), sample_y(y, ray, k), cell_span(block)) == OPEN_CELL);
    }
}

/// The camera: position in sub-units and facing direction.
#[derive(Clone, Copy, Debug, PartialEq, Eq, Structural)]
pub struct Camera {
    pub x: i64,
    pub y: i64,
    pub dir: Ray,
}

impl Camera {
    pub open spec fn wf(&self) -> bool {
        position_ok(self.x as int, self.y as int) && self.dir.wf()
    }
}

/// The ray of one screen column, with the cosine (scaled by `FIX`) of its
/// angle to the camera's facing direction.
#[derive(Clone, Copy, Debug, PartialEq, Eq, Structural)]
pub struct ColumnRay {
    pub ray: Ray,
    pub cos_offset: i64,
}

impl ColumnRay {
    pub open spec fn wf(&self) -> bool {
        self.ray.wf() && 0 <= self.cos_offset <= FIX
    }
}

/// A raw ray distance with the fisheye bowing removed: its projection on the
/// facing direction.
pub open spec fn corrected(distance: int, cos_offset: int) -> int {
    distance * cos_offset / (FIX as int)
}

pub fn correct_distance(distance: i64, cos_offset: i64) -> (r: i64)
    requires
        0 <= distance <= (MAX_STEPS + 1) * RAY_STEP,
        0 <= cos_offset <= FIX,
    ensures
        r == corrected(distance as int, cos_offset as int),
        0 <= r <= distance,
{
    assert(0 <= distance * cos_offset <= distance * FIX) by (nonlinear_arith)
        requires
            0 <= distance,
            0 <= cos_offset <= FIX,
    ;
    assert(distance * cos_offset / (FIX as int) <= distance) by (nonlinear_arith)
        requires
            0 <= distance * cos_offset <= distance * FIX,
            FIX == 1024,
    ;
    distance * cos_offset / FIX
}

/// A ray along the facing direction keeps its distance.
pub proof fn lemma_central_ray_uncorrected(distance: int)
    ensures
        corrected(distance, FIX as int) == distance,
{
    assert(distance * FIX / (FIX as int) == distance) by (nonlinear_arith);
}

/// Half the height, in rows, of the wall slab at corrected distance `c`.
pub open spec fn slab_half(h: int, c: int) -> int {
    if c <= 0 {
        h
    } else {
        h * 8125 * FIX / (200 * c)
    }
}

/// First row of the wall slab, clamped to the screen.
pub open spec fn slab_top(h: int, c: int) -> int {
    if h / 2 - slab_half(h, c) > 0 {
        h / 2 - slab_half(h, c)
    } else {
        0
    }
}

/// Row past the last of the wall slab, clamped to the screen.
pub open spec fn slab_bottom(h: int, c: int) -> int {
    if h / 2 + slab_half(h, c) < h {
        h / 2 + slab_half(h, c)
    } else {
        h
    }
}

/// The rows `top..bottom` of the wall slab at corrected distance `c` on a
/// screen of `height` rows.
pub fn wall_slab(height: usize, c: i64) -> (r: (usize, usize))
    requires
        height <= MAX_SCREEN,
        0 <= c <= POS_LIMIT,
    ensures
        r.0 == slab_top(height as int, c as int),
        r.1 == slab_bottom(height as int, c as int),
        r.1 <= height,
{
    let h: i64 = height as i64;
    let half: i64 = if c == 0 {
        h
    } else {
        assert(h * 8125 * FIX / (200 * c as int) <= h * 8125 * FIX) by (nonlinear_arith)
            requires
                0 <= h <= MAX_SCREEN,
                1 <= c,
        ;
        h * 8125 * FIX / (200 * c)
    };
    let top: i64 = if h / 2 - half > 0 {
        h / 2 - half
    } else {
        0
    };
    let bottom: i64 = if h / 2 + half < h {
        h / 2 + half
    } else {
        h
    };
    (top as usize, bottom as usize)
}

/// Where along the struck face the ray hit, as a texture coordinate in
/// `[0, FIX)`.
pub open spec fn wall_tex_x(hit: Intersect, block: int) -> int {
    let span = cell_span(block);
    let p = if hit.side {
        hit.hit_y as int
    } else {
        hit.hit_x as int
    };
    (p % span) * FIX / span
}

/// The color of row `y` of a wall slab `top..bottom`: faces struck on the
/// `side` are darkened to seven tenths.
pub open spec fn wall_color(tex: ImageTexture, tex_x: int, y: int, top: int, bottom: int, side: bool) -> Color {
    let tex_y = (y - top) * FIX / (bottom - top);
    let c = tex.texel(texel_index(tex_x, tex.width as int), texel_index(tex_y, tex.height as int));
    if side {
        Color { r: scale_channel(c[0], 7, 10), g: scale_channel(c[1], 7, 10), b: scale_channel(c[2], 7, 10), a: 255 }
    } else {
        Color { r: c[0], g: c[1], b: c[2], a: 255 }
    }
}

/// What the wall pass leaves at pixel `(x, y)` over `old`, for the ray hit of
/// column `x`.
pub open spec fn wall_pixel(
    old: Color,
    tex: ImageTexture,
    hit: Intersect,
    cos_offset: int,
    block: int,
    h: int,
    y: int,
) -> Color {
    let c = corrected(hit.distance as int, cos_offset);
    if hit.wall && slab_top(h, c) <= y < slab_bottom(h, c) {
        wall_color(tex, wall_tex_x(hit, block), y, slab_top(h, c), slab_bottom(h, c), hit.side)
    } else {
        old
    }
}

/// What the wall pass leaves in the depth buffer at row `y` of a column.
pub open spec fn wall_depth(old: u64, hit: Intersect, cos_offset: int, h: int, y: int) -> u64 {
    let c = corrected(hit.distance as int, cos_offset);
    if hit.wall && slab_top(h, c) <= y < slab_bottom(h, c) {
        c as u64
    } else {
        old
    }
}

/// Draws the wall slab of screen column `col` for ray hit `hit` and writes its
/// corrected distance into the depth buffer; a hit that is no wall, or an empty
/// slab, leaves both untouched.
pub fn draw_wall_column(
    fb: &mut Framebuffer,
    z: &mut DepthBuffer,
    tex: &ImageTexture,
    col: usize,
    hit: Intersect,
    cos_offset: i64,
    block_size: usize,
)
    requires
        old(fb).wf(),
        old(z).wf(),
        old(z).width == old(fb).width,
        old(z).height == old(fb).height,
        1 <= old(fb).width <= MAX_SCREEN,
        old(fb).height <= MAX_SCREEN,
        col < old(fb).width,
        tex.wf(),
        0 <= hit.distance <= (MAX_STEPS + 1) * RAY_STEP,
        0 <= cos_offset <= FIX,
        1 <= block_size <= crate::maze::MAX_BLOCK,
        hit.wall ==> hit.hit_x >= 0 && hit.hit_y >= 0,
    ensures
        final(fb).wf(),
        final(z).wf(),
        final(fb).width == old(fb).width,
        final(fb).height == old(fb).height,
        final(fb).current_color == old(fb).current_color,
        *final(z) == (DepthBuffer { depths: final(z).depths, ..*old(z) }),
        final(fb).pixels@.len() == old(fb).pixels@.len(),
        forall|i: int|
            0 <= i < old(fb).pixels@.len() ==> #[trigger] final(fb).pixels@[i] == if i % (old(fb).width as int)
                == col {
                wall_pixel(
                    old(fb).pixels@[i],
                    *tex,
                    hit,
                    cos_offset as int,
                    block_size as int,
                    old(fb).height as int,
                    i / (old(fb).width as int),
                )
            } else {
                old(fb).pixels@[i]
            },
        forall|i: int|
            0 <= i < old(z).depths@.len() ==> #[trigger] final(z).depths@[i] == if i % (old(fb).width as int)
                == col {
                wall_depth(old(z).depths@[i], hit, cos_offset as int, old(fb).height as int, i / (old(fb).width as int))
            } else {
                old(z).depths@[i]
            },
{
    let ghost w0 = fb.width as int;
    let ghost h0 = fb.height as int;
    let ghost old_px = fb.pixels@;
    let ghost old_z = z.depths@;
    if !hit.wall {
        return;
    }
    let c: i64 = correct_distance(hit.distance, cos_offset);
    let (top, bottom) = wall_slab(fb.height, c);
    if bottom <= top {
        return;
    }
    let span: i64 = block_size as i64 * FIX * FIX;
    let p: i64 = if hit.side {
        hit.hit_y
    } else {
        hit.hit_x
    };
    assert((p % span) * FIX / (span as int) < FIX) by (nonlinear_arith)
        requires
            0 <= p % span < span,
            FIX == 1024,
    ;
    let tex_x: i64 = (p % span) * FIX / span;
    let w: usize = fb.width;
    let mut y: usize = top;
    while y < bottom
        invariant
            fb.wf(),
            z.wf(),
            fb.width == w,
            w == w0,
            fb.height == h0,
            z.width == w,
            z.height == h0,
            *z == (DepthBuffer { depths: z.depths, ..*old(z) }),
            fb.current_color == old(fb).current_color,
            1 <= w <= MAX_SCREEN,
            h0 <= MAX_SCREEN,
            col < w,
            tex.wf(),
            hit.wall,
            c == corrected(hit.distance as int, cos_offset as int),
            0 <= c,
            top == slab_top(h0, c as int),
            bottom == slab_bottom(h0, c as int),
            top < bottom <= h0,
            top <= y,
            tex_x == wall_tex_x(hit, block_size as int),
            fb.pixels@.len() == old_px.len(),
            z.depths@.len() == old_z.len(),
            old_px.len() == w0 * h0,
            forall|i: int|
                0 <= i < old_px.len() ==> #[trigger] fb.pixels@[i] == if i % w0 == col && i / w0 < y {
                    wall_pixel(old_px[i], *tex, hit, cos_offset as int, block_size as int, h0, i / w0)
                } else {
                    old_px[i]
                },
            forall|i: int|
                0 <= i < old_z.len() ==> #[trigger] z.depths@[i] == if i % w0 == col && i / w0 < y {
                    wall_depth(old_z[i], hit, cos_offset as int, h0, i / w0)
                } else {
                    old_z[i]
                },
        decreases bottom - y,
    {
        proof {
            lemma_index_in_grid(w as int, h0, col as int, y as int);
            lemma_fundamental_div_mod_converse(y * w + col, w as int, y as int, col as int);
        }
        assert(0 <= y * w <= MAX_SCREEN * MAX_SCREEN) by (nonlinear_arith)
            requires
                0 <= y <= MAX_SCREEN,
                0 <= w <= MAX_SCREEN,
        ;
        let idx: usize = y * w + col;
        let ty: i64 = ((y - top) as i64) * FIX / ((bottom - top) as i64);
        let rgb: [u8; 3] = tex.get_color(tex_x, ty);
        let color: Color = if hit.side {
            Color::opaque_scaled(rgb, 7, 10)
        } else {
            Color::opaque(rgb)
        };
        fb.pixels.set(idx, color);
        z.depths.set(idx, c as u64);
        proof {
            assert forall|i: int| 0 <= i < old_px.len() implies #[trigger] fb.pixels@[i] == if i % w0 == col && i
                / w0 < y + 1 {
                wall_pixel(old_px[i], *tex, hit, cos_offset as int, block_size as int, h0, i / w0)
            } else {
                old_px[i]
            } by {
                lemma_row_col(i, w0, h0);
                if i == idx {
                } else if i % w0 == col && i / w0 == y {
                    assert(i == idx);
                } else if i % w0 == col && i / w0 < top {
                    assert(wall_pixel(old_px[i], *tex, hit, cos_offset as int, block_size as int, h0, i / w0)
                        == old_px[i]);
                }
            }
            assert forall|i: int| 0 <= i < old_z.len() implies #[trigger] z.depths@[i] == if i % w0 == col && i / w0
                < y + 1 {
                wall_depth(old_z[i], hit, cos_offset as int, h0, i / w0)
            } else {
                old_z[i]
            } by {
                lemma_row_col(i, w0, h0);
                if i == idx {
                } else if i % w0 == col && i / w0 == y {
                    assert(i == idx);
                }
            }
        }
        y = y + 1;
    }
    proof {
        assert forall|i: int| 0 <= i < old_px.len() implies #[trigger] fb.pixels@[i] == if i % w0 == col {
            wall_pixel(old_px[i], *tex, hit, cos_offset as int, block_size as int, h0, i / w0)
        } else {
            old_px[i]
        } by {
            lemma_row_col(i, w0, h0);
        }
        assert forall|i: int| 0 <= i < old_z.len() implies #[trigger] z.depths@[i] == if i % w0 == col {
            wall_depth(old_z[i], hit, cos_offset as int, h0, i / w0)
        } else {
            old_z[i]
        } by {
            lemma_row_col(i, w0, h0);
        }
    }
}

/// Height of the eye above the floor, in world units.
pub const EYE_HEIGHT: i64 = 32;

/// Side of one floor tile, in fine units (64 world units).
pub const TILE_SPAN: i64 = 67108864;

/// A multiple of `TILE_SPAN` that makes every floor coordinate non-negative.
pub const TILE_OFFSET: i64 = 4503599627370496;

/// Distance, in sub-units, at which the floor reaches its darkest shade.
pub const FLOOR_FADE: i64 = 819200;

/// Distance, in sub-units, to the floor point seen at row `y` below the
/// horizon of a screen of `h` rows.
pub open spec fn floor_distance(y: int, h: int) -> int {
    EYE_HEIGHT * h * FIX / (2 * y - h)
}

/// Position within its floor tile of a coordinate in fine units, as a texture
/// coordinate in `[0, FIX)`; the floor repeats every tile.
pub open spec fn tile_coord(p: int) -> int {
    (p % (TILE_SPAN as int)) * FIX / (TILE_SPAN as int)
}

/// Brightness of the floor, in thousandths, at distance `d`: it falls linearly
/// from 1000 to 700 at `FLOOR_FADE` and stays there.
pub open spec fn floor_brightness(d: int) -> int {
    1000 - 3 * (if d < FLOOR_FADE {
        d
    } else {
        FLOOR_FADE as int
    }) / (8 * FIX as int)
}

/// The floor color at row `y` of a column whose ray is `ray`.
pub open spec fn floor_color(tex: ImageTexture, cx: int, cy: int, ray: Ray, y: int, h: int) -> Color {
    let d = floor_distance(y, h);
    let wx = cx * FIX + d * ray.dx;
    let wy = cy * FIX + d * ray.dy;
    let c = tex.texel(
        texel_index(tile_coord(wx), tex.width as int),
        texel_index(tile_coord(wy), tex.height as int),
    );
    let b = floor_brightness(d);
    Color { r: scale_channel(c[0], b, 1000), g: scale_channel(c[1], b, 1000), b: scale_channel(c[2], b, 1000), a: 255 }
}

/// The floor repeats with the tile: a coordinate and the one a tile further
/// give the same texture coordinate.
pub proof fn lemma_floor_tiles(p: int)
    ensures
        tile_coord(p + TILE_SPAN) == tile_coord(p),
{
    lemma_mod_add_multiples_vanish(p, TILE_SPAN as int);
}

/// The tile coordinate of a fine-unit coordinate `p`, `|p| < TILE_OFFSET`.
pub fn floor_tex_coord(p: i64) -> (r: i64)
    requires
        -TILE_OFFSET < p < TILE_OFFSET,
    ensures
        r == tile_coord(p as int),
        0 <= r < FIX,
{
    let q: u64 = (p + TILE_OFFSET) as u64;
    proof {
        lemma_mod_multiples_vanish(67108864, p as int, TILE_SPAN as int);
        assert(TILE_OFFSET == TILE_SPAN * 67108864);
    }
    let m: i64 = (q % TILE_SPAN as u64) as i64;
    assert(m * FIX / (TILE_SPAN as int) < FIX) by (nonlinear_arith)
        requires
            0 <= m < TILE_SPAN,
            TILE_SPAN == 67108864,
            FIX == 1024,
    ;
    m * FIX / TILE_SPAN
}

/// The floor color at row `y` of a column with ray `ray`, on a screen of
/// `height` rows; `None` on and above the horizon.
pub fn floor_pixel_color(tex: &ImageTexture, cam_x: i64, cam_y: i64, ray: Ray, y: usize, height: usize) -> (r:
    Option<Color>)
    requires
        tex.wf(),
        position_ok(cam_x as int, cam_y as int),
        ray.wf(),
        height <= MAX_SCREEN,
        y < height,
    ensures
        r == if 2 * y > height {
            Some(floor_color(*tex, cam_x as int, cam_y as int, ray, y as int, height as int))
        } else {
            None::<Color>
        },
{
    if 2 * y <= height {
        return None;
    }
    let h: i64 = height as i64;
    let v: i64 = 2 * (y as i64) - h;
    assert(0 <= EYE_HEIGHT * h * FIX / (v as int) <= EYE_HEIGHT * MAX_SCREEN * FIX) by (nonlinear_arith)
        requires
            0 <= h <= MAX_SCREEN,
            1 <= v,
    ;
    let d: i64 = EYE_HEIGHT * h * FIX / v;
    assert(-EYE_HEIGHT * MAX_SCREEN * FIX * FIX <= d * ray.dx <= EYE_HEIGHT * MAX_SCREEN * FIX * FIX) by (nonlinear_arith)
        requires
            0 <= d <= EYE_HEIGHT * MAX_SCREEN * FIX,
            -FIX <= ray.dx <= FIX,
    ;
    assert(-EYE_HEIGHT * MAX_SCREEN * FIX * FIX <= d * ray.dy <= EYE_HEIGHT * MAX_SCREEN * FIX * FIX) by (nonlinear_arith)
        requires
            0 <= d <= EYE_HEIGHT * MAX_SCREEN * FIX,
            -FIX <= ray.dy <= FIX,
    ;
    let wx: i64 = cam_x * FIX + d * ray.dx;
    let wy: i64 = cam_y * FIX + d * ray.dy;
    let tx: i64 = floor_tex_coord(wx);
    let ty: i64 = floor_tex_coord(wy);
    let c: [u8; 3] = tex.get_color(tx, ty);
    let dd: i64 = if d < FLOOR_FADE {
        d
    } else {
        FLOOR_FADE
    };
    let b: i64 = 1000 - 3 * dd / (8 * FIX);
    Some(Color::opaque_scaled(c, b as u64, 1000))
}

/// Paints one floor pixel of column `x`, row `y`; rows on or above the horizon
/// are left alone.
pub fn render_floor_pixel(
    fb: &mut Framebuffer,
    x: usize,
    y: usize,
    camera: &Camera,
    ray: Ray,
    texture_manager: &TextureManager,
)
    requires
        old(fb).wf(),
        camera.wf(),
        ray.wf(),
        texture_manager.wf(),
        old(fb).height <= MAX_SCREEN,
        x < old(fb).width,
        y < old(fb).height,
    ensures
        final(fb).wf(),
        final(fb).width == old(fb).width,
        final(fb).height == old(fb).height,
        final(fb).pixels@ == if 2 * y > old(fb).height {
            old(fb).pixels@.update(
                crate::frame::pixel_index(old(fb).width as int, x as int, y as int),
                floor_color(texture_manager.grass_texture, camera.x as int, camera.y as int, ray, y as int, old(fb).height as int),
            )
        } else {
            old(fb).pixels@
        },
{
    let grass = texture_manager.get_grass_texture();
    match floor_pixel_color(grass, camera.x, camera.y, ray, y, fb.height) {
        Some(c) => {
            fb.set_current_color(c);
            fb.set_pixel(x, y);
        },
        None => {},
    }
}

/// What the sky and floor pass leaves at pixel `i` over `old`: sky above the
/// horizon row, floor below it, the horizon row itself untouched.
pub open spec fn background_pixel(
    old: Color,
    grass: ImageTexture,
    camera: Camera,
    cols: Seq<ColumnRay>,
    w: int,
    h: int,
    i: int,
) -> Color {
    let x = i % w;
    let y = i / w;
    if y < h / 2 {
        Color { r: 102, g: 191, b: 255, a: 255 }
    } else if 2 * y > h {
        floor_color(grass, camera.x as int, camera.y as int, cols[x].ray, y, h)
    } else {
        old
    }
}

/// The screen is `w` by `h` pixels, with one well-formed ray per column.
pub open spec fn view_ok(camera: Camera, cols: Seq<ColumnRay>, w: int, h: int) -> bool {
    &&& camera.wf()
    &&& 1 <= w <= MAX_SCREEN
    &&& 0 <= h <= MAX_SCREEN
    &&& cols.len() == w
    &&& forall|x: int| 0 <= x < w ==> #[trigger] cols[x].wf()
}

/// Fills the rows above the horizon with sky and projects the floor texture
/// onto the rows below it.
pub fn paint_sky_and_floor(
    fb: &mut Framebuffer,
    camera: &Camera,
    cols: &Vec<ColumnRay>,
    texture_manager: &TextureManager,
)
    requires
        old(fb).wf(),
        view_ok(*camera, cols@, old(fb).width as int, old(fb).height as int),
        texture_manager.wf(),
    ensures
        final(fb).wf(),
        final(fb).width == old(fb).width,
        final(fb).height == old(fb).height,
        final(fb).pixels@ == Seq::new(
            old(fb).pixels@.len(),
            |i: int|
                background_pixel(
                    old(fb).pixels@[i],
                    texture_manager.grass_texture,
                    *camera,
                    cols@,
                    old(fb).width as int,
                    old(fb).height as int,
                    i,
                ),
        ),
{
    let ghost old_px = fb.pixels@;
    let ghost w0 = fb.width as int;
    let ghost h0 = fb.height as int;
    let w: usize = fb.width;
    let h: usize = fb.height;
    let n: usize = fb.pixels.len();
    let grass = texture_manager.get_grass_texture();
    let sky = Color::sky_blue();
    let mut i: usize = 0;
    while i < n
        invariant
            fb.wf(),
            fb.width == w,
            fb.height == h,
            w == w0,
            h == h0,
            n == old_px.len(),
            n == w * h,
            view_ok(*camera, cols@, w0, h0),
            *grass == texture_manager.grass_texture,
            grass.wf(),
            sky == (Color { r: 102, g: 191, b: 255, a: 255 }),
            fb.pixels@.len() == n,
            i <= n,
            forall|k: int|
                0 <= k < n ==> #[trigger] fb.pixels@[k] == if k < i {
                    background_pixel(old_px[k], *grass, *camera, cols@, w0, h0, k)
                } else {
                    old_px[k]
                },
        decreases n - i,
    {
        proof {
            lemma_row_col(i as int, w0, h0);
        }
        let x: usize = i % w;
        let y: usize = i / w;
        if y < h / 2 {
            fb.pixels.set(i, sky);
        } else {
            proof {
                assert(cols@[x as int].wf());
            }
            match floor_pixel_color(grass, camera.x, camera.y, cols[x].ray, y, h) {
                Some(c) => {
                    fb.pixels.set(i, c);
                },
                None => {},
            }
        }
        i = i + 1;
    }
    proof {
        assert(fb.pixels@ =~= Seq::new(
            old_px.len(),
            |k: int| background_pixel(old_px[k], *grass, *camera, cols@, w0, h0, k),
        ));
    }
}

/// The ray hit of screen column `x`.
pub open spec fn column_hit(m: Seq<Vec<char>>, camera: Camera, cols: Seq<ColumnRay>, block: int, x: int) -> Intersect {
    cast_result(m, camera.x as int, camera.y as int, cols[x].ray, block)
}

/// What the wall pass leaves at pixel `i` over `old`.
pub open spec fn wall_pass_pixel(
    old: Color,
    m: Seq<Vec<char>>,
    camera: Camera,
    cols: Seq<ColumnRay>,
    block: int,
    tex: ImageTexture,
    w: int,
    h: int,
    i: int,
) -> Color {
    let x = i % w;
    wall_pixel(old, tex, column_hit(m, camera, cols, block, x), cols[x].cos_offset as int, block, h, i / w)
}

/// What the wall pass leaves in the depth buffer at pixel `i` over `old`.
pub open spec fn wall_pass_depth(
    old: u64,
    m: Seq<Vec<char>>,
    camera: Camera,
    cols: Seq<ColumnRay>,
    block: int,
    w: int,
    h: int,
    i: int,
) -> u64 {
    let x = i % w;
    wall_depth(old, column_hit(m, camera, cols, block, x), cols[x].cos_offset as int, h, i / w)
}

/// Casts one ray per screen column and draws its wall slab, writing the
/// corrected distance of each wall pixel into the depth buffer. Columns whose
/// ray meets no wall are left alone.
pub fn render_walls(
    fb: &mut Framebuffer,
    z: &mut DepthBuffer,
    maze: &Maze,
    block_size: usize,
    camera: &Camera,
    cols: &Vec<ColumnRay>,
    texture_manager: &TextureManager,
)
    requires
        old(fb).wf(),
        old(z).wf(),
        old(z).width == old(fb).width,
        old(z).height == old(fb).height,
        view_ok(*camera, cols@, old(fb).width as int, old(fb).height as int),
        maze_fits(maze@, block_size as int),
        texture_manager.wf(),
    ensures
        final(fb).wf(),
        final(z).wf(),
        final(fb).width == old(fb).width,
        final(fb).height == old(fb).height,
        final(fb).current_color == old(fb).current_color,
        final(z).width == old(z).width,
        final(z).height == old(z).height,
        final(fb).pixels@ == Seq::new(
            old(fb).pixels@.len(),
            |i: int|
                wall_pass_pixel(
                    old(fb).pixels@[i],
                    maze@,
                    *camera,
                    cols@,
                    block_size as int,
                    texture_manager.stadium_texture,
                    old(fb).width as int,
                    old(fb).height as int,
                    i,
                ),
        ),
        final(z).depths@ == Seq::new(
            old(z).depths@.len(),
            |i: int|
                wall_pass_depth(
                    old(z).depths@[i],
                    maze@,
                    *camera,
                    cols@,
                    block_size as int,
                    old(fb).width as int,
                    old(fb).height as int,
                    i,
                ),
        ),
{
    let ghost old_px = fb.pixels@;
    let ghost old_z = z.depths@;
    let ghost w0 = fb.width as int;
    let ghost h0 = fb.height as int;
    let ghost tex0 = texture_manager.stadium_texture;
    let w: usize = fb.width;
    let mut col: usize = 0;
    while col < w
        invariant
            fb.wf(),
            z.wf(),
            fb.width == w,
            w == w0,
            fb.height == h0,
            z.width == w,
            z.height == h0,
            fb.current_color == old(fb).current_color,
            view_ok(*camera, cols@, w0, h0),
            maze_fits(maze@, block_size as int),
            texture_manager.wf(),
            tex0 == texture_manager.stadium_texture,
            col <= w,
            fb.pixels@.len() == old_px.len(),
            z.depths@.len() == old_z.len(),
            old_px.len() == w0 * h0,
            old_z.len() == w0 * h0,
            forall|k: int|
                0 <= k < old_px.len() ==> #[trigger] fb.pixels@[k] == if k % w0 < col {
                    wall_pass_pixel(old_px[k], maze@, *camera, cols@, block_size as int, tex0, w0, h0, k)
                } else {
                    old_px[k]
                },
            forall|k: int|
                0 <= k < old_z.len() ==> #[trigger] z.depths@[k] == if k % w0 < col {
                    wall_pass_depth(old_z[k], maze@, *camera, cols@, block_size as int, w0, h0, k)
                } else {
                    old_z[k]
                },
        decreases w - col,
    {
        proof {
            assert(cols@[col as int].wf());
        }
        let cr: ColumnRay = cols[col];
        let hit: Intersect = cast_ray(maze, camera.x, camera.y, cr.ray, block_size);
        let tex = texture_manager.get_texture(hit.impact);
        draw_wall_column(fb, z, tex, col, hit, cr.cos_offset, block_size);
        proof {
            assert forall|k: int| 0 <= k < old_px.len() implies #[trigger] fb.pixels@[k] == if k % w0 < col + 1 {
                wall_pass_pixel(old_px[k], maze@, *camera, cols@, block_size as int, tex0, w0, h0, k)
            } else {
                old_px[k]
            } by {
                lemma_row_col(k, w0, h0);
            }
            assert forall|k: int| 0 <= k < old_z.len() implies #[trigger] z.depths@[k] == if k % w0 < col + 1 {
                wall_pass_depth(old_z[k], maze@, *camera, cols@, block_size as int, w0, h0, k)
            } else {
                old_z[k]
            } by {
                lemma_row_col(k, w0, h0);
            }
        }
        col = col + 1;
    }
    proof {
        assert forall|k: int| 0 <= k < old_px.len() implies #[trigger] fb.pixels@[k] == wall_pass_pixel(
            old_px[k],
            maze@,
            *camera,
            cols@,
            block_size as int,
            tex0,
            w0,
            h0,
            k,
        ) by {
            lemma_row_col(k, w0, h0);
        }
        assert forall|k: int| 0 <= k < old_z.len() implies #[trigger] z.depths@[k] == wall_pass_depth(
            old_z[k],
            maze@,
            *camera,
            cols@,
            block_size as int,
            w0,
            h0,
            k,
        ) by {
            lemma_row_col(k, w0, h0);
        }
        assert(fb.pixels@ =~= Seq::new(
            old_px.len(),
            |i: int| wall_pass_pixel(old_px[i], maze@, *camera, cols@, block_size as int, tex0, w0, h0, i),
        ));
        assert(z.depths@ =~= Seq::new(
            old_z.len(),
            |i: int| wall_pass_depth(old_z[i], maze@, *camera, cols@, block_size as int, w0, h0, i),
        ));
    }
}

/// The sprite's screen rectangle, seen by the camera with its centre at column
/// `screen_x`.
pub open spec fn camera_sprite_quad(camera: Camera, s: Sprite, screen_x: int, w: int, h: int) -> Option<SpriteQuad> {
    sprite_quad(camera.x as int, camera.y as int, camera.dir, s.x as int, s.y as int, screen_x, w, h)
}

/// The buffer once sprite `s` is drawn over `pixels` against `depths`.
pub open spec fn paint_one_sprite(
    pixels: Seq<Color>,
    depths: Seq<u64>,
    w: int,
    h: int,
    camera: Camera,
    s: Sprite,
    screen_x: int,
) -> Seq<Color> {
    match camera_sprite_quad(camera, s, screen_x, w, h) {
        Some(q) => sprite_paint(pixels, depths, w, q, s.frame()),
        None => pixels,
    }
}

/// The buffer once the sprites listed in `order` are drawn over `pixels`, in
/// that order.
pub open spec fn paint_sprites(
    pixels: Seq<Color>,
    depths: Seq<u64>,
    w: int,
    h: int,
    camera: Camera,
    sprites: Seq<Sprite>,
    screen_xs: Seq<i64>,
    order: Seq<usize>,
) -> Seq<Color>
    decreases order.len(),
{
    if order.len() == 0 {
        pixels
    } else {
        let k = order.last() as int;
        paint_one_sprite(
            paint_sprites(pixels, depths, w, h, camera, sprites, screen_xs, order.drop_last()),
            depths,
            w,
            h,
            camera,
            sprites[k],
            screen_xs[k] as int,
        )
    }
}

/// The sprites can be drawn: each is well formed and has a screen column
/// within range.
pub open spec fn sprites_ok(sprites: Seq<Sprite>, screen_xs: Seq<i64>) -> bool {
    &&& screen_xs.len() == sprites.len()
    &&& forall|i: int| 0 <= i < sprites.len() ==> #[trigger] sprites[i].wf()
    &&& forall|i: int| 0 <= i < screen_xs.len() ==> -SCREEN_X_LIMIT <= #[trigger] screen_xs[i] <= SCREEN_X_LIMIT
}

/// Draws one sprite, centred on column `screen_x`, where it is nearer than the
/// depth buffer.
pub fn render_single_sprite_with_zbuffer(
    fb: &mut Framebuffer,
    sprite: &Sprite,
    camera: &Camera,
    z: &DepthBuffer,
    screen_x: i64,
)
    requires
        old(fb).wf(),
        z.wf(),
        z.width == old(fb).width,
        z.height == old(fb).height,
        1 <= old(fb).width <= MAX_SCREEN,
        old(fb).height <= MAX_SCREEN,
        camera.wf(),
        sprite.wf(),
        -SCREEN_X_LIMIT <= screen_x <= SCREEN_X_LIMIT,
    ensures
        final(fb).wf(),
        final(fb).width == old(fb).width,
        final(fb).height == old(fb).height,
        final(fb).current_color == old(fb).current_color,
        final(fb).pixels@ == paint_one_sprite(
            old(fb).pixels@,
            z.depths@,
            old(fb).width as int,
            old(fb).height as int,
            *camera,
            *sprite,
            screen_x as int,
        ),
{
    let quad = project_sprite(camera.x, camera.y, camera.dir, sprite.x, sprite.y, screen_x, fb.width, fb.height);
    match quad {
        Some(q) => {
            let frame = &sprite.texture_frames[sprite.animation_frame];
            draw_sprite_quad(fb, z, frame, q);
        },
        None => {},
    }
}

/// Draws every uncollected sprite, farthest first, each only where it is
/// nearer than the depth buffer. `screen_xs[i]` is the screen column of the
/// centre of sprite `i`.
pub fn render_sprites_with_zbuffer(
    fb: &mut Framebuffer,
    camera: &Camera,
    sprite_manager: &SpriteManager,
    z: &DepthBuffer,
    screen_xs: &Vec<i64>,
)
    requires
        old(fb).wf(),
        z.wf(),
        z.width == old(fb).width,
        z.height == old(fb).height,
        1 <= old(fb).width <= MAX_SCREEN,
        old(fb).height <= MAX_SCREEN,
        camera.wf(),
        sprites_ok(sprite_manager.sprites@, screen_xs@),
    ensures
        final(fb).wf(),
        final(fb).width == old(fb).width,
        final(fb).height == old(fb).height,
        final(fb).current_color == old(fb).current_color,
        exists|order: Seq<usize>|
            is_draw_order(camera.x as int, camera.y as int, sprite_manager.sprites@, order)
                && final(fb).pixels@ == paint_sprites(
                old(fb).pixels@,
                z.depths@,
                old(fb).width as int,
                old(fb).height as int,
                *camera,
                sprite_manager.sprites@,
                screen_xs@,
                order,
            ),
{
    let ghost old_px = fb.pixels@;
    let ghost w0 = fb.width as int;
    let ghost h0 = fb.height as int;
    let ghost sp = sprite_manager.sprites@;
    let order: Vec<usize> = sprite_draw_order(camera.x, camera.y, &sprite_manager.sprites);
    let mut k: usize = 0;
    while k < order.len()
        invariant
            fb.wf(),
            fb.width == w0,
            fb.height == h0,
            fb.current_color == old(fb).current_color,
            z.wf(),
            z.width == w0,
            z.height == h0,
            1 <= w0 <= MAX_SCREEN,
            h0 <= MAX_SCREEN,
            camera.wf(),
            sp == sprite_manager.sprites@,
            sprites_ok(sp, screen_xs@),
            is_draw_order(camera.x as int, camera.y as int, sp, order@),
            k <= order@.len(),
            fb.pixels@ == paint_sprites(old_px, z.depths@, w0, h0, *camera, sp, screen_xs@, order@.subrange(0, k as int)),
        decreases order@.len() - k,
    {
        let idx: usize = order[k];
        proof {
            assert(order@[k as int] < sp.len());
            assert(sp[idx as int].wf());
        }
        render_single_sprite_with_zbuffer(fb, &sprite_manager.sprites[idx], camera, z, screen_xs[idx]);
        proof {
            let next = order@.subrange(0, k + 1);
            assert(next.drop_last() =~= order@.subrange(0, k as int));
            assert(next.last() == idx);
        }
        k = k + 1;
    }
    proof {
        assert(order@.subrange(0, order@.len() as int) =~= order@);
    }
}

/// The depth buffer after the wall pass over an empty one.
pub open spec fn wall_depths(m: Seq<Vec<char>>, camera: Camera, cols: Seq<ColumnRay>, block: int, w: int, h: int) -> Seq<u64> {
    Seq::new(
        (w * h) as nat,
        |i: int| wall_pass_depth(crate::frame::DEPTH_INFINITE, m, camera, cols, block, w, h, i),
    )
}

/// The frame after the sky and floor pass and the wall pass over `pixels`.
pub open spec fn world_pixels(
    pixels: Seq<Color>,
    m: Seq<Vec<char>>,
    camera: Camera,
    cols: Seq<ColumnRay>,
    block: int,
    textures: TextureManager,
    w: int,
    h: int,
) -> Seq<Color> {
    Seq::new(
        pixels.len(),
        |i: int|
            wall_pass_pixel(
                background_pixel(pixels[i], textures.grass_texture, camera, cols, w, h, i),
                m,
                camera,
                cols,
                block,
                textures.stadium_texture,
                w,
                h,
                i,
            ),
    )
}

/// Renders one frame without sprites: sky, floor, then one wall slab per
/// column.
pub fn render_world_with_textures(
    fb: &mut Framebuffer,
    maze: &Maze,
    block_size: usize,
    camera: &Camera,
    cols: &Vec<ColumnRay>,
    texture_manager: &TextureManager,
)
    requires
        old(fb).wf(),
        view_ok(*camera, cols@, old(fb).width as int, old(fb).height as int),
        maze_fits(maze@, block_size as int),
        texture_manager.wf(),
    ensures
        final(fb).wf(),
        final(fb).width == old(fb).width,
        final(fb).height == old(fb).height,
        final(fb).pixels@ == world_pixels(
            old(fb).pixels@,
            maze@,
            *camera,
            cols@,
            block_size as int,
            *texture_manager,
            old(fb).width as int,
            old(fb).height as int,
        ),
{
    let ghost old_px = fb.pixels@;
    let ghost w0 = fb.width as int;
    let ghost h0 = fb.height as int;
    paint_sky_and_floor(fb, camera, cols, texture_manager);
    let ghost bg = fb.pixels@;
    proof {
        assert(w0 * h0 <= MAX_SCREEN * MAX_SCREEN) by (nonlinear_arith)
            requires
                0 <= w0 <= MAX_SCREEN,
                0 <= h0 <= MAX_SCREEN,
        ;
    }
    let mut z = DepthBuffer::new(fb.width, fb.height);
    render_walls(fb, &mut z, maze, block_size, camera, cols, texture_manager);
    proof {
        assert(fb.pixels@ =~= world_pixels(old_px, maze@, *camera, cols@, block_size as int, *texture_manager, w0, h0));
    }
}

/// Renders one frame: sky, floor, one wall slab per column (filling the depth
/// buffer), then the uncollected sprites farthest first, each pixel only where
/// the sprite is nearer than the wall there. `screen_xs[i]` is the screen
/// column of the centre of sprite `i`.
pub fn render_world_with_textures_and_sprites(
    fb: &mut Framebuffer,
    maze: &Maze,
    block_size: usize,
    camera: &Camera,
    cols: &Vec<ColumnRay>,
    texture_manager: &TextureManager,
    sprite_manager: &SpriteManager,
    screen_xs: &Vec<i64>,
)
    requires
        old(fb).wf(),
        view_ok(*camera, cols@, old(fb).width as int, old(fb).height as int),
        maze_fits(maze@, block_size as int),
        texture_manager.wf(),
        sprites_ok(sprite_manager.sprites@, screen_xs@),
    ensures
        final(fb).wf(),
        final(fb).width == old(fb).width,
        final(fb).height == old(fb).height,
        exists|order: Seq<usize>|
            is_draw_order(camera.x as int, camera.y as int, sprite_manager.sprites@, order)
                && final(fb).pixels@ == paint_sprites(
                world_pixels(
                    old(fb).pixels@,
                    maze@,
                    *camera,
                    cols@,
                    block_size as int,
                    *texture_manager,
                    old(fb).width as int,
                    old(fb).height as int,
                ),
                wall_depths(maze@, *camera, cols@, block_size as int, old(fb).width as int, old(fb).height as int),
                old(fb).width as int,
                old(fb).height as int,
                *camera,
                sprite_manager.sprites@,
                screen_xs@,
                order,
            ),
{
    let ghost old_px = fb.pixels@;
    let ghost w0 = fb.width as int;
    let ghost h0 = fb.height as int;
    paint_sky_and_floor(fb, camera, cols, texture_manager);
    proof {
        assert(w0 * h0 <= MAX_SCREEN * MAX_SCREEN) by (nonlinear_arith)
            requires
                0 <= w0 <= MAX_SCREEN,
                0 <= h0 <= MAX_SCREEN,
        ;
    }
    let mut z = DepthBuffer::new(fb.width, fb.height);
    let ghost z0 = z.depths@;
    render_walls(fb, &mut z, maze, block_size, camera, cols, texture_manager);
    proof {
        assert(fb.pixels@ =~= world_pixels(old_px, maze@, *camera, cols@, block_size as int, *texture_manager, w0, h0));
        assert(z.depths@ =~= wall_depths(maze@, *camera, cols@, block_size as int, w0, h0));
    }
    render_sprites_with_zbuffer(fb, camera, sprite_manager, &z, screen_xs);
}

impl SpriteManager {
    /// Draws the uncollected sprites over the frame, farthest first, with no
    /// wall in front of any of them.
    pub fn render_sprites_3d(&self, fb: &mut Framebuffer, camera: &Camera, screen_xs: &Vec<i64>)
        requires
            old(fb).wf(),
            1 <= old(fb).width <= MAX_SCREEN,
            old(fb).height <= MAX_SCREEN,
            camera.wf(),
            sprites_ok(self.sprites@, screen_xs@),
        ensures
            final(fb).wf(),
            final(fb).width == old(fb).width,
            final(fb).height == old(fb).height,
            exists|order: Seq<usize>|
                is_draw_order(camera.x as int, camera.y as int, self.sprites@, order) && final(fb).pixels@
                    == paint_sprites(
                    old(fb).pixels@,
                    Seq::new(
                        (old(fb).width * old(fb).height) as nat,
                        |i: int| crate::frame::DEPTH_INFINITE,
                    ),
                    old(fb).width as int,
                    old(fb).height as int,
                    *camera,
                    self.sprites@,
                    screen_xs@,
                    order,
                ),
    {
        proof {
            assert(fb.width * fb.height <= MAX_SCREEN * MAX_SCREEN) by (nonlinear_arith)
                requires
                    0 <= fb.width <= MAX_SCREEN,
                    0 <= fb.height <= MAX_SCREEN,
            ;
        }
        let z = DepthBuffer::new(fb.width, fb.height);
        proof {
            assert(z.depths@ =~= Seq::new(
                (fb.width * fb.height) as nat,
                |i: int| crate::frame::DEPTH_INFINITE,
            ));
        }
        render_sprites_with_zbuffer(fb, camera, self, &z, screen_xs);
    }

    /// Draws one sprite where it is nearer than the depth buffer.
    pub fn render_single_sprite(
        &self,
        fb: &mut Framebuffer,
        sprite: &Sprite,
        camera: &Camera,
        z: &DepthBuffer,
        screen_x: i64,
    )
        requires
            old(fb).wf(),
            z.wf(),
            z.width == old(fb).width,
            z.height == old(fb).height,
            1 <= old(fb).width <= MAX_SCREEN,
            old(fb).height <= MAX_SCREEN,
            camera.wf(),
            sprite.wf(),
            -SCREEN_X_LIMIT <= screen_x <= SCREEN_X_LIMIT,
        ensures
            final(fb).wf(),
            final(fb).width == old(fb).width,
            final(fb).height == old(fb).height,
            final(fb).pixels@ == paint_one_sprite(
                old(fb).pixels@,
                z.depths@,
                old(fb).width as int,
                old(fb).height as int,
                *camera,
                *sprite,
                screen_x as int,
            ),
    {
        render_single_sprite_with_zbuffer(fb, sprite, camera, z, screen_x);
    }
}

/// Radius, in world units, within which a ray touches a sprite.
pub const SPRITE_RADIUS: i64 = 15;

/// The nearest uncollected sprite that a ray touches.
#[derive(Clone, Copy, Debug, PartialEq, Eq, Structural)]
pub struct SpriteHit {
    /// Distance along the ray to the point nearest the sprite, in sub-units.
    pub distance: i64,
    pub sprite_index: usize,
    /// The point of the ray nearest the sprite, in fine units.
    pub hit_x: i64,
    pub hit_y: i64,
}

/// How far along `ray` (fine units) the point nearest sprite `s` lies.
pub open spec fn ray_projection(camera_x: int, camera_y: int, ray: Ray, s: Sprite) -> int {
    (s.x - camera_x) * ray.dx + (s.y - camera_y) * ray.dy
}

/// How far sprite `s` lies from the line of `ray`, in fine units, signed.
pub open spec fn ray_offset(camera_x: int, camera_y: int, ray: Ray, s: Sprite) -> int {
    (s.x - camera_x) * ray.dy - (s.y - camera_y) * ray.dx
}

/// The ray touches sprite `s` ahead of the camera, nearer than `limit`
/// sub-units.
pub open spec fn ray_touches(camera_x: int, camera_y: int, ray: Ray, s: Sprite, limit: int) -> bool {
    let p = ray_projection(camera_x, camera_y, ray, s);
    let o = ray_offset(camera_x, camera_y, ray, s);
    &&& !s.collected
    &&& 0 <= p
    &&& p < limit * FIX
    &&& -SPRITE_RADIUS * FIX * FIX <= o <= SPRITE_RADIUS * FIX * FIX
}

/// Among the uncollected sprites within `SPRITE_RADIUS` of the ray, ahead of
/// the camera and nearer than `max_distance` (sub-units), the one whose nearest
/// ray point comes first; the earliest in the collection on a tie.
pub fn check_sprite_intersection(camera: &Camera, ray: Ray, max_distance: i64, sprite_manager: &SpriteManager) -> (r:
    Option<SpriteHit>)
    requires
        camera.wf(),
        ray.wf(),
        0 <= max_distance <= POS_LIMIT,
        sprite_manager.wf(),
    ensures
        match r {
            None => forall|j: int|
                0 <= j < sprite_manager.sprites@.len() ==> !ray_touches(
                    camera.x as int,
                    camera.y as int,
                    ray,
                    #[trigger] sprite_manager.sprites@[j],
                    max_distance as int,
                ),
            Some(h) => {
                let s = sprite_manager.sprites@[h.sprite_index as int];
                let p = ray_projection(camera.x as int, camera.y as int, ray, s);
                &&& h.sprite_index < sprite_manager.sprites@.len()
                &&& ray_touches(camera.x as int, camera.y as int, ray, s, max_distance as int)
                &&& h.distance == p / (FIX as int)
                &&& h.hit_x == camera.x * FIX + (p / (FIX as int)) * ray.dx
                &&& h.hit_y == camera.y * FIX + (p / (FIX as int)) * ray.dy
                &&& forall|j: int|
                    0 <= j < sprite_manager.sprites@.len() && ray_touches(
                        camera.x as int,
                        camera.y as int,
                        ray,
                        #[trigger] sprite_manager.sprites@[j],
                        max_distance as int,
                    ) ==> p < ray_projection(camera.x as int, camera.y as int, ray, sprite_manager.sprites@[j]) || (p
                        == ray_projection(camera.x as int, camera.y as int, ray, sprite_manager.sprites@[j]) && h.sprite_index <= j)
            },
        },
{
    let ghost sp = sprite_manager.sprites@;
    let ghost cx = camera.x as int;
    let ghost cy = camera.y as int;
    let mut best: Option<SpriteHit> = None;
    let mut best_p: i128 = 0;
    let n: usize = sprite_manager.sprites.len();
    let mut i: usize = 0;
    while i < n
        invariant
            n == sp.len(),
            sp == sprite_manager.sprites@,
            cx == camera.x,
            cy == camera.y,
            sprite_manager.wf(),
            camera.wf(),
            ray.wf(),
            0 <= max_distance <= POS_LIMIT,
            i <= n,
            match best {
                None => forall|j: int| 0 <= j < i ==> !ray_touches(cx, cy, ray, #[trigger] sp[j], max_distance as int),
                Some(h) => {
                    let s = sp[h.sprite_index as int];
                    let p = ray_projection(cx, cy, ray, s);
                    &&& h.sprite_index < i
                    &&& best_p == p
                    &&& ray_touches(cx, cy, ray, s, max_distance as int)
                    &&& h.distance == p / (FIX as int)
                    &&& h.hit_x == camera.x * FIX + (p / (FIX as int)) * ray.dx
                    &&& h.hit_y == camera.y * FIX + (p / (FIX as int)) * ray.dy
                    &&& forall|j: int|
                        0 <= j < i && ray_touches(cx, cy, ray, #[trigger] sp[j], max_distance as int) ==> p
                            < ray_projection(cx, cy, ray, sp[j]) || (p == ray_projection(cx, cy, ray, sp[j])
                            && h.sprite_index <= j)
                },
            },
        decreases n - i,
    {
        proof {
            assert(sp[i as int].wf());
        }
        let s = &sprite_manager.sprites[i];
        if !s.collected {
            let dx: i128 = s.x as i128 - camera.x as i128;
            let dy: i128 = s.y as i128 - camera.y as i128;
            assert(-2 * POS_LIMIT * FIX <= dx * ray.dx <= 2 * POS_LIMIT * FIX) by (nonlinear_arith)
                requires
                    -2 * POS_LIMIT <= dx <= 2 * POS_LIMIT,
                    -FIX <= ray.dx <= FIX,
            ;
            assert(-2 * POS_LIMIT * FIX <= dy * ray.dy <= 2 * POS_LIMIT * FIX) by (nonlinear_arith)
                requires
                    -2 * POS_LIMIT <= dy <= 2 * POS_LIMIT,
                    -FIX <= ray.dy <= FIX,
            ;
            assert(-2 * POS_LIMIT * FIX <= dx * ray.dy <= 2 * POS_LIMIT * FIX) by (nonlinear_arith)
                requires
                    -2 * POS_LIMIT <= dx <= 2 * POS_LIMIT,
                    -FIX <= ray.dy <= FIX,
            ;
            assert(-2 * POS_LIMIT * FIX <= dy * ray.dx <= 2 * POS_LIMIT * FIX) by (nonlinear_arith)
                requires
                    -2 * POS_LIMIT <= dy <= 2 * POS_LIMIT,
                    -FIX <= ray.dx <= FIX,
            ;
            let p: i128 = dx * ray.dx as i128 + dy * ray.dy as i128;
            let o: i128 = dx * ray.dy as i128 - dy * ray.dx as i128;
            let radius: i128 = SPRITE_RADIUS as i128 * FIX as i128 * FIX as i128;
            let limit: i128 = max_distance as i128 * FIX as i128;
            let closer: bool = match best {
                None => true,
                Some(_) => p < best_p,
            };
            proof {
                let sx = sp[i as int].x as int;
                let sy = sp[i as int].y as int;
                assert(dx == sx - cx && dy == sy - cy);
                assert(p == (sx - cx) * ray.dx + (sy - cy) * ray.dy) by (nonlinear_arith)
                    requires
                        dx == sx - cx,
                        dy == sy - cy,
                        p == dx * ray.dx + dy * ray.dy,
                ;
                assert(o == (sx - cx) * ray.dy - (sy - cy) * ray.dx) by (nonlinear_arith)
                    requires
                        dx == sx - cx,
                        dy == sy - cy,
                        o == dx * ray.dy - dy * ray.dx,
                ;
            }
            if 0 <= p && p < limit && -radius <= o && o <= radius && closer {
                let d: i64 = (p / FIX as i128) as i64;
                assert(-POS_LIMIT * 4 * FIX <= d * ray.dx <= POS_LIMIT * 4 * FIX) by (nonlinear_arith)
                    requires
                        0 <= d <= 4 * POS_LIMIT,
                        -FIX <= ray.dx <= FIX,
                ;
                assert(-POS_LIMIT * 4 * FIX <= d * ray.dy <= POS_LIMIT * 4 * FIX) by (nonlinear_arith)
                    requires
                        0 <= d <= 4 * POS_LIMIT,
                        -FIX <= ray.dy <= FIX,
                ;
                let hx: i64 = camera.x * FIX + d * ray.dx;
                let hy: i64 = camera.y * FIX + d * ray.dy;
                best = Some(SpriteHit { distance: d, sprite_index: i, hit_x: hx, hit_y: hy });
                best_p = p;
            }
        }
        i = i + 1;
    }
    best
}

/// Half the height, in rows, of an untextured wall column at raw distance `d`.
pub open spec fn flat_half(h: int, d: int) -> int {
    if d <= 0 {
        h
    } else {
        35 * h * FIX / (2 * d)
    }
}

/// The untextured view at pixel `i`: a light column wherever the ray of its
/// screen column struck a wall, else sky above the horizon and grass below.
pub open spec fn flat_pixel(m: Seq<Vec<char>>, camera: Camera, cols: Seq<ColumnRay>, block: int, w: int, h: int, i: int) -> Color {
    let x = i % w;
    let y = i / w;
    let hit = column_hit(m, camera, cols, block, x);
    let half = flat_half(h, hit.distance as int);
    if hit.wall && h / 2 - half <= y < h / 2 + half {
        Color { r: 245, g: 245, b: 245, a: 255 }
    } else if y < h / 2 {
        Color { r: 102, g: 191, b: 255, a: 255 }
    } else {
        Color { r: 0, g: 117, b: 44, a: 255 }
    }
}

/// Renders one untextured frame: sky and grass, then one light column per
/// screen column whose ray meets a wall, its height inversely proportional to
/// the raw ray distance.
pub fn render_world(fb: &mut Framebuffer, maze: &Maze, block_size: usize, camera: &Camera, cols: &Vec<ColumnRay>)
    requires
        old(fb).wf(),
        view_ok(*camera, cols@, old(fb).width as int, old(fb).height as int),
        maze_fits(maze@, block_size as int),
    ensures
        final(fb).wf(),
        final(fb).width == old(fb).width,
        final(fb).height == old(fb).height,
        final(fb).pixels@ == Seq::new(
            old(fb).pixels@.len(),
            |i: int|
                flat_pixel(maze@, *camera, cols@, block_size as int, old(fb).width as int, old(fb).height as int, i),
        ),
{
    let ghost w0 = fb.width as int;
    let ghost h0 = fb.height as int;
    let w: usize = fb.width;
    let h: usize = fb.height;
    let n: usize = fb.pixels.len();
    let mut col: usize = 0;
    while col < w
        invariant
            fb.wf(),
            fb.width == w,
            fb.height == h,
            w == w0,
            h == h0,
            n == w0 * h0,
            fb.pixels@.len() == n,
            view_ok(*camera, cols@, w0, h0),
            maze_fits(maze@, block_size as int),
            col <= w,
            forall|k: int|
                0 <= k < n && k % w0 < col ==> #[trigger] fb.pixels@[k] == flat_pixel(
                    maze@,
                    *camera,
                    cols@,
                    block_size as int,
                    w0,
                    h0,
                    k,
                ),
        decreases w - col,
    {
        proof {
            assert(cols@[col as int].wf());
        }
        let hit: Intersect = cast_ray(maze, camera.x, camera.y, cols[col].ray, block_size);
        let hh: i64 = h as i64 / 2;
        let half: i64 = if hit.distance == 0 {
            h as i64
        } else {
            assert(35 * h * FIX / (2 * hit.distance as int) <= 35 * h * FIX) by (nonlinear_arith)
                requires
                    0 <= h <= MAX_SCREEN,
                    1 <= hit.distance,
            ;
            35 * (h as i64) * FIX / (2 * hit.distance)
        };
        let mut y: usize = 0;
        while y < h
            invariant
                fb.wf(),
                fb.width == w,
                fb.height == h,
                w == w0,
                h == h0,
                n == w0 * h0,
                fb.pixels@.len() == n,
                view_ok(*camera, cols@, w0, h0),
                col < w,
                y <= h,
                hit == column_hit(maze@, *camera, cols@, block_size as int, col as int),
                hh == h0 / 2,
                half == flat_half(h0, hit.distance as int),
                forall|k: int|
                    0 <= k < n && (k % w0 < col || (k % w0 == col && k / w0 < y)) ==> #[trigger] fb.pixels@[k]
                        == flat_pixel(maze@, *camera, cols@, block_size as int, w0, h0, k),
            decreases h - y,
        {
            proof {
                lemma_index_in_grid(w as int, h as int, col as int, y as int);
                lemma_fundamental_div_mod_converse(y * w + col, w as int, y as int, col as int);
                assert(0 <= y * w <= MAX_SCREEN * MAX_SCREEN) by (nonlinear_arith)
                    requires
                        0 <= y <= MAX_SCREEN,
                        0 <= w <= MAX_SCREEN,
                ;
            }
            let idx: usize = y * w + col;
            let yi: i64 = y as i64;
            let c: Color = if hit.wall && hh - half <= yi && yi < hh + half {
                Color::new(245, 245, 245, 255)
            } else if yi < hh {
                Color::sky_blue()
            } else {
                Color::new(0, 117, 44, 255)
            };
            fb.pixels.set(idx, c);
            proof {
                assert forall|k: int|
                    0 <= k < n && (k % w0 < col || (k % w0 == col && k / w0 < y + 1)) implies #[trigger] fb.pixels@[k]
                        == flat_pixel(maze@, *camera, cols@, block_size as int, w0, h0, k) by {
                    lemma_row_col(k, w0, h0);
                    if k % w0 == col && k / w0 == y {
                        assert(k == idx);
                    }
                }
            }
            y = y + 1;
        }
        proof {
            assert forall|k: int| 0 <= k < n && k % w0 < col + 1 implies #[trigger] fb.pixels@[k] == flat_pixel(
                maze@,
                *camera,
                cols@,
                block_size as int,
                w0,
                h0,
                k,
            ) by {
                lemma_row_col(k, w0, h0);
            }
        }
        col = col + 1;
    }
    proof {
        assert forall|k: int| 0 <= k < n implies #[trigger] fb.pixels@[k] == flat_pixel(
            maze@,
            *camera,
            cols@,
            block_size as int,
            w0,
            h0,
            k,
        ) by {
            lemma_row_col(k, w0, h0);
        }
        assert(fb.pixels@ =~= Seq::new(n as nat, |i: int| flat_pixel(maze@, *camera, cols@, block_size as int, w0, h0, i)));
    }
}

} // verus!
