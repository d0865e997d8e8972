//! The top-down view of the map.

use vstd::prelude::*;
use crate::frame::{Color, Framebuffer, MAX_SCREEN, lemma_row_col};
use crate::maze::{Maze, OPEN_CELL, maze_cell};
use crate::caster::FIX;
use crate::sprites::{Sprite, SpriteManager};
use vstd::arithmetic::div_mod::lemma_fundamental_div_mod_converse;

verus! {

/// The map color of a cell kind.
pub open spec fn cell_color(cell: char) -> Color {
    if cell == '+' || cell == '-' || cell == '|' || cell == '1' {
        Color { r: 139, g: 69, b: 19, a: 255 }
    } else if cell == 'g' {
        Color { r: 0, g: 128, b: 0, a: 255 }
    } else if cell == '2' {
        Color { r: 105, g: 105, b: 105, a: 255 }
    } else if cell == '3' {
        Color { r: 255, g: 215, b: 0, a: 255 }
    } else {
        Color { r: 34, g: 139, b: 34, a: 255 }
    }
}

pub fn cell_to_color(cell: char) -> (r: Color)
    ensures
        r == cell_color(cell),
{
    if cell == '+' || cell == '-' || cell == '|' || cell == '1' {
        Color::new(139, 69, 19, 255)
    } else if cell == 'g' {
        Color::new(0, 128, 0, 255)
    } else if cell == '2' {
        Color::new(105, 105, 105, 255)
    } else if cell == '3' {
        Color::new(255, 215, 0, 255)
    } else {
        Color::new(34, 139, 34, 255)
    }
}

/// The top-down view at pixel `(x, y)` over `old`: each wall cell is a
/// `block` by `block` square in its kind's color; open cells and points off
/// the map keep their color.
pub open spec fn map_pixel(old: Color, m: Seq<Vec<char>>, block: int, x: int, y: int) -> Color {
    let col = x / block;
    let row = y / block;
    if row < m.len() && col < m[row]@.len() && m[row]@[col] != OPEN_CELL {
        cell_color(m[row]@[col])
    } else {
        old
    }
}

/// Draws the map from above, one `block_size` square per wall cell.
pub fn render_maze(fb: &mut Framebuffer, maze: &Maze, block_size: usize)
    requires
        old(fb).wf(),
        1 <= old(fb).width <= MAX_SCREEN,
        old(fb).height <= MAX_SCREEN,
        1 <= block_size,
    ensures
        final(fb).wf(),
        final(fb).width == old(fb).width,
        final(fb).height == old(fb).height,
        final(fb).current_color == old(fb).current_color,
        final(fb).pixels@ == Seq::new(
            old(fb).pixels@.len(),
            |i: int|
                map_pixel(
                    old(fb).pixels@[i],
                    maze@,
                    block_size as int,
                    i % (old(fb).width as int),
                    i / (old(fb).width as int),
                ),
        ),
{
    let ghost old_px = fb.pixels@;
    let ghost w0 = fb.width as int;
    let ghost h0 = fb.height as int;
    let w: usize = fb.width;
    let n: usize = fb.pixels.len();
    let mut i: usize = 0;
    while i < n
        invariant
            fb.wf(),
            fb.width == w,
            w == w0,
            fb.height == h0,
            1 <= w0,
            fb.current_color == old(fb).current_color,
            n == old_px.len(),
            n == w0 * h0,
            1 <= block_size,
            fb.pixels@.len() == n,
            i <= n,
            forall|k: int|
                0 <= k < n ==> #[trigger] fb.pixels@[k] == if k < i {
                    map_pixel(old_px[k], maze@, block_size as int, k % w0, k / w0)
                } else {
                    old_px[k]
                },
        decreases n - i,
    {
        proof {
            lemma_row_col(i as int, w0, h0);
        }
        let x: usize = i % w;
        let y: usize = i / w;
        match maze_cell(maze, x / block_size, y / block_size) {
            Some(c) => {
                if c != OPEN_CELL {
                    let color = cell_to_color(c);
                    fb.pixels.set(i, color);
                }
            },
            None => {},
        }
        i = i + 1;
    }
    proof {
        assert(fb.pixels@ =~= Seq::new(
            old_px.len(),
            |k: int| map_pixel(old_px[k], maze@, block_size as int, k % w0, k / w0),
        ));
    }
}

/// Columns of the map that the sprite minimap spans.
pub const MINIMAP_COLS: i64 = 15;

/// Rows of the map that the sprite minimap spans.
pub const MINIMAP_ROWS: i64 = 11;

/// Radius, in pixels, of a sprite's dot on the minimap.
pub const DOT_RADIUS: i64 = 4;

/// Where coordinate `p` (sub-units) lands on a minimap of `size` pixels that
/// spans `cells` cells of `block` world units, starting at pixel `offset`.
pub open spec fn minimap_coord(p: int, offset: int, size: int, cells: int, block: int) -> int {
    offset + if p < 0 {
        0
    } else {
        p * size / (cells * block * FIX)
    }
}

/// Pixel `(x, y)` lies on the minimap dot of sprite `s`.
pub open spec fn on_dot(s: Sprite, w: int, size: int, block: int, x: int, y: int) -> bool {
    let cx = minimap_coord(s.x as int, w - size - 10, size, MINIMAP_COLS as int, block);
    let cy = minimap_coord(s.y as int, 10, size, MINIMAP_ROWS as int, block);
    !s.collected && (x - cx) * (x - cx) + (y - cy) * (y - cy) <= DOT_RADIUS * DOT_RADIUS
}

/// Pixel `(x, y)` lies on the dot of one of the first `n` sprites.
pub open spec fn dotted(sprites: Seq<Sprite>, n: int, w: int, size: int, block: int, x: int, y: int) -> bool {
    exists|j: int| 0 <= j < n && #[trigger] on_dot(sprites[j], w, size, block, x, y)
}

proof fn lemma_off_dot(a: int, b: int)
    requires
        a < -DOT_RADIUS || a > DOT_RADIUS || b < -DOT_RADIUS || b > DOT_RADIUS,
    ensures
        a * a + b * b > DOT_RADIUS * DOT_RADIUS,
{
    assert(a * a + b * b > 16) by (nonlinear_arith)
        requires
            a < -4 || a > 4 || b < -4 || b > 4,
    ;
}

fn minimap_pos(p: i64, offset: i64, size: usize, cells: i64, block: usize) -> (r: i64)
    requires
        -crate::caster::POS_LIMIT <= p <= crate::caster::POS_LIMIT,
        0 <= offset <= MAX_SCREEN,
        size <= MAX_SCREEN,
        1 <= cells <= 15,
        1 <= block,
        block <= crate::maze::MAX_BLOCK,
    ensures
        r == minimap_coord(p as int, offset as int, size as int, cells as int, block as int),
        offset <= r <= offset + crate::caster::POS_LIMIT * MAX_SCREEN,
{
    if p < 0 {
        offset
    } else {
        assert(0 < cells * block <= 15 * 65536) by (nonlinear_arith)
            requires
                1 <= cells <= 15,
                1 <= block <= 65536,
        ;
        let den: i128 = cells as i128 * block as i128 * FIX as i128;
        assert(den >= 1) by (nonlinear_arith)
            requires
                den == cells * block * FIX,
                cells >= 1,
                block >= 1,
                FIX == 1024,
        ;
        assert(0 <= p * size <= crate::caster::POS_LIMIT * MAX_SCREEN) by (nonlinear_arith)
            requires
                0 <= p <= crate::caster::POS_LIMIT,
                0 <= size <= MAX_SCREEN,
        ;
        let q: i128 = p as i128 * size as i128 / den;
        assert(q <= p * size) by (nonlinear_arith)
            requires
                q == p * size / (den as int),
                den >= 1,
                p * size >= 0,
        ;
        offset + q as i64
    }
}

impl SpriteManager {
    /// Marks each uncollected sprite on the minimap in the top right corner
    /// with a gold dot.
    pub fn render_minimap_sprites(&self, fb: &mut Framebuffer, minimap_size: usize, block_size: usize)
        requires
            old(fb).wf(),
            1 <= old(fb).width <= MAX_SCREEN,
            old(fb).height <= MAX_SCREEN,
            minimap_size + 10 <= old(fb).width,
            1 <= block_size <= crate::maze::MAX_BLOCK,
            self.wf(),
        ensures
            final(fb).wf(),
            final(fb).width == old(fb).width,
            final(fb).height == old(fb).height,
            final(fb).current_color == old(fb).current_color,
            final(fb).pixels@ == Seq::new(
                old(fb).pixels@.len(),
                |i: int|
                    if dotted(
                        self.sprites@,
                        self.sprites@.len() as int,
                        old(fb).width as int,
                        minimap_size as int,
                        block_size as int,
                        i % (old(fb).width as int),
                        i / (old(fb).width as int),
                    ) {
                        Color { r: 255, g: 203, b: 0, a: 255 }
                    } else {
                        old(fb).pixels@[i]
                    },
            ),
    {
        let ghost old_px = fb.pixels@;
        let ghost w0 = fb.width as int;
        let ghost h0 = fb.height as int;
        let ghost sp = self.sprites@;
        let ghost ms = minimap_size as int;
        let ghost bs = block_size as int;
        let gold = Color::gold();
        let w: i64 = fb.width as i64;
        let h: i64 = fb.height as i64;
        let ox: i64 = w - minimap_size as i64 - 10;
        let mut j: usize = 0;
        while j < self.sprites.len()
            invariant
                fb.wf(),
                fb.width == w0,
                fb.height == h0,
                w == w0,
                h == h0,
                1 <= w0 <= MAX_SCREEN,
                0 <= h0 <= MAX_SCREEN,
                ox == w0 - ms - 10,
                0 <= ox,
                ms <= MAX_SCREEN,
                1 <= bs <= crate::maze::MAX_BLOCK,
                ms == minimap_size,
                bs == block_size,
                gold == (Color { r: 255, g: 203, b: 0, a: 255 }),
                fb.current_color == old(fb).current_color,
                sp == self.sprites@,
                self.wf(),
                j <= sp.len(),
                fb.pixels@.len() == old_px.len(),
                old_px.len() == w0 * h0,
                forall|i: int|
                    0 <= i < old_px.len() ==> #[trigger] fb.pixels@[i] == if dotted(sp, j as int, w0, ms, bs, i % w0, i / w0) {
                        gold
                    } else {
                        old_px[i]
                    },
            decreases sp.len() - j,
        {
            proof {
                assert(sp[j as int].wf());
            }
            let s = &self.sprites[j];
            let ghost before_px = fb.pixels@;
            if !s.collected {
                let cx: i64 = minimap_pos(s.x, ox, minimap_size, MINIMAP_COLS, block_size);
                let cy: i64 = minimap_pos(s.y, 10, minimap_size, MINIMAP_ROWS, block_size);
                let mut dy: i64 = -DOT_RADIUS;
                proof {
                    assert forall|i: int| 0 <= i < old_px.len() implies #[trigger] fb.pixels@[i] == if (i / w0 - cy < dy
                        && (i % w0 - cx) * (i % w0 - cx) + (i / w0 - cy) * (i / w0 - cy) <= 16) {
                        gold
                    } else {
                        before_px[i]
                    } by {
                        if i / w0 - cy < dy {
                            lemma_off_dot(i % w0 - cx, i / w0 - cy);
                        }
                    }
                }
                while dy <= DOT_RADIUS
                    invariant
                        fb.wf(),
                        fb.width == w0,
                        fb.height == h0,
                        w == w0,
                        h == h0,
                        1 <= w0 <= MAX_SCREEN,
                        0 <= h0 <= MAX_SCREEN,
                        fb.current_color == old(fb).current_color,
                        -DOT_RADIUS <= dy <= DOT_RADIUS + 1,
                        0 <= cx <= MAX_SCREEN + crate::caster::POS_LIMIT * MAX_SCREEN,
                        10 <= cy <= 10 + crate::caster::POS_LIMIT * MAX_SCREEN,
                        fb.pixels@.len() == old_px.len(),
                        before_px.len() == old_px.len(),
                        old_px.len() == w0 * h0,
                        forall|i: int|
                            0 <= i < old_px.len() ==> #[trigger] fb.pixels@[i] == if (i / w0 - cy < dy
                                && (i % w0 - cx) * (i % w0 - cx) + (i / w0 - cy) * (i / w0 - cy) <= 16) {
                                gold
                            } else {
                                before_px[i]
                            },
                    decreases DOT_RADIUS + 1 - dy,
                {
                    let mut dx: i64 = -DOT_RADIUS;
                    proof {
                        assert forall|i: int| 0 <= i < old_px.len() implies #[trigger] fb.pixels@[i] == if ((i / w0 - cy
                            < dy || (i / w0 - cy == dy && i % w0 - cx < dx)) && (i % w0 - cx) * (i % w0 - cx) + (i / w0
                            - cy) * (i / w0 - cy) <= 16) {
                            gold
                        } else {
                            before_px[i]
                        } by {
                            if i / w0 - cy == dy && i % w0 - cx < dx {
                                lemma_off_dot(i % w0 - cx, i / w0 - cy);
                            }
                        }
                    }
                    while dx <= DOT_RADIUS
                        invariant
                            fb.wf(),
                            fb.width == w0,
                            fb.height == h0,
                            w == w0,
                            h == h0,
                            1 <= w0 <= MAX_SCREEN,
                            0 <= h0 <= MAX_SCREEN,
                            fb.current_color == old(fb).current_color,
                            -DOT_RADIUS <= dy <= DOT_RADIUS,
                            -DOT_RADIUS <= dx <= DOT_RADIUS + 1,
                            0 <= cx <= MAX_SCREEN + crate::caster::POS_LIMIT * MAX_SCREEN,
                            10 <= cy <= 10 + crate::caster::POS_LIMIT * MAX_SCREEN,
                            fb.pixels@.len() == old_px.len(),
                            before_px.len() == old_px.len(),
                            old_px.len() == w0 * h0,
                            forall|i: int|
                                0 <= i < old_px.len() ==> #[trigger] fb.pixels@[i] == if ((i / w0 - cy < dy || (i / w0
                                    - cy == dy && i % w0 - cx < dx)) && (i % w0 - cx) * (i % w0 - cx) + (i / w0 - cy) * (
                                i / w0 - cy) <= 16) {
                                    gold
                                } else {
                                    before_px[i]
                                },
                        decreases DOT_RADIUS + 1 - dx,
                    {
                        let x: i64 = cx + dx;
                        let y: i64 = cy + dy;
                        assert(0 <= dx * dx <= 16) by (nonlinear_arith)
                            requires
                                -4 <= dx <= 4,
                        ;
                        assert(0 <= dy * dy <= 16) by (nonlinear_arith)
                            requires
                                -4 <= dy <= 4,
                        ;
                        let sq: i64 = dx * dx + dy * dy;
                        if sq <= 16 && 0 <= x && x < w && 0 <= y && y < h {
                            proof {
                                crate::frame::lemma_index_in_grid(w0, h0, x as int, y as int);
                                lemma_fundamental_div_mod_converse(y * w + x, w0, y as int, x as int);
                                assert(0 <= y * w <= MAX_SCREEN * MAX_SCREEN) by (nonlinear_arith)
                                    requires
                                        0 <= y <= MAX_SCREEN,
                                        0 <= w <= MAX_SCREEN,
                                ;
                            }
                            let idx: usize = (y * w + x) as usize;
                            fb.pixels.set(idx, gold);
                        }
                        proof {
                            assert forall|i: int| 0 <= i < old_px.len() implies #[trigger] fb.pixels@[i] == if ((i / w0 - cy
                                < dy || (i / w0 - cy == dy && i % w0 - cx < dx + 1)) && (i % w0 - cx) * (i % w0 - cx) + (
                            i / w0 - cy) * (i / w0 - cy) <= 16) {
                                gold
                            } else {
                                before_px[i]
                            } by {
                                lemma_row_col(i, w0, h0);
                                if i / w0 == y && i % w0 == x {
                                    assert(i == y * w0 + x);
                                }
                            }
                        }
                        dx = dx + 1;
                    }
                    proof {
                        assert forall|i: int| 0 <= i < old_px.len() implies #[trigger] fb.pixels@[i] == if (i / w0 - cy
                            < dy + 1 && (i % w0 - cx) * (i % w0 - cx) + (i / w0 - cy) * (i / w0 - cy) <= 16) {
                            gold
                        } else {
                            before_px[i]
                        } by {
                            let a = i % w0 - cx;
                            if i / w0 - cy == dy && a >= dx {
                                lemma_off_dot(a, i / w0 - cy);
                            }
                        }
                    }
                    dy = dy + 1;
                }
                proof {
                    assert forall|i: int| 0 <= i < old_px.len() implies #[trigger] fb.pixels@[i] == if dotted(
                        sp,
                        j + 1,
                        w0,
                        ms,
                        bs,
                        i % w0,
                        i / w0,
                    ) {
                        gold
                    } else {
                        old_px[i]
                    } by {
                        let b = i / w0 - cy;
                        let a = i % w0 - cx;
                        if b >= dy {
                            lemma_off_dot(a, b);
                        }
                        if on_dot(sp[j as int], w0, ms, bs, i % w0, i / w0) {
                            assert(dotted(sp, j + 1, w0, ms, bs, i % w0, i / w0));
                        }
                        if dotted(sp, j + 1, w0, ms, bs, i % w0, i / w0) && !on_dot(sp[j as int], w0, ms, bs, i % w0, i / w0) {
                            let jj = choose|jj: int| 0 <= jj < j + 1 && #[trigger] on_dot(sp[jj], w0, ms, bs, i % w0, i / w0);
                            assert(dotted(sp, j as int, w0, ms, bs, i % w0, i / w0));
                        }
                        if dotted(sp, j as int, w0, ms, bs, i % w0, i / w0) {
                            let jj = choose|jj: int| 0 <= jj < j && #[trigger] on_dot(sp[jj], w0, ms, bs, i % w0, i / w0);
                            assert(dotted(sp, j + 1, w0, ms, bs, i % w0, i / w0));
                        }
                    }
                }
            } else {
                proof {
                    assert forall|i: int| 0 <= i < old_px.len() implies #[trigger] fb.pixels@[i] == if dotted(
                        sp,
                        j + 1,
                        w0,
                        ms,
                        bs,
                        i % w0,
                        i / w0,
                    ) {
                        gold
                    } else {
                        old_px[i]
                    } by {
                        if dotted(sp, j + 1, w0, ms, bs, i % w0, i / w0) {
                            let jj = choose|jj: int| 0 <= jj < j + 1 && #[trigger] on_dot(sp[jj], w0, ms, bs, i % w0, i / w0);
                            assert(dotted(sp, j as int, w0, ms, bs, i % w0, i / w0));
                        }
                        if dotted(sp, j as int, w0, ms, bs, i % w0, i / w0) {
                            let jj = choose|jj: int| 0 <= jj < j && #[trigger] on_dot(sp[jj], w0, ms, bs, i % w0, i / w0);
                            assert(dotted(sp, j + 1, w0, ms, bs, i % w0, i / w0));
                        }
                    }
                }
            }
            j = j + 1;
        }
        proof {
            assert(fb.pixels@ =~= Seq::new(
                old_px.len(),
                |i: int| if dotted(sp, sp.len() as int, w0, ms, bs, i % w0, i / w0) {
                    Color { r: 255, g: 203, b: 0, a: 255 }
                } else {
                    old_px[i]
                },
            ));
        }
    }
}

} // verus!
