//! The grid map: one character per cell, blank for open space.

use vstd::prelude::*;
use crate::caster::FIX;

verus! {

/// Rows of cells; every row has the same length.
pub type Maze = Vec<Vec<char>>;

/// The cell symbol of open space.
pub const OPEN_CELL: char = ' ';

/// The cell symbol that marks where a sprite starts.
pub const SPRITE_MARK: char = '.';

/// Largest block size, in world units, that the geometry accepts.
pub const MAX_BLOCK: usize = 65536;

/// Largest extent of a map, in world units, along either axis.
pub const MAX_WORLD: usize = 1048576;

pub open spec fn is_rectangular(m: Seq<Vec<char>>) -> bool {
    forall|j: int| 0 <= j < m.len() ==> #[trigger] m[j]@.len() == m[0]@.len()
}

/// The map is rectangular and, at `block` world units per cell, fits the
/// coordinate range of the geometry.
pub open spec fn maze_fits(m: Seq<Vec<char>>, block: int) -> bool {
    &&& is_rectangular(m)
    &&& 1 <= block <= MAX_BLOCK
    &&& m.len() * block <= MAX_WORLD
    &&& forall|j: int| 0 <= j < m.len() ==> #[trigger] m[j]@.len() * block <= MAX_WORLD
}

/// A sprite's starting point, in sub-units.
#[derive(Clone, Copy, Debug, PartialEq, Eq, Structural)]
pub struct SpritePosition {
    pub x: i64,
    pub y: i64,
}

/// The centre of cell `(col, row)`, in sub-units.
pub open spec fn cell_centre(col: int, row: int, block: int) -> SpritePosition {
    SpritePosition {
        x: (col * block * FIX + block * FIX / 2) as i64,
        y: (row * block * FIX + block * FIX / 2) as i64,
    }
}

/// The centres of the marked cells among the first `i` cells of row `j`.
pub open spec fn markers_in_row(row: Seq<char>, j: int, block: int, i: int) -> Seq<SpritePosition>
    decreases i,
{
    if i <= 0 {
        Seq::empty()
    } else {
        markers_in_row(row, j, block, i - 1) + if row[i - 1] == SPRITE_MARK {
            seq![cell_centre(i - 1, j, block)]
        } else {
            Seq::empty()
        }
    }
}

/// The centres of the marked cells in the first `j` rows, row after row.
pub open spec fn markers(m: Seq<Vec<char>>, block: int, j: int) -> Seq<SpritePosition>
    decreases j,
{
    if j <= 0 {
        Seq::empty()
    } else {
        markers(m, block, j - 1) + markers_in_row(m[j - 1]@, j - 1, block, m[j - 1]@.len() as int)
    }
}

proof fn lemma_centre_bounds(col: int, row: int, block: int)
    requires
        0 <= col,
        0 <= row,
        1 <= block,
        col * block + block <= MAX_WORLD,
        row * block + block <= MAX_WORLD,
    ensures
        0 <= col <= MAX_WORLD,
        0 <= row <= MAX_WORLD,
        0 <= col * block <= MAX_WORLD,
        0 <= row * block <= MAX_WORLD,
        0 <= col * block * FIX <= MAX_WORLD * FIX,
        0 <= row * block * FIX <= MAX_WORLD * FIX,
        0 <= col * block * FIX + block * FIX / 2 < MAX_WORLD * FIX,
        0 <= row * block * FIX + block * FIX / 2 < MAX_WORLD * FIX,
{
    assert(0 <= col * block * FIX + block * FIX / 2 < MAX_WORLD * FIX) by (nonlinear_arith)
        requires
            0 <= col,
            1 <= block,
            col * block + block <= MAX_WORLD,
            FIX == 1024,
    ;
    assert(0 <= row * block * FIX + block * FIX / 2 < MAX_WORLD * FIX) by (nonlinear_arith)
        requires
            0 <= row,
            1 <= block,
            row * block + block <= MAX_WORLD,
            FIX == 1024,
    ;
    assert(0 <= col <= col * block) by (nonlinear_arith)
        requires
            0 <= col,
            1 <= block,
    ;
    assert(0 <= row <= row * block) by (nonlinear_arith)
        requires
            0 <= row,
            1 <= block,
    ;
    assert(0 <= col * block * FIX <= MAX_WORLD * FIX) by (nonlinear_arith)
        requires
            0 <= col,
            1 <= block,
            col * block + block <= MAX_WORLD,
            FIX == 1024,
    ;
    assert(0 <= row * block * FIX <= MAX_WORLD * FIX) by (nonlinear_arith)
        requires
            0 <= row,
            1 <= block,
            row * block + block <= MAX_WORLD,
            FIX == 1024,
    ;
}

/// The centre of every cell that holds the sprite marker, row by row and left
/// to right within a row.
pub fn extract_sprite_positions(maze: &Maze, block_size: usize) -> (r: Vec<SpritePosition>)
    requires
        maze_fits(maze@, block_size as int),
    ensures
        r@ == markers(maze@, block_size as int, maze@.len() as int),
{
    let mut out: Vec<SpritePosition> = Vec::new();
    let mut j: usize = 0;
    while j < maze.len()
        invariant
            maze_fits(maze@, block_size as int),
            j <= maze@.len(),
            out@ == markers(maze@, block_size as int, j as int),
        decreases maze@.len() - j,
    {
        let row = &maze[j];
        let mut i: usize = 0;
        while i < row.len()
            invariant
                maze_fits(maze@, block_size as int),
                j < maze@.len(),
                *row == maze@[j as int],
                i <= row@.len(),
                out@ == markers(maze@, block_size as int, j as int) + markers_in_row(
                    row@,
                    j as int,
                    block_size as int,
                    i as int,
                ),
            decreases row@.len() - i,
        {
            if row[i] == SPRITE_MARK {
                proof {
                    assert(j * block_size + block_size <= MAX_WORLD) by (nonlinear_arith)
                        requires
                            j < maze@.len(),
                            maze@.len() * block_size <= MAX_WORLD,
                    ;
                    assert(maze@[j as int]@.len() * block_size <= MAX_WORLD);
                    assert(i * block_size + block_size <= MAX_WORLD) by (nonlinear_arith)
                        requires
                            i < row@.len(),
                            row@.len() * block_size <= MAX_WORLD,
                    ;
                    lemma_centre_bounds(i as int, j as int, block_size as int);
                }
                let b: i64 = block_size as i64;
                let x: i64 = i as i64 * b * FIX + b * FIX / 2;
                let y: i64 = j as i64 * b * FIX + b * FIX / 2;
                out.push(SpritePosition { x, y });
            }
            proof {
                assert(markers_in_row(row@, j as int, block_size as int, i + 1) =~= markers_in_row(
                    row@,
                    j as int,
                    block_size as int,
                    i as int,
                ) + if row@[i as int] == SPRITE_MARK {
                    seq![cell_centre(i as int, j as int, block_size as int)]
                } else {
                    Seq::<SpritePosition>::empty()
                });
            }
            i = i + 1;
        }
        proof {
            assert(out@ =~= markers(maze@, block_size as int, j + 1));
        }
        j = j + 1;
    }
    out
}

/// The cell at column `col` of row `row`; `None` outside the map.
pub fn maze_cell(maze: &Maze, col: usize, row: usize) -> (r: Option<char>)
    ensures
        r == if row < maze@.len() && col < maze@[row as int]@.len() {
            Some(maze@[row as int]@[col as int])
        } else {
            None::<char>
        },
{
    if row < maze.len() && col < maze[row].len() {
        Some(maze[row][col])
    } else {
        None
    }
}

/// A row with every sprite marker turned into open space.
pub open spec fn cleaned_row(row: Seq<char>) -> Seq<char> {
    row.map_values(|c: char| if c == SPRITE_MARK { OPEN_CELL } else { c })
}

/// Turns every sprite marker of the map into open space and leaves every other
/// cell as it was.
pub fn clean_maze(maze: &mut Maze)
    ensures
        final(maze)@.len() == old(maze)@.len(),
        forall|j: int|
            0 <= j < final(maze)@.len() ==> #[trigger] final(maze)@[j]@ == cleaned_row(old(maze)@[j]@),
{
    let n: usize = maze.len();
    let mut j: usize = 0;
    while j < n
        invariant
            n == old(maze)@.len(),
            maze@.len() == n,
            j <= n,
            forall|k: int| 0 <= k < j ==> #[trigger] maze@[k]@ == cleaned_row(old(maze)@[k]@),
            forall|k: int| j <= k < n ==> #[trigger] maze@[k] == old(maze)@[k],
        decreases n - j,
    {
        let mut row: Vec<char> = Vec::new();
        let m: usize = maze[j].len();
        let mut i: usize = 0;
        while i < m
            invariant
                j < n,
                maze@.len() == n,
                maze@[j as int] == old(maze)@[j as int],
                m == maze@[j as int]@.len(),
                i <= m,
                row@ =~= cleaned_row(maze@[j as int]@).subrange(0, i as int),
            decreases m - i,
        {
            let c: char = maze[j][i];
            if c == SPRITE_MARK {
                row.push(OPEN_CELL);
            } else {
                row.push(c);
            }
            proof {
                assert(row@ =~= cleaned_row(maze@[j as int]@).subrange(0, i + 1));
            }
            i = i + 1;
        }
        proof {
            assert(row@ =~= cleaned_row(old(maze)@[j as int]@));
        }
        maze.set(j, row);
        j = j + 1;
    }
}

} // verus!
