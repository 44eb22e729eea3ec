//! The defrag-style block animation shown while a scan runs.

use vstd::prelude::*;

verus! {

/// One block of the animation grid.
#[derive(Clone, Copy, PartialEq, Eq, Structural, Debug)]
pub enum BlockState {
    /// Empty space.
    Free,
    /// Allocated.
    Used,
    /// Currently being "moved".
    Moving,
}

/// The character a block renders as.
pub open spec fn block_char(b: BlockState) -> char {
    match b {
        BlockState::Free => '\u{b7}',
        BlockState::Used => '\u{2588}',
        BlockState::Moving => '\u{2593}',
    }
}

impl BlockState {
    /// The character this block renders as.
    pub fn as_char(&self) -> (r: char)
        ensures
            r == block_char(*self),
    {
        match self {
            BlockState::Free => '\u{b7}',
            BlockState::Used => '\u{2588}',
            BlockState::Moving => '\u{2593}',
        }
    }
}

/// The initial pattern: scattered used blocks.
pub open spec fn init_block(row: int, col: int) -> BlockState {
    if (row + col) % 3 == 0 || (row * col) % 7 == 0 {
        BlockState::Used
    } else {
        BlockState::Free
    }
}

/// One rendered row: each block's character.
pub open spec fn row_chars(row: Seq<BlockState>) -> Seq<char> {
    row.map_values(|b: BlockState| block_char(b))
}

/// The rendered grid: each row's characters followed by a newline.
pub open spec fn grid_chars(g: Seq<Vec<BlockState>>) -> Seq<char>
    decreases g.len(),
{
    if g.len() == 0 {
        Seq::empty()
    } else {
        grid_chars(g.drop_last()) + row_chars(g.last()@) + seq!['\n']
    }
}

/// Milliseconds between animation steps.
pub const UPDATE_INTERVAL_MS: u64 = 50;

/// The animation state: a grid of blocks, a roaming 3-by-3 "moving"
/// cluster, and a frame counter throttled to the update interval.
#[derive(Debug)]
pub struct DefragAnimation {
    /// The block grid, row by row.
    pub grid: Vec<Vec<BlockState>>,
    /// The moving cluster's position (column, row).
    pub moving_pos: (usize, usize),
    /// The cluster's drift direction (column step, row step).
    pub direction: (i8, i8),
    /// When the animation last advanced, in milliseconds.
    pub last_update_ms: u64,
    /// How many frames have passed.
    pub frame: usize,
}

impl DefragAnimation {
    /// Well-formedness: a rectangular, nonempty grid of moderate size, with
    /// the moving cluster inside it.
    pub open spec fn wf(&self) -> bool {
        &&& 1 <= self.grid@.len() <= 65535
        &&& 1 <= self.grid@[0]@.len() <= 65535
        &&& forall|r: int|
            0 <= r < self.grid@.len() ==> (#[trigger] self.grid@[r])@.len()
                == self.grid@[0]@.len()
        &&& self.moving_pos.0 < self.grid@[0]@.len()
        &&& self.moving_pos.1 < self.grid@.len()
    }

    /// Columns, then rows.
    pub open spec fn spec_dims(&self) -> (int, int) {
        (self.grid@[0]@.len() as int, self.grid@.len() as int)
    }

    /// The current frame number.
    pub open spec fn spec_frame(&self) -> int {
        self.frame as int
    }

    /// A fresh animation with the given dimensions, showing the scattered
    /// initial pattern.
    pub fn new(cols: usize, rows: usize) -> (r: Self)
        requires
            1 <= cols <= 65535,
            1 <= rows <= 65535,
        ensures
            r.wf(),
            r.spec_dims() == (cols as int, rows as int),
            r.spec_frame() == 0,
            forall|y: int, x: int|
                0 <= y < rows && 0 <= x < cols ==> r.grid@[y]@[x] == init_block(y, x),
    {
        let mut grid: Vec<Vec<BlockState>> = Vec::new();
        let mut row: usize = 0;
        while row < rows
            invariant
                0 <= row <= rows,
                cols <= 65535,
                rows <= 65535,
                grid@.len() == row,
                forall|y: int| 0 <= y < row ==> (#[trigger] grid@[y])@.len() == cols,
                forall|y: int, x: int|
                    0 <= y < row && 0 <= x < cols ==> grid@[y]@[x] == init_block(y, x),
            decreases rows - row,
        {
            let mut line: Vec<BlockState> = Vec::new();
            let mut col: usize = 0;
            while col < cols
                invariant
                    0 <= col <= cols,
                    cols <= 65535,
                    row <= 65535,
                    line@.len() == col,
                    forall|x: int| 0 <= x < col ==> line@[x] == init_block(row as int, x),
                decreases cols - col,
            {
                proof {
                    assert(row * col <= 65535 * 65535) by (nonlinear_arith)
                        requires
                            0 <= row <= 65535,
                            0 <= col <= 65535,
                    ;
                }
                if (row + col) % 3 == 0 || (row * col) % 7 == 0 {
                    line.push(BlockState::Used);
                } else {
                    line.push(BlockState::Free);
                }
                col += 1;
            }
            grid.push(line);
            row += 1;
        }
        DefragAnimation {
            grid,
            moving_pos: (0, 0),
            direction: (1, 0),
            last_update_ms: 0,
            frame: 0,
        }
    }

    /// A default 80-by-20 animation.
    pub fn default_size() -> (r: Self)
        ensures
            r.wf(),
            r.spec_dims() == (80int, 20int),
            r.spec_frame() == 0,
    {
        Self::new(80, 20)
    }

    /// Grid dimensions: columns, then rows.
    pub fn dimensions(&self) -> (r: (usize, usize))
        requires
            self.wf(),
        ensures
            (r.0 as int, r.1 as int) == self.spec_dims(),
    {
        (self.grid[0].len(), self.grid.len())
    }

    /// The current frame number.
    pub fn frame(&self) -> (r: usize)
        ensures
            r as int == self.spec_frame(),
    {
        self.frame
    }

    /// Advance the animation to `now_ms`. Within the update interval of the
    /// last step nothing changes; otherwise one frame passes: moved blocks
    /// settle, the cluster drifts (changing direction now and then), and
    /// free space consolidates leftward.
    pub fn update(&mut self, now_ms: u64)
        requires
            old(self).wf(),
            now_ms >= old(self).last_update_ms,
        ensures
            final(self).wf(),
            final(self).spec_dims() == old(self).spec_dims(),
            now_ms - old(self).last_update_ms < UPDATE_INTERVAL_MS ==> *final(self) == *old(self),
            now_ms - old(self).last_update_ms >= UPDATE_INTERVAL_MS ==> final(self).spec_frame()
                == if old(self).spec_frame() < usize::MAX {
                old(self).spec_frame() + 1
            } else {
                0
            },
    {
        if now_ms - self.last_update_ms < UPDATE_INTERVAL_MS {
            return ;
        }
        self.last_update_ms = now_ms;
        if self.frame < usize::MAX {
            self.frame = self.frame + 1;
        } else {
            self.frame = 0;
        }

        let cols = self.grid[0].len();
        let rows = self.grid.len();
        let ghost dims = self.spec_dims();
        let ghost newframe = self.frame;

        // Settle previously moving blocks.
        let mut y: usize = 0;
        while y < rows
            invariant
                0 <= y <= rows,
                self.wf(),
                self.spec_dims() == dims,
                self.frame == newframe,
                rows == self.grid@.len(),
                cols == self.grid@[0]@.len(),
            decreases rows - y,
        {
            let mut x: usize = 0;
            while x < cols
                invariant
                    0 <= x <= cols,
                    y < self.grid@.len(),
                    self.wf(),
                    self.spec_dims() == dims,
                    self.frame == newframe,
                    rows == self.grid@.len(),
                    cols == self.grid@[0]@.len(),
                decreases cols - x,
            {
                if self.grid[y][x] == BlockState::Moving {
                    let ghost pregrid = self.grid@;
                    self.grid[y][x] = BlockState::Used;
                    proof {
                        assert(forall|r: int|
                            0 <= r < self.grid@.len() && r != y ==> self.grid@[r]
                                == pregrid[r]);
                        assert(self.grid@[y as int]@.len() == pregrid[y as int]@.len());
                    }
                }
                x += 1;
            }
            y += 1;
        }

        // Drift the cluster.
        let (mut cx, mut cy) = self.moving_pos;
        let (dx, dy) = self.direction;
        cx = step_coord(cx, dx, cols);
        cy = step_coord(cy, dy, rows);
        self.moving_pos = (cx, cy);

        // Change direction occasionally.
        if self.frame % 40 == 0 {
            self.direction = match self.frame % 4 {
                0 => (1, 0),
                1 => (0, 1),
                2 => (-1, 0),
                _ => (0, -1),
            };
        }

        // Mark the 3-by-3 cluster as moving.
        let mut oy: usize = 0;
        while oy < 3
            invariant
                0 <= oy <= 3,
                self.wf(),
                self.spec_dims() == dims,
                self.frame == newframe,
                rows == self.grid@.len(),
                cols == self.grid@[0]@.len(),
                cx < cols,
                cy < rows,
            decreases 3 - oy,
        {
            let mut ox: usize = 0;
            while ox < 3
                invariant
                    0 <= ox <= 3,
                    oy < 3,
                    self.wf(),
                    self.spec_dims() == dims,
                    self.frame == newframe,
                    rows == self.grid@.len(),
                    cols == self.grid@[0]@.len(),
                    cx < cols,
                    cy < rows,
                decreases 3 - ox,
            {
                let nx = (cx + ox) % cols;
                let ny = (cy + oy) % rows;
                if self.grid[ny][nx] == BlockState::Used {
                    let ghost pregrid = self.grid@;
                    self.grid[ny][nx] = BlockState::Moving;
                    proof {
                        assert(forall|r: int|
                            0 <= r < self.grid@.len() && r != ny ==> self.grid@[r]
                                == pregrid[r]);
                        assert(self.grid@[ny as int]@.len() == pregrid[ny as int]@.len());
                    }
                }
                ox += 1;
            }
            oy += 1;
        }

        // Consolidate: occasionally turn the first free block of each row's
        // left half into a used one.
        if self.frame % 20 == 0 {
            let mut ry: usize = 0;
            while ry < rows
                invariant
                    0 <= ry <= rows,
                    self.wf(),
                    self.spec_dims() == dims,
                    self.frame == newframe,
                    rows == self.grid@.len(),
                    cols == self.grid@[0]@.len(),
                decreases rows - ry,
            {
                let mut x: usize = 0;
                let mut done: bool = false;
                while x < cols && !done
                    invariant
                        0 <= x <= cols,
                        ry < self.grid@.len(),
                        self.wf(),
                        self.spec_dims() == dims,
                        self.frame == newframe,
                        rows == self.grid@.len(),
                        cols == self.grid@[0]@.len(),
                    decreases cols - x,
                {
                    if self.grid[ry][x] == BlockState::Free {
                        if x < cols / 2 {
                            let ghost pregrid = self.grid@;
                            self.grid[ry][x] = BlockState::Used;
                            proof {
                                assert(forall|r: int|
                                    0 <= r < self.grid@.len() && r != ry ==> self.grid@[r]
                                        == pregrid[r]);
                                assert(self.grid@[ry as int]@.len()
                                    == pregrid[ry as int]@.len());
                            }
                        }
                        done = true;
                    }
                    x += 1;
                }
                ry += 1;
            }
        }
    }

    /// Render the grid: one line of block characters per row.
    pub fn render(&self) -> (r: String)
        requires
            self.wf(),
        ensures
            r@ == grid_chars(self.grid@),
    {
        proof {
            reveal_strlit("\u{b7}");
            reveal_strlit("\u{2588}");
            reveal_strlit("\u{2593}");
            reveal_strlit("\n");
        }
        let rows = self.grid.len();
        let mut out = String::new();
        let mut y: usize = 0;
        proof {
            assert(self.grid@.subrange(0, 0) =~= Seq::<Vec<BlockState>>::empty());
        }
        while y < rows
            invariant
                0 <= y <= rows,
                self.wf(),
                rows == self.grid@.len(),
                out@ == grid_chars(self.grid@.subrange(0, y as int)),
            decreases rows - y,
        {
            proof {
                reveal_strlit("\u{b7}");
                reveal_strlit("\u{2588}");
                reveal_strlit("\u{2593}");
                reveal_strlit("\n");
                assert(self.grid@.subrange(0, y + 1).drop_last() =~= self.grid@.subrange(
                    0,
                    y as int,
                ));
                assert(self.grid@.subrange(0, y + 1).last() == self.grid@[y as int]);
            }
            let line = &self.grid[y];
            let cols = line.len();
            let mut x: usize = 0;
            while x < cols
                invariant
                    0 <= x <= cols,
                    y < self.grid@.len(),
                    line == &self.grid[y as int],
                    cols == line@.len(),
                    out@ == grid_chars(self.grid@.subrange(0, y as int)) + row_chars(
                        line@.take(x as int),
                    ),
                decreases cols - x,
            {
                proof {
                    reveal_strlit("\u{b7}");
                    reveal_strlit("\u{2588}");
                    reveal_strlit("\u{2593}");
                }
                match line[x] {
                    BlockState::Free => out.append("\u{b7}"),
                    BlockState::Used => out.append("\u{2588}"),
                    BlockState::Moving => out.append("\u{2593}"),
                }
                proof {
                    assert(row_chars(line@.take(x + 1)) =~= row_chars(line@.take(x as int)).push(
                        block_char(line@[x as int]),
                    ));
                }
                x += 1;
            }
            proof {
                assert(line@.take(cols as int) =~= line@);
            }
            out.append("\n");
            y += 1;
        }
        proof {
            assert(self.grid@.subrange(0, rows as int) =~= self.grid@);
        }
        out
    }
}

/// One coordinate step with wrap-around.
fn step_coord(v: usize, d: i8, m: usize) -> (r: usize)
    requires
        m >= 1,
        v < m,
    ensures
        r < m,
{
    if d == 1 {
        if v + 1 == m {
            0
        } else {
            v + 1
        }
    } else if d == -1 {
        if v == 0 {
            m - 1
        } else {
            v - 1
        }
    } else {
        v
    }
}

} // verus!
