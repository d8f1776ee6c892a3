//! Tiles: the unit of parallel rendering work.
//!
//! The image is partitioned into a grid of square tiles of edge
//! `tile_size`, with ragged remainder tiles along the right and bottom edges
//! and one corner remainder tile. [`fill_work_queue`] builds that partition
//! and its contract proves the partition exact: every pixel of the image lies
//! in exactly one tile. Remainder tiles may have zero area when the image
//! dimensions are multiples of the tile size; a zero-area tile contains no
//! pixel and produces no work.

use crate::scene::Stray;
use crate::Rgb8;
use vstd::arithmetic::div_mod::{
    lemma_div_is_ordered, lemma_div_pos_is_pos, lemma_fundamental_div_mod,
    lemma_fundamental_div_mod_converse_div, lemma_fundamental_div_mod_converse_mod,
    lemma_mod_division_less_than_divisor,
};
use vstd::arithmetic::mul::{
    lemma_mul_basics, lemma_mul_inequality, lemma_mul_is_commutative,
    lemma_mul_is_distributive_add_other_way, lemma_mul_is_distributive_sub,
    lemma_mul_is_distributive_sub_other_way, lemma_mul_nonnegative,
};
use vstd::prelude::*;

verus! {

/// A rectangular sub-region of the output image, the unit of parallel work.
/// `lower_left_tile` is the inclusive corner with the smaller coordinates,
/// `upper_right_tile` the exclusive one.
#[derive(Clone, Copy, PartialEq, Debug)]
pub struct Work {
    pub lower_left_tile: (u32, u32),
    pub upper_right_tile: (u32, u32),
}

impl Work {
    /// The corners are ordered; a degenerate (zero-area) tile is legal.
    pub open spec fn wf(self) -> bool {
        &&& self.lower_left_tile.0 <= self.upper_right_tile.0
        &&& self.lower_left_tile.1 <= self.upper_right_tile.1
    }

    /// Width of the tile in pixels.
    pub open spec fn spec_width(self) -> int {
        self.upper_right_tile.0 - self.lower_left_tile.0
    }

    /// Height of the tile in pixels.
    pub open spec fn spec_height(self) -> int {
        self.upper_right_tile.1 - self.lower_left_tile.1
    }

    /// Number of pixels in the tile.
    pub open spec fn area(self) -> int {
        self.spec_width() * self.spec_height()
    }

    /// Whether image pixel `(px, py)` lies inside this tile.
    pub open spec fn contains(self, px: int, py: int) -> bool {
        &&& self.lower_left_tile.0 <= px < self.upper_right_tile.0
        &&& self.lower_left_tile.1 <= py < self.upper_right_tile.1
    }

    /// Builds a tile from its two corners.
    pub fn new(lower_left_tile: (u32, u32), upper_right_tile: (u32, u32)) -> (w: Work)
        ensures
            w.lower_left_tile == lower_left_tile,
            w.upper_right_tile == upper_right_tile,
    {
        Work { lower_left_tile, upper_right_tile }
    }

    /// Width of the tile in pixels.
    pub fn width(&self) -> (w: u32)
        requires
            self.wf(),
        ensures
            w == self.spec_width(),
    {
        self.upper_right_tile.0 - self.lower_left_tile.0
    }

    /// Height of the tile in pixels.
    pub fn height(&self) -> (h: u32)
        requires
            self.wf(),
        ensures
            h == self.spec_height(),
    {
        self.upper_right_tile.1 - self.lower_left_tile.1
    }

    /// Number of pixels in the tile.
    pub fn pixel_count(&self) -> (n: u64)
        requires
            self.wf(),
        ensures
            n == self.area(),
    {
        let w = self.width();
        let h = self.height();
        proof {
            lemma_mul_upper_bound_u32(w as int, h as int);
        }
        w as u64 * h as u64
    }
}

/// The product of two values below `2^32` stays below `2^64`.
pub(crate) proof fn lemma_mul_upper_bound_u32(w: int, h: int)
    requires
        0 <= w <= 0xffff_ffff,
        0 <= h <= 0xffff_ffff,
    ensures
        0 <= w * h <= 0xffff_ffff * 0xffff_ffff,
{
    lemma_mul_nonnegative(w, h);
    lemma_mul_inequality(w, 0xffff_ffff, h);
    lemma_mul_is_commutative(0xffff_ffff, h);
    lemma_mul_inequality(h, 0xffff_ffff, 0xffff_ffff);
}

/// The colors rendered for one tile, row-major: the color of tile-local
/// pixel `(x, y)` sits at position `y * width + x`, and row `0` is the
/// tile's row with the smallest image `y` coordinate. A worker owns the
/// buffer of the tile it claimed until the buffer is merged into the image.
#[derive(PartialEq, Debug)]
pub struct TileBuffer {
    pub work: Work,
    pub colors: Vec<Rgb8>,
}

impl TileBuffer {
    /// The buffer holds exactly one color per pixel of its tile.
    pub open spec fn wf(self) -> bool {
        &&& self.work.wf()
        &&& self.colors@.len() == self.work.area()
    }

    /// The color stored for tile-local pixel `(x, y)`.
    pub open spec fn color_at(self, x: int, y: int) -> Rgb8 {
        self.colors@[y * self.work.spec_width() + x]
    }

    /// A buffer for `work` with every pixel black.
    pub fn new(work: Work) -> (t: TileBuffer)
        requires
            work.wf(),
            work.area() <= usize::MAX,
        ensures
            t.wf(),
            t.work == work,
            forall|i: int|
                0 <= i < t.colors@.len() ==> (#[trigger] t.colors@[i]) == (Rgb8 {
                    r: 0,
                    g: 0,
                    b: 0,
                }),
    {
        let n = work.pixel_count();
        let mut colors: Vec<Rgb8> = Vec::new();
        let mut i: u64 = 0;
        while i < n
            invariant
                i <= n,
                n == work.area(),
                n <= usize::MAX,
                colors@.len() == i,
                forall|k: int|
                    0 <= k < i ==> (#[trigger] colors@[k]) == (Rgb8 { r: 0, g: 0, b: 0 }),
            decreases n - i,
        {
            colors.push(Rgb8::black());
            i = i + 1;
        }
        TileBuffer { work, colors }
    }

    /// Stores the color of tile-local pixel `(x, y)`.
    pub fn set_color(&mut self, x: u32, y: u32, color: Rgb8)
        requires
            old(self).wf(),
            x < old(self).work.spec_width(),
            y < old(self).work.spec_height(),
        ensures
            final(self).wf(),
            final(self).work == old(self).work,
            final(self).colors@ == old(self).colors@.update(
                y * old(self).work.spec_width() + x,
                color,
            ),
    {
        proof {
            lemma_row_major_index_bounds(
                x as int,
                y as int,
                self.work.spec_width(),
                self.work.spec_height(),
            );
            lemma_mul_upper_bound_u32(y as int, self.work.spec_width());
        }
        let w = self.work.width();
        let len = self.colors.len();
        assert(y * w + x < len);
        let idx: usize = (y as u64 * w as u64 + x as u64) as usize;
        self.colors.set(idx, color);
    }

    /// Reads the color of tile-local pixel `(x, y)`.
    pub fn get_color(&self, x: u32, y: u32) -> (c: Rgb8)
        requires
            self.wf(),
            x < self.work.spec_width(),
            y < self.work.spec_height(),
        ensures
            c == self.color_at(x as int, y as int),
    {
        proof {
            lemma_row_major_index_bounds(
                x as int,
                y as int,
                self.work.spec_width(),
                self.work.spec_height(),
            );
            lemma_mul_upper_bound_u32(y as int, self.work.spec_width());
        }
        let w = self.work.width();
        let len = self.colors.len();
        assert(y * w + x < len);
        self.colors[(y as u64 * w as u64 + x as u64) as usize]
    }
}

/// A row-major position lies within a `w * h` buffer.
pub(crate) proof fn lemma_row_major_index_bounds(x: int, y: int, w: int, h: int)
    requires
        0 <= x < w,
        0 <= y < h,
    ensures
        0 <= y * w + x < w * h,
{
    lemma_mul_nonnegative(y, w);
    lemma_mul_inequality(y, h - 1, w);
    lemma_mul_is_distributive_sub_other_way(w, h, 1);
    lemma_mul_basics(w);
    lemma_mul_is_commutative(h, w);
}

/// Distinct pixels of a `w`-pixel-wide buffer have distinct row-major
/// positions.
pub(crate) proof fn lemma_row_major_index_injective(x1: int, y1: int, x2: int, y2: int, w: int)
    requires
        0 <= x1 < w,
        0 <= x2 < w,
        0 <= y1,
        0 <= y2,
        y1 * w + x1 == y2 * w + x2,
    ensures
        x1 == x2,
        y1 == y2,
{
    lemma_fundamental_div_mod_converse_div(y1 * w + x1, w, y1, x1);
    lemma_fundamental_div_mod_converse_mod(y1 * w + x1, w, y1, x1);
    lemma_fundamental_div_mod_converse_div(y2 * w + x2, w, y2, x2);
    lemma_fundamental_div_mod_converse_mod(y2 * w + x2, w, y2, x2);
}

/// The pixel coordinate at which grid line `c` stands, in a dimension of
/// `limit` pixels cut every `tile_size`: line `c` stands at `c * tile_size`,
/// clamped to the edge of the image.
pub open spec fn grid_line(c: int, tile_size: int, limit: int) -> int {
    if c * tile_size <= limit {
        c * tile_size
    } else {
        limit
    }
}

/// Whether tile `t` is exactly the grid cell in column `cx` and row `cy` of
/// the partition of a `width x height` image into `tile_size` tiles.
pub open spec fn tile_matches_cell(
    t: Work,
    cx: int,
    cy: int,
    width: int,
    height: int,
    tile_size: int,
) -> bool {
    &&& t.lower_left_tile.0 == grid_line(cx, tile_size, width)
    &&& t.upper_right_tile.0 == grid_line(cx + 1, tile_size, width)
    &&& t.lower_left_tile.1 == grid_line(cy, tile_size, height)
    &&& t.upper_right_tile.1 == grid_line(cy + 1, tile_size, height)
}

/// Position of the cell in row `row` and column `col` within a work queue
/// whose rows hold `tiles_x + 1` cells each.
pub open spec fn cell_index(row: int, col: int, tiles_x: int) -> int {
    row * (tiles_x + 1) + col
}

/// Whether some tile of `q` contains pixel `(px, py)`.
pub open spec fn covers(q: Seq<Work>, px: int, py: int) -> bool {
    exists|i: int| 0 <= i < q.len() && (#[trigger] q[i]).contains(px, py)
}

/// Whether no two distinct tiles of `q` both contain pixel `(px, py)`.
pub open spec fn covered_at_most_once(q: Seq<Work>, px: int, py: int) -> bool {
    forall|i: int, j: int|
        0 <= i < j < q.len() ==> !((#[trigger] q[i]).contains(px, py) && (#[trigger] q[j]).contains(
            px,
            py,
        ))
}

/// Whether pixel `(px, py)` lies in one tile of `q` and no more.
pub open spec fn covered_exactly_once(q: Seq<Work>, px: int, py: int) -> bool {
    covers(q, px, py) && covered_at_most_once(q, px, py)
}

/// Whether the tiles of `q` cover every pixel of a `width x height` image
/// exactly once: no gaps, no overlaps.
pub open spec fn exact_cover(q: Seq<Work>, width: int, height: int) -> bool {
    forall|px: int, py: int|
        0 <= px < width && 0 <= py < height ==> #[trigger] covered_exactly_once(q, px, py)
}

/// Where grid line `c` stands: inside the image it stands at `c * tile_size`
/// exactly when `c` is at most `limit / tile_size`, and every later line is
/// clamped to the edge.
proof fn lemma_grid_line_bounds(c: int, tile_size: int, limit: int)
    requires
        tile_size >= 1,
        limit >= 0,
        c >= 0,
    ensures
        0 <= grid_line(c, tile_size, limit) <= limit,
        c <= limit / tile_size ==> grid_line(c, tile_size, limit) == c * tile_size,
        c > limit / tile_size ==> grid_line(c, tile_size, limit) == limit,
{
    let q = limit / tile_size;
    lemma_mul_nonnegative(c, tile_size);
    lemma_fundamental_div_mod(limit, tile_size);
    lemma_mod_division_less_than_divisor(limit, tile_size);
    lemma_mul_is_commutative(q, tile_size);
    if c <= q {
        lemma_mul_inequality(c, q, tile_size);
    } else {
        lemma_mul_inequality(q + 1, c, tile_size);
        lemma_mul_is_distributive_add_other_way(tile_size, q, 1);
        lemma_mul_basics(tile_size);
    }
}

/// Consecutive grid lines are ordered.
proof fn lemma_grid_line_mono(c: int, tile_size: int, limit: int)
    requires
        tile_size >= 1,
        limit >= 0,
        c >= 0,
    ensures
        grid_line(c, tile_size, limit) <= grid_line(c + 1, tile_size, limit),
{
    lemma_mul_inequality(c, c + 1, tile_size);
}

/// Every pixel coordinate `p` of the image lies between grid lines
/// `p / tile_size` and `p / tile_size + 1`.
proof fn lemma_point_cell(p: int, tile_size: int, limit: int)
    requires
        tile_size >= 1,
        0 <= p < limit,
    ensures
        0 <= p / tile_size <= limit / tile_size,
        grid_line(p / tile_size, tile_size, limit) <= p,
        p < grid_line(p / tile_size + 1, tile_size, limit),
{
    let c = p / tile_size;
    lemma_div_pos_is_pos(p, tile_size);
    lemma_div_is_ordered(p, limit, tile_size);
    lemma_fundamental_div_mod(p, tile_size);
    lemma_mod_division_less_than_divisor(p, tile_size);
    lemma_mul_is_commutative(c, tile_size);
    lemma_grid_line_bounds(c, tile_size, limit);
    lemma_mul_is_distributive_add_other_way(tile_size, c, 1);
    lemma_mul_basics(tile_size);
}

/// A pixel lies between grid lines `c` and `c + 1` only for the one cell
/// `c == p / tile_size`.
proof fn lemma_cell_unique(p: int, c: int, tile_size: int, limit: int)
    requires
        tile_size >= 1,
        0 <= p < limit,
        0 <= c,
        grid_line(c, tile_size, limit) <= p,
        p < grid_line(c + 1, tile_size, limit),
    ensures
        c == p / tile_size,
{
    lemma_mul_nonnegative(c, tile_size);
    lemma_mul_is_distributive_add_other_way(tile_size, c, 1);
    lemma_mul_basics(tile_size);
    // grid_line(c) <= p < limit rules the clamped case out, so
    // c * tile_size <= p; and p < grid_line(c + 1) <= (c + 1) * tile_size.
    lemma_fundamental_div_mod_converse_div(p, tile_size, c, p - c * tile_size);
}

/// `cell_index` stays within the queue and is undone by division and
/// remainder by the row width.
proof fn lemma_cell_index_range(row: int, col: int, tiles_x: int, tiles_y: int)
    requires
        0 <= row <= tiles_y,
        0 <= col <= tiles_x,
    ensures
        0 <= cell_index(row, col, tiles_x) < (tiles_x + 1) * (tiles_y + 1),
        cell_index(row, col, tiles_x) / (tiles_x + 1) == row,
        cell_index(row, col, tiles_x) % (tiles_x + 1) == col,
{
    let n = tiles_x + 1;
    lemma_mul_nonnegative(row, n);
    lemma_mul_inequality(row, tiles_y, n);
    lemma_mul_is_distributive_add_other_way(n, tiles_y, 1);
    lemma_mul_basics(n);
    lemma_mul_is_commutative(tiles_y + 1, n);
    lemma_fundamental_div_mod_converse_div(cell_index(row, col, tiles_x), n, row, col);
    lemma_fundamental_div_mod_converse_mod(cell_index(row, col, tiles_x), n, row, col);
}

/// Every queue position is the `cell_index` of exactly the cell found by
/// dividing by the row width.
proof fn lemma_cell_index_inverse(i: int, tiles_x: int, tiles_y: int)
    requires
        tiles_x >= 0,
        tiles_y >= 0,
        0 <= i < (tiles_x + 1) * (tiles_y + 1),
    ensures
        0 <= i / (tiles_x + 1) <= tiles_y,
        0 <= i % (tiles_x + 1) <= tiles_x,
        cell_index(i / (tiles_x + 1), i % (tiles_x + 1), tiles_x) == i,
{
    let n = tiles_x + 1;
    lemma_div_pos_is_pos(i, n);
    lemma_mod_division_less_than_divisor(i, n);
    lemma_fundamental_div_mod(i, n);
    lemma_mul_is_commutative(i / n, n);
    if i / n > tiles_y {
        lemma_mul_inequality(tiles_y + 1, i / n, n);
        lemma_mul_is_commutative(tiles_y + 1, n);
        assert(false);
    }
}

/// A tile of the grid that contains an image pixel can only sit at the queue
/// position of that pixel's own cell.
proof fn lemma_containing_index(
    q: Seq<Work>,
    width: int,
    height: int,
    tile_size: int,
    i: int,
    px: int,
    py: int,
)
    requires
        tile_size >= 1,
        width >= 0,
        height >= 0,
        q.len() == (width / tile_size + 1) * (height / tile_size + 1),
        forall|row: int, col: int|
            0 <= row <= height / tile_size && 0 <= col <= width / tile_size
                ==> tile_matches_cell(
                q[#[trigger] cell_index(row, col, width / tile_size)],
                col,
                row,
                width,
                height,
                tile_size,
            ),
        0 <= i < q.len(),
        0 <= px < width,
        0 <= py < height,
        q[i].contains(px, py),
    ensures
        i == cell_index(py / tile_size, px / tile_size, width / tile_size),
{
    let tx = width / tile_size;
    let ty = height / tile_size;
    lemma_div_pos_is_pos(width, tile_size);
    lemma_div_pos_is_pos(height, tile_size);
    lemma_cell_index_inverse(i, tx, ty);
    let row = i / (tx + 1);
    let col = i % (tx + 1);
    assert(tile_matches_cell(q[cell_index(row, col, tx)], col, row, width, height, tile_size));
    lemma_cell_unique(px, col, tile_size, width);
    lemma_cell_unique(py, row, tile_size, height);
    lemma_cell_index_range(py / tile_size, px / tile_size, tx, ty);
}

/// The tiles of the full grid cover every pixel of the image exactly once.
proof fn lemma_grid_exact_cover(q: Seq<Work>, width: int, height: int, tile_size: int)
    requires
        tile_size >= 1,
        width >= 0,
        height >= 0,
        q.len() == (width / tile_size + 1) * (height / tile_size + 1),
        forall|row: int, col: int|
            0 <= row <= height / tile_size && 0 <= col <= width / tile_size
                ==> tile_matches_cell(
                q[#[trigger] cell_index(row, col, width / tile_size)],
                col,
                row,
                width,
                height,
                tile_size,
            ),
    ensures
        exact_cover(q, width, height),
{
    let tx = width / tile_size;
    let ty = height / tile_size;
    lemma_div_pos_is_pos(width, tile_size);
    lemma_div_pos_is_pos(height, tile_size);
    assert forall|px: int, py: int| 0 <= px < width && 0 <= py < height implies #[trigger] covered_exactly_once(
        q,
        px,
        py,
    ) by {
        let col = px / tile_size;
        let row = py / tile_size;
        lemma_point_cell(px, tile_size, width);
        lemma_point_cell(py, tile_size, height);
        lemma_cell_index_range(row, col, tx, ty);
        let k = cell_index(row, col, tx);
        assert(tile_matches_cell(q[k], col, row, width, height, tile_size));
        assert(q[k].contains(px, py));
        assert(covers(q, px, py));
        assert forall|i: int, j: int| 0 <= i < j < q.len() implies !((#[trigger] q[i]).contains(
            px,
            py,
        ) && (#[trigger] q[j]).contains(px, py)) by {
            if q[i].contains(px, py) && q[j].contains(px, py) {
                lemma_containing_index(q, width, height, tile_size, i, px, py);
                lemma_containing_index(q, width, height, tile_size, j, px, py);
            }
        }
    }
}

/// Every tile of the full grid is well formed and lies within the image.
proof fn lemma_grid_tiles_wf(q: Seq<Work>, width: int, height: int, tile_size: int)
    requires
        tile_size >= 1,
        width >= 0,
        height >= 0,
        q.len() == (width / tile_size + 1) * (height / tile_size + 1),
        forall|row: int, col: int|
            0 <= row <= height / tile_size && 0 <= col <= width / tile_size
                ==> tile_matches_cell(
                q[#[trigger] cell_index(row, col, width / tile_size)],
                col,
                row,
                width,
                height,
                tile_size,
            ),
    ensures
        forall|i: int|
            0 <= i < q.len() ==> (#[trigger] q[i]).wf() && q[i].upper_right_tile.0 <= width
                && q[i].upper_right_tile.1 <= height,
{
    let tx = width / tile_size;
    let ty = height / tile_size;
    lemma_div_pos_is_pos(width, tile_size);
    lemma_div_pos_is_pos(height, tile_size);
    assert forall|i: int| 0 <= i < q.len() implies (#[trigger] q[i]).wf()
        && q[i].upper_right_tile.0 <= width && q[i].upper_right_tile.1 <= height by {
        lemma_cell_index_inverse(i, tx, ty);
        let row = i / (tx + 1);
        let col = i % (tx + 1);
        assert(tile_matches_cell(q[cell_index(row, col, tx)], col, row, width, height, tile_size));
        lemma_grid_line_mono(col, tile_size, width);
        lemma_grid_line_mono(row, tile_size, height);
        lemma_grid_line_bounds(col, tile_size, width);
        lemma_grid_line_bounds(col + 1, tile_size, width);
        lemma_grid_line_bounds(row, tile_size, height);
        lemma_grid_line_bounds(row + 1, tile_size, height);
    }
}

/// Total pixel count of the tiles of `q`.
pub open spec fn total_area(q: Seq<Work>) -> int
    decreases q.len(),
{
    if q.len() == 0 {
        0
    } else {
        total_area(q.drop_last()) + q.last().area()
    }
}

/// Pixel count of the first `k` tiles of the grid: the full rows before row
/// `k / (tiles_x + 1)`, plus the finished part of that row.
spec fn prefix_area(k: int, width: int, height: int, tile_size: int) -> int {
    let n = width / tile_size + 1;
    let row = k / n;
    let col = k % n;
    grid_line(row, tile_size, height) * width + (grid_line(row + 1, tile_size, height)
        - grid_line(row, tile_size, height)) * grid_line(col, tile_size, width)
}

/// The areas of the first `k` tiles of the grid sum to the area of the
/// region they cover.
proof fn lemma_prefix_area(q: Seq<Work>, width: int, height: int, tile_size: int, k: int)
    requires
        tile_size >= 1,
        width >= 0,
        height >= 0,
        q.len() == (width / tile_size + 1) * (height / tile_size + 1),
        forall|row: int, col: int|
            0 <= row <= height / tile_size && 0 <= col <= width / tile_size
                ==> tile_matches_cell(
                q[#[trigger] cell_index(row, col, width / tile_size)],
                col,
                row,
                width,
                height,
                tile_size,
            ),
        0 <= k <= q.len(),
    ensures
        total_area(q.take(k)) == prefix_area(k, width, height, tile_size),
    decreases k,
{
    let tx = width / tile_size;
    let ty = height / tile_size;
    let n = tx + 1;
    lemma_div_pos_is_pos(width, tile_size);
    lemma_div_pos_is_pos(height, tile_size);
    lemma_mul_basics(n);
    lemma_mul_basics(tile_size);
    if k == 0 {
        assert(q.take(0) =~= Seq::<Work>::empty());
        lemma_fundamental_div_mod_converse_div(0, n, 0, 0);
        lemma_fundamental_div_mod_converse_mod(0, n, 0, 0);
        lemma_mul_basics(width);
        lemma_mul_basics(
            grid_line(1, tile_size, height) - grid_line(0, tile_size, height),
        );
    } else {
        lemma_prefix_area(q, width, height, tile_size, k - 1);
        assert(q.take(k).drop_last() =~= q.take(k - 1));
        assert(q.take(k).last() == q[k - 1]);
        lemma_cell_index_inverse(k - 1, tx, ty);
        let row = (k - 1) / n;
        let col = (k - 1) % n;
        assert(tile_matches_cell(q[cell_index(row, col, tx)], col, row, width, height, tile_size));
        let hr = grid_line(row + 1, tile_size, height) - grid_line(row, tile_size, height);
        assert(q[k - 1].spec_height() == hr);
        if col < tx {
            // The next cell continues the same row.
            lemma_fundamental_div_mod_converse_div(k, n, row, col + 1);
            lemma_fundamental_div_mod_converse_mod(k, n, row, col + 1);
            lemma_mul_is_distributive_sub(
                hr,
                grid_line(col + 1, tile_size, width),
                grid_line(col, tile_size, width),
            );
            lemma_mul_is_commutative(
                grid_line(col + 1, tile_size, width) - grid_line(col, tile_size, width),
                hr,
            );
        } else {
            // The corner tile of the row: the row is complete and spans the
            // full image width.
            lemma_mul_is_distributive_add_other_way(n, row, 1);
            lemma_fundamental_div_mod_converse_div(k, n, row + 1, 0);
            lemma_fundamental_div_mod_converse_mod(k, n, row + 1, 0);
            lemma_grid_line_bounds(tx + 1, tile_size, width);
            lemma_mul_basics(
                grid_line(row + 2, tile_size, height) - grid_line(row + 1, tile_size, height),
            );
            lemma_mul_is_commutative(width - grid_line(tx, tile_size, width), hr);
            lemma_mul_is_distributive_sub(hr, width, grid_line(tx, tile_size, width));
            lemma_mul_is_distributive_add_other_way(
                width,
                grid_line(row, tile_size, height),
                hr,
            );
        }
    }
}

/// The tiles of the full grid hold exactly as many pixels as the image: the
/// sum of the tile areas equals the image area.
pub proof fn lemma_grid_total_area(q: Seq<Work>, width: int, height: int, tile_size: int)
    requires
        tile_size >= 1,
        width >= 0,
        height >= 0,
        q.len() == (width / tile_size + 1) * (height / tile_size + 1),
        forall|row: int, col: int|
            0 <= row <= height / tile_size && 0 <= col <= width / tile_size
                ==> tile_matches_cell(
                q[#[trigger] cell_index(row, col, width / tile_size)],
                col,
                row,
                width,
                height,
                tile_size,
            ),
    ensures
        total_area(q) == width * height,
{
    let tx = width / tile_size;
    let ty = height / tile_size;
    let n = tx + 1;
    lemma_div_pos_is_pos(width, tile_size);
    lemma_div_pos_is_pos(height, tile_size);
    lemma_prefix_area(q, width, height, tile_size, q.len() as int);
    assert(q.take(q.len() as int) =~= q);
    lemma_mul_is_commutative(n, ty + 1);
    lemma_fundamental_div_mod_converse_div(q.len() as int, n, ty + 1, 0);
    lemma_fundamental_div_mod_converse_mod(q.len() as int, n, ty + 1, 0);
    lemma_grid_line_bounds(ty + 1, tile_size, height);
    lemma_mul_basics(tile_size);
    lemma_mul_basics(
        grid_line(ty + 2, tile_size, height) - grid_line(ty + 1, tile_size, height),
    );
    lemma_mul_is_commutative(height, width);
}

/// Partitions a `width x height` image into the grid of tiles of edge
/// `tile_size`: full tiles inside, ragged remainder tiles along the right and
/// bottom edges, a corner remainder tile last in each row. The queue holds
/// one tile per grid cell, row by row, and the partition is exact: every
/// pixel of the image lies in exactly one tile of the queue, and the tile
/// areas sum to the image area.
pub fn fill_work_queue(width: u32, height: u32, tile_size: u32) -> (q: Vec<Work>)
    requires
        tile_size >= 1,
    ensures
        q@.len() == (width as int / tile_size as int + 1) * (height as int / tile_size as int + 1),
        forall|row: int, col: int|
            0 <= row <= height as int / tile_size as int && 0 <= col <= width as int
                / tile_size as int ==> tile_matches_cell(
                q@[#[trigger] cell_index(row, col, width as int / tile_size as int)],
                col,
                row,
                width as int,
                height as int,
                tile_size as int,
            ),
        forall|i: int|
            0 <= i < q@.len() ==> (#[trigger] q@[i]).wf() && q@[i].upper_right_tile.0 <= width
                && q@[i].upper_right_tile.1 <= height,
        exact_cover(q@, width as int, height as int),
        total_area(q@) == width as int * height as int,
{
    let tiles_x = width / tile_size;
    let tiles_y = height / tile_size;
    let ghost w = width as int;
    let ghost h = height as int;
    let ghost ts = tile_size as int;
    let mut q: Vec<Work> = Vec::new();
    let mut row: u64 = 0;
    while row <= tiles_y as u64
        invariant
            tile_size >= 1,
            tiles_x == w / ts,
            tiles_y == h / ts,
            w == width as int,
            h == height as int,
            ts == tile_size as int,
            row <= tiles_y as int + 1,
            q@.len() == row as int * (tiles_x as int + 1),
            forall|r: int, c: int|
                0 <= r < row && 0 <= c <= tiles_x ==> tile_matches_cell(
                    q@[#[trigger] cell_index(r, c, tiles_x as int)],
                    c,
                    r,
                    w,
                    h,
                    ts,
                ),
        decreases tiles_y as int + 1 - row as int,
    {
        proof {
            lemma_fundamental_div_mod(h, ts);
            lemma_mod_division_less_than_divisor(h, ts);
            lemma_mul_is_commutative(tiles_y as int, ts);
            lemma_mul_inequality(row as int, tiles_y as int, ts);
            lemma_grid_line_bounds(row as int, ts, h);
        }
        let rowu = row as u32;
        let y0: u32 = rowu * tile_size;
        let y1: u32 = if rowu == tiles_y {
            proof {
                lemma_grid_line_bounds(row as int + 1, ts, h);
            }
            height
        } else {
            proof {
                lemma_mul_inequality(row as int + 1, tiles_y as int, ts);
                lemma_mul_is_distributive_add_other_way(ts, row as int, 1);
                lemma_mul_basics(ts);
                lemma_grid_line_bounds(row as int + 1, ts, h);
            }
            rowu * tile_size + tile_size
        };
        assert(y0 == grid_line(row as int, ts, h));
        assert(y1 == grid_line(row as int + 1, ts, h));
        let mut col: u64 = 0;
        while col <= tiles_x as u64
            invariant
                tile_size >= 1,
                tiles_x == w / ts,
                tiles_y == h / ts,
                w == width as int,
                h == height as int,
                ts == tile_size as int,
                row <= tiles_y as int,
                col <= tiles_x as int + 1,
                y0 == grid_line(row as int, ts, h),
                y1 == grid_line(row as int + 1, ts, h),
                q@.len() == row as int * (tiles_x as int + 1) + col as int,
                forall|r: int, c: int|
                    0 <= r < row && 0 <= c <= tiles_x ==> tile_matches_cell(
                        q@[#[trigger] cell_index(r, c, tiles_x as int)],
                        c,
                        r,
                        w,
                        h,
                        ts,
                    ),
                forall|c: int|
                    0 <= c < col ==> tile_matches_cell(
                        q@[#[trigger] cell_index(row as int, c, tiles_x as int)],
                        c,
                        row as int,
                        w,
                        h,
                        ts,
                    ),
            decreases tiles_x as int + 1 - col as int,
        {
            proof {
                lemma_fundamental_div_mod(w, ts);
                lemma_mod_division_less_than_divisor(w, ts);
                lemma_mul_is_commutative(tiles_x as int, ts);
                lemma_mul_inequality(col as int, tiles_x as int, ts);
                lemma_grid_line_bounds(col as int, ts, w);
            }
            let colu = col as u32;
            let x0: u32 = colu * tile_size;
            let x1: u32 = if colu == tiles_x {
                proof {
                    lemma_grid_line_bounds(col as int + 1, ts, w);
                }
                width
            } else {
                proof {
                    lemma_mul_inequality(col as int + 1, tiles_x as int, ts);
                    lemma_mul_is_distributive_add_other_way(ts, col as int, 1);
                    lemma_mul_basics(ts);
                    lemma_grid_line_bounds(col as int + 1, ts, w);
                }
                colu * tile_size + tile_size
            };
            assert(x0 == grid_line(col as int, ts, w));
            assert(x1 == grid_line(col as int + 1, ts, w));
            let ghost q_before = q@;
            q.push(Work { lower_left_tile: (x0, y0), upper_right_tile: (x1, y1) });
            proof {
                let tile = (Work { lower_left_tile: (x0, y0), upper_right_tile: (x1, y1) });
                assert(cell_index(row as int, col as int, tiles_x as int) == q_before.len());
                assert(q@[q_before.len() as int] == tile);
                assert(tile_matches_cell(tile, col as int, row as int, w, h, ts));
                assert forall|r: int, c: int| 0 <= r < row && 0 <= c <= tiles_x implies
                    tile_matches_cell(
                    q@[#[trigger] cell_index(r, c, tiles_x as int)],
                    c,
                    r,
                    w,
                    h,
                    ts,
                ) by {
                    lemma_cell_index_range(r, c, tiles_x as int, tiles_y as int);
                    lemma_mul_inequality(r + 1, row as int, tiles_x as int + 1);
                    lemma_mul_is_distributive_add_other_way(tiles_x as int + 1, r, 1);
                    lemma_mul_basics(tiles_x as int + 1);
                    assert(q@[cell_index(r, c, tiles_x as int)] == q_before[cell_index(
                        r,
                        c,
                        tiles_x as int,
                    )]);
                }
                assert forall|c: int| 0 <= c < col + 1 implies tile_matches_cell(
                    q@[#[trigger] cell_index(row as int, c, tiles_x as int)],
                    c,
                    row as int,
                    w,
                    h,
                    ts,
                ) by {
                    if c < col {
                        assert(q@[cell_index(row as int, c, tiles_x as int)] == q_before[
                            cell_index(row as int, c, tiles_x as int)]);
                    }
                }
            }
            col = col + 1;
        }
        proof {
            lemma_mul_is_distributive_add_other_way(tiles_x as int + 1, row as int, 1);
            lemma_mul_basics(tiles_x as int + 1);
        }
        row = row + 1;
    }
    proof {
        lemma_mul_is_commutative(tiles_y as int + 1, tiles_x as int + 1);
        lemma_grid_exact_cover(q@, w, h, ts);
        lemma_grid_tiles_wf(q@, w, h, ts);
        lemma_grid_total_area(q@, w, h, ts);
    }
    q
}

impl Stray {
    /// Partitions this scene's output image into its work tiles.
    pub fn fill_work_queue(&self) -> (q: Vec<Work>)
        requires
            self.wf(),
        ensures
            q@.len() == (self.window.width as int / self.tile_size as int + 1) * (
            self.window.height as int / self.tile_size as int + 1),
            forall|i: int|
                0 <= i < q@.len() ==> (#[trigger] q@[i]).wf() && q@[i].upper_right_tile.0
                    <= self.window.width && q@[i].upper_right_tile.1 <= self.window.height,
            forall|row: int, col: int|
                0 <= row <= self.window.height as int / self.tile_size as int && 0 <= col
                    <= self.window.width as int / self.tile_size as int ==> tile_matches_cell(
                    q@[#[trigger] cell_index(
                        row,
                        col,
                        self.window.width as int / self.tile_size as int,
                    )],
                    col,
                    row,
                    self.window.width as int,
                    self.window.height as int,
                    self.tile_size as int,
                ),
            exact_cover(q@, self.window.width as int, self.window.height as int),
            total_area(q@) == self.window.width as int * self.window.height as int,
    {
        fill_work_queue(self.window.width, self.window.height, self.tile_size)
    }
}

} // verus!
