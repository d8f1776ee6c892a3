//! The assembled output image.
//!
//! A [`Frame`] holds one finished pixel per coordinate, row-major with row
//! `0` first, ready for an external encoder. Rendered tiles are folded in by
//! [`Frame::merge_tile`]; merging every tile of an exact partition in any
//! order paints every pixel exactly once.

use crate::tile::{
    lemma_mul_upper_bound_u32, lemma_row_major_index_bounds, lemma_row_major_index_injective,
    TileBuffer,
};
use crate::Rgb8;
use vstd::prelude::*;

verus! {

/// The color pixel `(px, py)` shows after the buffers of `tiles` are merged
/// in order over a pixel that started as `orig`: the color of the last tile
/// containing the pixel, or `orig` if none does.
pub open spec fn merged_pixel(orig: Rgb8, tiles: Seq<TileBuffer>, px: int, py: int) -> Rgb8
    decreases tiles.len(),
{
    if tiles.len() == 0 {
        orig
    } else if tiles.last().work.contains(px, py) {
        tiles.last().color_at(
            px - tiles.last().work.lower_left_tile.0,
            py - tiles.last().work.lower_left_tile.1,
        )
    } else {
        merged_pixel(orig, tiles.drop_last(), px, py)
    }
}

/// The output image: `width * height` finished pixels, row-major.
#[derive(PartialEq, Debug)]
pub struct Frame {
    pub width: u32,
    pub height: u32,
    pub pixels: Vec<Rgb8>,
}

impl Frame {
    /// The buffer holds exactly one pixel per coordinate.
    pub open spec fn wf(self) -> bool {
        self.pixels@.len() == self.width as int * self.height as int
    }

    /// The pixel stored for image coordinate `(x, y)`.
    pub open spec fn pixel_at(self, x: int, y: int) -> Rgb8 {
        self.pixels@[y * self.width as int + x]
    }

    /// An all-black image of the given dimensions.
    pub fn new(width: u32, height: u32) -> (f: Frame)
        requires
            width as int * height as int <= usize::MAX,
        ensures
            f.wf(),
            f.width == width,
            f.height == height,
            forall|i: int|
                0 <= i < f.pixels@.len() ==> (#[trigger] f.pixels@[i]) == (Rgb8 {
                    r: 0,
                    g: 0,
                    b: 0,
                }),
    {
        proof {
            lemma_mul_upper_bound_u32(width as int, height as int);
        }
        let n: u64 = width as u64 * height as u64;
        let mut pixels: Vec<Rgb8> = Vec::new();
        let mut i: u64 = 0;
        while i < n
            invariant
                i <= n,
                n == width as int * height as int,
                n <= usize::MAX,
                pixels@.len() == i,
                forall|k: int|
                    0 <= k < i ==> (#[trigger] pixels@[k]) == (Rgb8 { r: 0, g: 0, b: 0 }),
            decreases n - i,
        {
            pixels.push(Rgb8::black());
            i = i + 1;
        }
        Frame { width, height, pixels }
    }

    /// Reads the pixel at image coordinate `(x, y)`.
    pub fn get_pixel(&self, x: u32, y: u32) -> (c: Rgb8)
        requires
            self.wf(),
            x < self.width,
            y < self.height,
        ensures
            c == self.pixel_at(x as int, y as int),
    {
        proof {
            lemma_row_major_index_bounds(x as int, y as int, self.width as int, self.height as int);
            lemma_mul_upper_bound_u32(y as int, self.width as int);
        }
        let len = self.pixels.len();
        assert(y * self.width + x < len);
        self.pixels[(y as u64 * self.width as u64 + x as u64) as usize]
    }

    /// Copies a rendered tile into the image: every pixel of the tile's
    /// rectangle takes the tile's color for it, every other pixel keeps its
    /// previous color.
    pub fn merge_tile(&mut self, tile: &TileBuffer)
        requires
            old(self).wf(),
            tile.wf(),
            tile.work.upper_right_tile.0 <= old(self).width,
            tile.work.upper_right_tile.1 <= old(self).height,
        ensures
            final(self).wf(),
            final(self).width == old(self).width,
            final(self).height == old(self).height,
            forall|px: int, py: int|
                0 <= px < old(self).width && 0 <= py < old(self).height ==> #[trigger] final(self).pixel_at(px, py) == (if tile.work.contains(px, py) {
                    tile.color_at(
                        px - tile.work.lower_left_tile.0,
                        py - tile.work.lower_left_tile.1,
                    )
                } else {
                    old(self).pixel_at(px, py)
                }),
    {
        let x_base = tile.work.lower_left_tile.0;
        let y_base = tile.work.lower_left_tile.1;
        let tw = tile.work.width();
        let th = tile.work.height();
        let mut dy: u32 = 0;
        while dy < th
            invariant
                self.wf(),
                self.width == old(self).width,
                self.height == old(self).height,
                tile.wf(),
                tile.work.upper_right_tile.0 <= self.width,
                tile.work.upper_right_tile.1 <= self.height,
                x_base == tile.work.lower_left_tile.0,
                y_base == tile.work.lower_left_tile.1,
                tw == tile.work.spec_width(),
                th == tile.work.spec_height(),
                dy <= th,
                forall|px: int, py: int|
                    0 <= px < self.width && 0 <= py < self.height ==> #[trigger] self.pixel_at(
                        px,
                        py,
                    ) == (if tile.work.contains(px, py) && py < y_base + dy {
                        tile.color_at(px - x_base, py - y_base)
                    } else {
                        old(self).pixel_at(px, py)
                    }),
            decreases th - dy,
        {
            let mut dx: u32 = 0;
            while dx < tw
                invariant
                    self.wf(),
                    self.width == old(self).width,
                    self.height == old(self).height,
                    tile.wf(),
                    tile.work.upper_right_tile.0 <= self.width,
                    tile.work.upper_right_tile.1 <= self.height,
                    x_base == tile.work.lower_left_tile.0,
                    y_base == tile.work.lower_left_tile.1,
                    tw == tile.work.spec_width(),
                    th == tile.work.spec_height(),
                    dy < th,
                    dx <= tw,
                    forall|px: int, py: int|
                        0 <= px < self.width && 0 <= py < self.height ==> #[trigger] self.pixel_at(
                            px,
                            py,
                        ) == (if tile.work.contains(px, py) && (py < y_base + dy || (py == y_base
                            + dy && px < x_base + dx)) {
                            tile.color_at(px - x_base, py - y_base)
                        } else {
                            old(self).pixel_at(px, py)
                        }),
                decreases tw - dx,
            {
                let c = tile.get_color(dx, dy);
                let img_x = x_base + dx;
                let img_y = y_base + dy;
                proof {
                    lemma_row_major_index_bounds(
                        img_x as int,
                        img_y as int,
                        self.width as int,
                        self.height as int,
                    );
                    lemma_mul_upper_bound_u32(img_y as int, self.width as int);
                }
                let len = self.pixels.len();
                assert(img_y * self.width + img_x < len);
                let ghost prev_frame = *self;
                let idx: usize = (img_y as u64 * self.width as u64 + img_x as u64) as usize;
                self.pixels.set(idx, c);
                proof {
                    assert(self.pixels@ == prev_frame.pixels@.update(idx as int, c));
                    assert forall|px: int, py: int|
                        0 <= px < self.width && 0 <= py < self.height implies #[trigger] self.pixel_at(
                        px,
                        py,
                    ) == (if tile.work.contains(px, py) && (py < y_base + dy || (py == y_base + dy
                        && px < x_base + dx + 1)) {
                        tile.color_at(px - x_base, py - y_base)
                    } else {
                        old(self).pixel_at(px, py)
                    }) by {
                        let w = self.width as int;
                        let pos = py * w + px;
                        lemma_row_major_index_bounds(px, py, w, self.height as int);
                        assert(prev_frame.pixel_at(px, py) == (if tile.work.contains(px, py) && (py
                            < y_base + dy || (py == y_base + dy && px < x_base + dx)) {
                            tile.color_at(px - x_base, py - y_base)
                        } else {
                            old(self).pixel_at(px, py)
                        }));
                        if pos == idx as int {
                            lemma_row_major_index_injective(px, py, img_x as int, img_y as int, w);
                        } else {
                            assert(self.pixel_at(px, py) == prev_frame.pixel_at(px, py));
                            if py == y_base + dy && px == x_base + dx {
                                assert(pos == idx as int);
                            }
                        }
                    }
                }
                dx = dx + 1;
            }
            dy = dy + 1;
        }
    }

    /// Merges every tile buffer of `tiles` into the image, in order. Each
    /// pixel ends with the color of the last tile containing it, or keeps
    /// its previous color where no tile does.
    pub fn merge_all(&mut self, tiles: &Vec<TileBuffer>)
        requires
            old(self).wf(),
            forall|k: int|
                0 <= k < tiles@.len() ==> (#[trigger] tiles@[k]).wf()
                    && tiles@[k].work.upper_right_tile.0 <= old(self).width
                    && tiles@[k].work.upper_right_tile.1 <= old(self).height,
        ensures
            final(self).wf(),
            final(self).width == old(self).width,
            final(self).height == old(self).height,
            forall|px: int, py: int|
                0 <= px < old(self).width && 0 <= py < old(self).height ==> #[trigger] final(self).pixel_at(px, py) == merged_pixel(old(self).pixel_at(px, py), tiles@, px, py),
    {
        proof {
            assert(tiles@.take(0) =~= Seq::<TileBuffer>::empty());
        }
        let mut k: usize = 0;
        while k < tiles.len()
            invariant
                self.wf(),
                self.width == old(self).width,
                self.height == old(self).height,
                forall|j: int|
                    0 <= j < tiles@.len() ==> (#[trigger] tiles@[j]).wf()
                        && tiles@[j].work.upper_right_tile.0 <= self.width
                        && tiles@[j].work.upper_right_tile.1 <= self.height,
                k <= tiles@.len(),
                forall|px: int, py: int|
                    0 <= px < self.width && 0 <= py < self.height ==> #[trigger] self.pixel_at(
                        px,
                        py,
                    ) == merged_pixel(old(self).pixel_at(px, py), tiles@.take(k as int), px, py),
            decreases tiles@.len() - k,
        {
            let ghost prev = *self;
            self.merge_tile(&tiles[k]);
            proof {
                assert(tiles@.take(k as int + 1).drop_last() =~= tiles@.take(k as int));
                assert(tiles@.take(k as int + 1).last() == tiles@[k as int]);
                assert forall|px: int, py: int|
                    0 <= px < self.width && 0 <= py < self.height implies #[trigger] self.pixel_at(
                    px,
                    py,
                ) == merged_pixel(old(self).pixel_at(px, py), tiles@.take(k as int + 1), px, py) by {
                    assert(prev.pixel_at(px, py) == merged_pixel(
                        old(self).pixel_at(px, py),
                        tiles@.take(k as int),
                        px,
                        py,
                    ));
                }
            }
            k = k + 1;
        }
        proof {
            assert(tiles@.take(tiles@.len() as int) =~= tiles@);
        }
    }
}

} // verus!
