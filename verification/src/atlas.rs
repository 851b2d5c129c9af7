//! The tile atlas: for every band and every 4-bit neighbor-connectivity code
//! one pre-rendered square pixel tile. Bit 1 of a code means the neighbor
//! above is active in the same band, bit 2 the neighbor to the right, bit 4
//! the neighbor below, bit 8 the neighbor to the left. A single bit draws a
//! straight stroke from the tile center to that edge midpoint; two adjacent
//! bits draw the quarter-circle turn connecting the two edge midpoints; the
//! two opposite pairs draw full straight pass-through strokes; three or four
//! bits layer the corresponding quarter turns additively. Code 0 (an
//! isolated active cell) draws nothing. Untouched pixels stay 0, fully
//! transparent, so the compositor can overlay tiles.

use vstd::prelude::*;
use crate::band::{Band, BAND_COUNT};
use crate::draw::{circle_stroke_points, circle_stroke_spec, line_stroke_points, line_stroke_spec};
use vstd::arithmetic::div_mod::{lemma_fundamental_div_mod, lemma_fundamental_div_mod_converse};

verus! {

/// One square pixel tile of side `size`, stored row-major. 0 is transparent;
/// any painted pixel is nonzero (an opaque `0xAARRGGBB` value).
pub struct Tile {
    pub size: usize,
    pub pixels: Vec<u32>,
}

impl Tile {
    /// The pixel vector covers the whole square.
    pub open spec fn wf(self) -> bool {
        self.pixels.len() == self.size * self.size
    }
}

/// An all-transparent tile of side `size`.
pub open spec fn blank(size: int) -> Seq<u32> {
    Seq::new((size * size) as nat, |i: int| 0u32)
}

/// `base` with the single point `p` painted in `color`, if `p` lies inside
/// the `size`-sided square; points outside are clipped away.
pub open spec fn paint_one(base: Seq<u32>, size: int, p: (i32, i32), color: u32) -> Seq<u32> {
    if 0 <= p.0 < size && 0 <= p.1 < size {
        base.update(p.1 * size + p.0, color)
    } else {
        base
    }
}

/// `base` with every point of `pts` painted in `color`, in order, clipped to
/// the `size`-sided square.
pub open spec fn paint(base: Seq<u32>, size: int, pts: Seq<(i32, i32)>, color: u32) -> Seq<u32>
    decreases pts.len(),
{
    if pts.len() == 0 {
        base
    } else {
        paint_one(paint(base, size, pts.drop_last(), color), size, pts.last(), color)
    }
}

/// The pixels of the tile for connectivity code `code`, on a square of side
/// `size`, stroked `width` thick in `color`. Each quarter turn is the
/// tile-clipped quarter of the circle through the two edge midpoints it
/// connects, centered on the corner between them.
pub open spec fn tile_pixels(size: int, code: int, width: u32, color: u32) -> Seq<u32> {
    let s: i32 = size as i32;
    let c: i32 = (size / 2) as i32;
    let m: i32 = (0 - size / 2) as i32;
    let d: u32 = size as u32;
    let b = blank(size);
    if code == 1 {  // up
        paint(b, size, line_stroke_spec(c, 0, c, c, width), color)
    } else if code == 2 {  // right
        paint(b, size, line_stroke_spec(c, c, s, c, width), color)
    } else if code == 3 {  // up + right: turn through the top-right corner
        paint(b, size, circle_stroke_spec(c, m, d, width), color)
    } else if code == 4 {  // down
        paint(b, size, line_stroke_spec(c, c, c, s, width), color)
    } else if code == 5 {  // up + down: straight pass-through
        paint(b, size, line_stroke_spec(c, 0, c, s, width), color)
    } else if code == 6 {  // right + down: turn through the bottom-right corner
        paint(b, size, circle_stroke_spec(c, c, d, width), color)
    } else if code == 7 {  // up + right + down
        paint(
            paint(b, size, circle_stroke_spec(c, m, d, width), color),
            size,
            circle_stroke_spec(c, c, d, width),
            color,
        )
    } else if code == 8 {  // left
        paint(b, size, line_stroke_spec(0, c, c, c, width), color)
    } else if code == 9 {  // up + left: turn through the top-left corner
        paint(b, size, circle_stroke_spec(m, m, d, width), color)
    } else if code == 10 {  // left + right: straight pass-through
        paint(b, size, line_stroke_spec(0, c, s, c, width), color)
    } else if code == 11 {  // up + right + left
        paint(
            paint(b, size, circle_stroke_spec(c, m, d, width), color),
            size,
            circle_stroke_spec(m, m, d, width),
            color,
        )
    } else if code == 12 {  // down + left: turn through the bottom-left corner
        paint(b, size, circle_stroke_spec(m, c, d, width), color)
    } else if code == 13 {  // up + down + left
        paint(
            paint(b, size, circle_stroke_spec(m, m, d, width), color),
            size,
            circle_stroke_spec(m, c, d, width),
            color,
        )
    } else if code == 14 {  // right + down + left
        paint(
            paint(b, size, circle_stroke_spec(c, c, d, width), color),
            size,
            circle_stroke_spec(m, c, d, width),
            color,
        )
    } else if code == 15 {  // all four neighbors: a closed rosette of turns
        paint(
            paint(
                paint(
                    paint(b, size, circle_stroke_spec(m, m, d, width), color),
                    size,
                    circle_stroke_spec(c, m, d, width),
                    color,
                ),
                size,
                circle_stroke_spec(c, c, d, width),
                color,
            ),
            size,
            circle_stroke_spec(m, c, d, width),
            color,
        )
    } else {  // code 0: an isolated cell draws nothing
        b
    }
}

/// Paints a point list returned by a rasterization primitive into a tile's
/// pixel vector, clipping to the square and overwriting with `color`.
fn paint_points(pixels: &mut Vec<u32>, size: usize, pts: &Vec<(i32, i32)>, color: u32)
    requires
        old(pixels).len() == size * size,
        1 <= size <= 4096,
    ensures
        final(pixels)@ == paint(old(pixels)@, size as int, pts@, color),
        final(pixels).len() == old(pixels).len(),
{
    let mut i: usize = 0;
    while i < pts.len()
        invariant
            i <= pts.len(),
            1 <= size <= 4096,
            pixels@ == paint(old(pixels)@, size as int, pts@.take(i as int), color),
            pixels.len() == old(pixels).len(),
            old(pixels).len() == size * size,
        decreases pts.len() - i,
    {
        proof {
            assert(pts@.take(i + 1).drop_last() =~= pts@.take(i as int));
            assert(pts@.take(i + 1).last() == pts@[i as int]);
        }
        let (px, py) = pts[i];
        if px >= 0 && py >= 0 && (px as usize) < size && (py as usize) < size {
            proof {
                assert((py as int) * size + px < size * size) by (nonlinear_arith)
                    requires 0 <= (py as int) < size && 0 <= (px as int) < size;
                assert(0 <= (py as int) * size) by (nonlinear_arith)
                    requires 0 <= (py as int) && 0 <= size;
            }
            pixels.set((py as usize) * size + (px as usize), color);
        }
        i = i + 1;
    }
    proof {
        assert(pts@.take(pts.len() as int) =~= pts@);
    }
}

/// The products the rasterizer forms from an axis-aligned stroke of width
/// `w` and length at most `s` stay inside the wrappers' 32-bit bounds.
proof fn lemma_axis_stroke_fits(w: int, s: int, d: int)
    requires
        0 <= w,
        1 <= s,
        w * s <= 11000,
        0 <= d <= s,
    ensures
        w <= 11000,
        w * w * (d * d) <= 121000000,
{
    assert(w * d <= 11000) by (nonlinear_arith)
        requires 0 <= w, 0 <= d <= s, w * s <= 11000;
    assert(w * w * (d * d) <= 121000000) by (nonlinear_arith)
        requires 0 <= w, 0 <= d, w * d <= 11000;
    assert(w <= 11000) by (nonlinear_arith)
        requires 0 <= w, 1 <= s, w * s <= 11000;
}

/// Builds the tile for one band and one connectivity code: the primitives
/// the code calls for are rasterized and painted, in order, onto an
/// initially transparent square. The bound on the stroke width times the
/// tile side keeps the rasterizer's 32-bit arithmetic in range.
pub fn build_tile(size: usize, code: u8, band: &Band) -> (t: Tile)
    requires
        1 <= size <= 4096,
        code < 16,
        (band.thickness as int) * (size as int) <= 11000,
    ensures
        t.wf(),
        t.size == size,
        t.pixels@ == tile_pixels(size as int, code as int, band.thickness, band.pixel_spec()),
{
    let mut pixels: Vec<u32> = Vec::new();
    proof {
        assert(size * size <= 4096 * 4096) by (nonlinear_arith)
            requires 1 <= size <= 4096;
    }
    let total: usize = size * size;
    let mut i: usize = 0;
    while i < total
        invariant
            i <= total,
            pixels.len() == i,
            forall|j: int| 0 <= j < i ==> pixels@[j] == 0u32,
        decreases total - i,
    {
        pixels.push(0);
        i = i + 1;
    }
    proof {
        assert(pixels@ =~= blank(size as int));
    }
    let s: i32 = size as i32;
    let c: i32 = s / 2;
    let m: i32 = 0 - c;
    let d: u32 = size as u32;
    let w: u32 = band.thickness;
    let col: u32 = band.pixel();
    proof {
        lemma_fundamental_div_mod(size as int, 2);
        assert(0 <= c as int <= size as int);
        lemma_axis_stroke_fits(w as int, size as int, 0);
        lemma_axis_stroke_fits(w as int, size as int, c as int);
        lemma_axis_stroke_fits(w as int, size as int, (size as int) - (c as int));
        lemma_axis_stroke_fits(w as int, size as int, size as int);
    }
    match code {
        0 => {},
        1 => {
            let pts = line_stroke_points(c, 0, c, c, w);
            paint_points(&mut pixels, size, &pts, col);
        },
        2 => {
            let pts = line_stroke_points(c, c, s, c, w);
            paint_points(&mut pixels, size, &pts, col);
        },
        3 => {
            let pts = circle_stroke_points(c, m, d, w);
            paint_points(&mut pixels, size, &pts, col);
        },
        4 => {
            let pts = line_stroke_points(c, c, c, s, w);
            paint_points(&mut pixels, size, &pts, col);
        },
        5 => {
            let pts = line_stroke_points(c, 0, c, s, w);
            paint_points(&mut pixels, size, &pts, col);
        },
        6 => {
            let pts = circle_stroke_points(c, c, d, w);
            paint_points(&mut pixels, size, &pts, col);
        },
        7 => {
            let pts = circle_stroke_points(c, m, d, w);
            paint_points(&mut pixels, size, &pts, col);
            let pts2 = circle_stroke_points(c, c, d, w);
            paint_points(&mut pixels, size, &pts2, col);
        },
        8 => {
            let pts = line_stroke_points(0, c, c, c, w);
            paint_points(&mut pixels, size, &pts, col);
        },
        9 => {
            let pts = circle_stroke_points(m, m, d, w);
            paint_points(&mut pixels, size, &pts, col);
        },
        10 => {
            let pts = line_stroke_points(0, c, s, c, w);
            paint_points(&mut pixels, size, &pts, col);
        },
        11 => {
            let pts = circle_stroke_points(c, m, d, w);
            paint_points(&mut pixels, size, &pts, col);
            let pts2 = circle_stroke_points(m, m, d, w);
            paint_points(&mut pixels, size, &pts2, col);
        },
        12 => {
            let pts = circle_stroke_points(m, c, d, w);
            paint_points(&mut pixels, size, &pts, col);
        },
        13 => {
            let pts = circle_stroke_points(m, m, d, w);
            paint_points(&mut pixels, size, &pts, col);
            let pts2 = circle_stroke_points(m, c, d, w);
            paint_points(&mut pixels, size, &pts2, col);
        },
        14 => {
            let pts = circle_stroke_points(c, c, d, w);
            paint_points(&mut pixels, size, &pts, col);
            let pts2 = circle_stroke_points(m, c, d, w);
            paint_points(&mut pixels, size, &pts2, col);
        },
        _ => {
            let pts = circle_stroke_points(m, m, d, w);
            paint_points(&mut pixels, size, &pts, col);
            let pts2 = circle_stroke_points(c, m, d, w);
            paint_points(&mut pixels, size, &pts2, col);
            let pts3 = circle_stroke_points(c, c, d, w);
            paint_points(&mut pixels, size, &pts3, col);
            let pts4 = circle_stroke_points(m, c, d, w);
            paint_points(&mut pixels, size, &pts4, col);
        },
    }
    Tile { size, pixels }
}

/// The full atlas: one tile per band per connectivity code, the tile of band
/// `k` and code `c` at index `k * 16 + c`.
pub struct Atlas {
    pub tile_size: usize,
    pub tiles: Vec<Tile>,
}

impl Atlas {
    /// Every (band, code) pair has its tile, and all tiles share the side
    /// `tile_size`.
    pub open spec fn wf(self) -> bool {
        &&& self.tiles.len() == BAND_COUNT * 16
        &&& forall|i: int|
            0 <= i < self.tiles.len() ==> (#[trigger] self.tiles@[i]).wf()
                && self.tiles@[i].size == self.tile_size
    }

    /// The tile for band `k` and connectivity code `code`.
    pub open spec fn tile(self, k: int, code: int) -> Tile {
        self.tiles@[k * 16 + code]
    }

    /// The atlas holds exactly the tiles that `bands` and `size` determine:
    /// band definitions alone fix every pixel of every tile.
    pub open spec fn built_from(self, bands: Seq<Band>, size: int) -> bool {
        &&& self.wf()
        &&& self.tile_size == size
        &&& forall|k: int, c: int|
            0 <= k < BAND_COUNT && 0 <= c < 16 ==> (#[trigger] self.tile(k, c)).pixels@
                == tile_pixels(size, c, bands[k].thickness, bands[k].pixel_spec())
    }
}

/// Builds the complete atlas for the given bands: all 16 connectivity codes
/// of every band, rendered once, before any frame is processed. Every
/// band's stroke width, times the tile side, must stay inside the
/// rasterizer's 32-bit range.
pub fn build_atlas(bands: &Vec<Band>, tile_size: usize) -> (r: Atlas)
    requires
        bands.len() == BAND_COUNT,
        1 <= tile_size <= 4096,
        forall|k: int|
            0 <= k < BAND_COUNT ==> ((#[trigger] bands@[k]).thickness as int) * (tile_size as int)
                <= 11000,
    ensures
        r.built_from(bands@, tile_size as int),
{
    let mut tiles: Vec<Tile> = Vec::new();
    let total: usize = BAND_COUNT * 16;
    let mut i: usize = 0;
    while i < total
        invariant
            i <= total,
            total == BAND_COUNT * 16,
            tiles.len() == i,
            bands.len() == BAND_COUNT,
            1 <= tile_size <= 4096,
            forall|k: int|
                0 <= k < BAND_COUNT ==> ((#[trigger] bands@[k]).thickness as int) * (
                tile_size as int) <= 11000,
            forall|j: int|
                0 <= j < i ==> (#[trigger] tiles@[j]).wf() && tiles@[j].size == tile_size,
            forall|k: int, c: int|
                0 <= k < BAND_COUNT && 0 <= c < 16 && k * 16 + c < i ==> tiles@[k * 16
                    + c].pixels@ == tile_pixels(
                    tile_size as int,
                    c,
                    bands@[k].thickness,
                    bands@[k].pixel_spec(),
                ),
        decreases total - i,
    {
        proof {
            lemma_fundamental_div_mod(i as int, 16);
        }
        let k: usize = i / 16;
        let c: usize = i % 16;
        let t = build_tile(tile_size, c as u8, &bands[k]);
        tiles.push(t);
        proof {
            assert forall|k2: int, c2: int|
                0 <= k2 < BAND_COUNT && 0 <= c2 < 16 && k2 * 16 + c2 < i + 1
                implies tiles@[k2 * 16 + c2].pixels@ == tile_pixels(
                    tile_size as int,
                    c2,
                    bands@[k2].thickness,
                    bands@[k2].pixel_spec(),
                )
            by {
                if k2 * 16 + c2 == i {
                    lemma_fundamental_div_mod_converse(i as int, 16, k2, c2);
                }
            }
        }
        i = i + 1;
    }
    let r = Atlas { tile_size, tiles };
    proof {
        assert forall|k: int, c: int| 0 <= k < BAND_COUNT && 0 <= c < 16
            implies (#[trigger] r.tile(k, c)).pixels@ == tile_pixels(
                tile_size as int,
                c,
                bands@[k].thickness,
                bands@[k].pixel_spec(),
            )
        by {
            assert(k * 16 + c < BAND_COUNT * 16) by (nonlinear_arith)
                requires 0 <= k < BAND_COUNT && 0 <= c < 16;
        }
    }
    r
}

/// Atlas determinism: two atlases built from identical band definitions and
/// the same tile size hold pixel-identical tiles.
pub proof fn lemma_atlas_deterministic(a1: Atlas, a2: Atlas, bands: Seq<Band>, size: int)
    requires
        a1.built_from(bands, size),
        a2.built_from(bands, size),
    ensures
        forall|k: int, c: int|
            0 <= k < BAND_COUNT && 0 <= c < 16 ==> (#[trigger] a1.tile(k, c)).pixels@ == a2.tile(
                k,
                c,
            ).pixels@,
{
}

/// The tile of connectivity code 0 — an isolated active cell — is fully
/// transparent: isolated activity draws nothing.
pub proof fn lemma_isolated_tile_transparent(size: int, width: u32, color: u32)
    ensures
        forall|i: int|
            0 <= i < tile_pixels(size, 0, width, color).len() ==> tile_pixels(
                size,
                0,
                width,
                color,
            )[i] == 0,
{
}

} // verus!
