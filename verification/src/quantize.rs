//! The luminance quantizer: one raw interleaved luma/chroma frame is reduced,
//! cell by cell, to per-band activation flags. Only the checkerboard half of
//! the interior cells matching the frame's parity bit is refreshed; all other
//! cells keep their previous flags.

use vstd::prelude::*;
use vstd::arithmetic::div_mod::{
    lemma_div_is_ordered, lemma_div_multiples_vanish, lemma_fundamental_div_mod,
};
use vstd::arithmetic::mul::lemma_mul_inequality;
use crate::band::{Band, BAND_COUNT};
use crate::grid::Grid;

verus! {

/// Shape of one raw frame: `width × height` pixels whose rows start `stride`
/// bytes apart, each pixel contributing one luma byte at byte offset
/// `2 * x` into its row (chroma bytes interleaved between). `bleed` is the
/// horizontal source offset that centers the square cell grid on a wider
/// frame, and `pixels_per_cell` is the side of the source block that one grid
/// cell averages over.
pub struct FrameDims {
    pub width: usize,
    pub height: usize,
    pub stride: usize,
    pub bleed: usize,
    pub pixels_per_cell: usize,
}

/// The byte index of the luma sample of source pixel `(sx, sy)`: within each
/// two-pixel, four-byte packed group the luma bytes sit at offsets 0 and 2,
/// which puts the luma of pixel `sx` at byte `2 * sx` of its row.
pub open spec fn luma_index(stride: int, sx: int, sy: int) -> int {
    sy * stride + 2 * sx
}

/// The luma value sampled at `(sx, sy)`: the luma byte, or 255 ("bright")
/// when the byte index falls beyond the end of the buffer.
pub open spec fn luma_sample(frame: Seq<u8>, stride: int, sx: int, sy: int) -> int {
    if luma_index(stride, sx, sy) < frame.len() {
        frame[luma_index(stride, sx, sy)] as int
    } else {
        255
    }
}

/// Whether source pixel `(sx, sy)` lies inside the frame; pixels outside are
/// not sampled at all.
pub open spec fn in_frame(d: FrameDims, sx: int, sy: int) -> bool {
    sx < d.width && sy < d.height
}

/// Sum of the luma samples over the first `j` pixels (in row-major order) of
/// the `pixels_per_cell`-sided source block whose top-left pixel is
/// `(bx, by)`; out-of-frame pixels contribute nothing.
pub open spec fn block_total(frame: Seq<u8>, d: FrameDims, bx: int, by: int, j: int) -> int
    decreases j,
{
    if j <= 0 {
        0
    } else {
        let sx = bx + (j - 1) % (d.pixels_per_cell as int);
        let sy = by + (j - 1) / (d.pixels_per_cell as int);
        block_total(frame, d, bx, by, j - 1)
            + if in_frame(d, sx, sy) {
                luma_sample(frame, d.stride as int, sx, sy)
            } else {
                0
            }
    }
}

/// Number of in-frame pixels among the first `j` pixels of the same block.
pub open spec fn block_count(d: FrameDims, bx: int, by: int, j: int) -> int
    decreases j,
{
    if j <= 0 {
        0
    } else {
        let sx = bx + (j - 1) % (d.pixels_per_cell as int);
        let sy = by + (j - 1) / (d.pixels_per_cell as int);
        block_count(d, bx, by, j - 1) + if in_frame(d, sx, sy) {
            1int
        } else {
            0int
        }
    }
}

/// The block's average luminance: the integer-truncated mean of the sampled
/// luma values, or 0 when no pixel of the block lies inside the frame.
pub open spec fn block_average(frame: Seq<u8>, d: FrameDims, bx: int, by: int) -> int {
    let j = (d.pixels_per_cell * d.pixels_per_cell) as int;
    let c = block_count(d, bx, by, j);
    if c > 0 {
        block_total(frame, d, bx, by, j) / c
    } else {
        0
    }
}

proof fn lemma_block_bounds(frame: Seq<u8>, d: FrameDims, bx: int, by: int, j: int)
    requires
        j >= 0,
    ensures
        0 <= block_count(d, bx, by, j) <= j,
        0 <= block_total(frame, d, bx, by, j) <= 255 * block_count(d, bx, by, j),
    decreases j,
{
    if j > 0 {
        lemma_block_bounds(frame, d, bx, by, j - 1);
    }
}

/// The block average is itself a luminance value: it always lies in 0..=255.
pub proof fn lemma_block_average_bounds(frame: Seq<u8>, d: FrameDims, bx: int, by: int)
    ensures
        0 <= block_average(frame, d, bx, by) <= 255,
{
    let j = (d.pixels_per_cell * d.pixels_per_cell) as int;
    lemma_block_bounds(frame, d, bx, by, j);
    let c = block_count(d, bx, by, j);
    let t = block_total(frame, d, bx, by, j);
    if c > 0 {
        lemma_div_is_ordered(t, 255 * c, c);
        lemma_div_multiples_vanish(255, c);
        assert(t / c >= 0) by (nonlinear_arith)
            requires t >= 0 && c > 0;
    }
}

/// Averages the luma of the source block of one cell: the block's top-left
/// source pixel is `(bx, by)` and its side is `d.pixels_per_cell`. Pixels
/// outside the frame are skipped; a luma byte index beyond the end of the
/// buffer reads as bright (255). Integer truncation, 0 if nothing sampled.
pub fn compute_block_average(frame: &[u8], d: &FrameDims, bx: usize, by: usize) -> (r: u8)
    requires
        d.pixels_per_cell * d.pixels_per_cell * 255 <= u32::MAX,
        bx + d.pixels_per_cell <= usize::MAX,
        by + d.pixels_per_cell <= usize::MAX,
        d.height * d.stride + 2 * d.width <= usize::MAX,
    ensures
        r as int == block_average(frame@, *d, bx as int, by as int),
{
    let pic = d.pixels_per_cell;
    let total_pixels: usize = pic * pic;
    let mut total: u32 = 0;
    let mut count: u32 = 0;
    let mut j: usize = 0;
    proof {
        assert(pic * pic <= pic * pic * 255 && pic * pic * 255 >= 0) by (nonlinear_arith);
    }
    while j < total_pixels
        invariant
            j <= total_pixels,
            total_pixels == pic * pic,
            pic == d.pixels_per_cell,
            pic * pic * 255 <= u32::MAX,
            bx + pic <= usize::MAX,
            by + pic <= usize::MAX,
            d.height * d.stride + 2 * d.width <= usize::MAX,
            count as int == block_count(*d, bx as int, by as int, j as int),
            total as int == block_total(frame@, *d, bx as int, by as int, j as int),
        decreases total_pixels - j,
    {
        proof {
            lemma_block_bounds(frame@, *d, bx as int, by as int, j as int);
            assert(pic > 0) by (nonlinear_arith)
                requires 0 <= j < pic * pic;
            lemma_fundamental_div_mod(j as int, pic as int);
            assert(j % pic < pic && j / pic < pic) by (nonlinear_arith)
                requires 0 < pic && j < pic * pic;
        }
        let sx: usize = bx + j % pic;
        let sy: usize = by + j / pic;
        if sx < d.width && sy < d.height {
            proof {
                lemma_mul_inequality(sy as int, d.height as int - 1, d.stride as int);
                assert((d.height as int - 1) * d.stride + d.stride == d.height * d.stride)
                    by (nonlinear_arith);
                lemma_fundamental_div_mod(sx as int, 2);
            }
            let group: usize = sy * d.stride + (sx / 2) * 4;
            let offset: usize = if sx % 2 == 0 { 0 } else { 2 };
            let idx: usize = group + offset;
            assert(idx == luma_index(d.stride as int, sx as int, sy as int));
            let luma: u32 = if idx < frame.len() {
                frame[idx] as u32
            } else {
                255
            };
            proof {
                assert(count as int + 1 <= pic * pic) by (nonlinear_arith)
                    requires count as int <= j as int && (j as int) < pic * pic;
            }
            total = total + luma;
            count = count + 1;
        }
        j = j + 1;
    }
    proof {
        lemma_block_average_bounds(frame@, *d, bx as int, by as int);
    }
    if count > 0 {
        (total / count) as u8
    } else {
        0
    }
}

/// Whether cell `(x, y)` of an `n`-sided grid is refreshed on a frame with
/// parity bit `parity`: interior cells of the matching checkerboard color
/// only.
pub open spec fn refreshed(n: int, x: int, y: int, parity: int) -> bool {
    1 <= x < n - 1 && 1 <= y < n - 1 && (x + y) % 2 == parity
}

/// The activation flag cell `(x, y)` holds for band `k` after quantizing
/// `frame` over previous grid `g0`: refreshed cells are requantized from
/// their source block's average luminance, all others keep their old flag.
pub open spec fn quantized_flag(
    g0: Grid,
    frame: Seq<u8>,
    d: FrameDims,
    parity: int,
    bands: Seq<Band>,
    x: int,
    y: int,
    k: int,
) -> bool {
    if refreshed(g0.n as int, x, y, parity) {
        bands[k].activates(
            block_average(
                frame,
                d,
                d.bleed + x * d.pixels_per_cell,
                y * d.pixels_per_cell,
            ),
        )
    } else {
        g0.active(x, y, k)
    }
}

/// The activation rule: a cell refreshed this frame is active in band `k`
/// exactly when its source block's average luminance lies in band `k`'s
/// inclusive range.
pub proof fn lemma_activation_rule(
    g0: Grid,
    frame: Seq<u8>,
    d: FrameDims,
    parity: int,
    bands: Seq<Band>,
    x: int,
    y: int,
    k: int,
)
    requires
        refreshed(g0.n as int, x, y, parity),
        0 <= k < BAND_COUNT,
    ensures
        quantized_flag(g0, frame, d, parity, bands, x, y, k) == bands[k].activates(
            block_average(frame, d, d.bleed + x * d.pixels_per_cell, y * d.pixels_per_cell),
        ),
{
}

/// A block average outside every band's range leaves a refreshed cell with
/// an all-false activation vector.
pub proof fn lemma_outside_all_bands_inactive(
    g0: Grid,
    frame: Seq<u8>,
    d: FrameDims,
    parity: int,
    bands: Seq<Band>,
    x: int,
    y: int,
)
    requires
        refreshed(g0.n as int, x, y, parity),
        forall|k: int|
            0 <= k < BAND_COUNT ==> !(#[trigger] bands[k]).activates(
                block_average(frame, d, d.bleed + x * d.pixels_per_cell, y * d.pixels_per_cell),
            ),
    ensures
        forall|k: int|
            0 <= k < BAND_COUNT ==> !quantized_flag(g0, frame, d, parity, bands, x, y, k),
{
}

/// Toggles the frame parity bit: 0 and 1 alternate deterministically.
pub fn toggle_parity(parity: u8) -> (r: u8)
    requires
        parity < 2,
    ensures
        r < 2,
        r == 1 - parity,
{
    1 - parity
}

/// Across two consecutive frames the parity bit takes both values, so every
/// interior cell is refreshed in exactly one of the two frames.
pub proof fn lemma_checkerboard_covers(n: int, x: int, y: int, parity: int)
    requires
        1 <= x < n - 1,
        1 <= y < n - 1,
        0 <= parity < 2,
    ensures
        refreshed(n, x, y, parity) != refreshed(n, x, y, 1 - parity),
{
}

/// Quantizes one raw frame into the activation grid. Interior cells whose
/// checkerboard color matches `parity` are refreshed: for each band `k` the
/// cell becomes active exactly when the integer average luminance of its
/// source block lies in the band's inclusive range. Every other cell — the
/// other checkerboard color and the whole border — keeps its previous flags.
pub fn quantize(
    frame: &[u8],
    d: &FrameDims,
    parity: u8,
    bands: &Vec<Band>,
    grid: &mut Grid,
)
    requires
        old(grid).wf(),
        bands.len() == BAND_COUNT,
        parity < 2,
        2 * old(grid).n <= usize::MAX,
        d.pixels_per_cell * d.pixels_per_cell * 255 <= u32::MAX,
        d.bleed + old(grid).n * d.pixels_per_cell <= usize::MAX,
        d.height * d.stride + 2 * d.width <= usize::MAX,
    ensures
        final(grid).wf(),
        final(grid).n == old(grid).n,
        forall|x: int, y: int, k: int|
            0 <= x < old(grid).n && 0 <= y < old(grid).n && 0 <= k < BAND_COUNT
                ==> final(grid).active(x, y, k) == quantized_flag(
                    *old(grid), frame@, *d, parity as int, bands@, x, y, k,
                ),
{
    let n = grid.n;
    let ghost g0 = *grid;
    if n < 3 {
        proof {
            assert forall|x: int, y: int, k: int|
                0 <= x < g0.n && 0 <= y < g0.n && 0 <= k < BAND_COUNT
                implies grid.active(x, y, k) == quantized_flag(
                    g0, frame@, *d, parity as int, bands@, x, y, k,
                )
            by {
                assert(!refreshed(g0.n as int, x, y, parity as int));
            }
        }
        return;
    }
    let mut y: usize = 1;
    while y < n - 1
        invariant
            grid.wf(),
            grid.n == n,
            n == g0.n,
            3 <= n,
            bands.len() == BAND_COUNT,
            parity < 2,
            2 * n <= usize::MAX,
            d.pixels_per_cell * d.pixels_per_cell * 255 <= u32::MAX,
            d.bleed + n * d.pixels_per_cell <= usize::MAX,
            d.height * d.stride + 2 * d.width <= usize::MAX,
            1 <= y <= n - 1,
            forall|x2: int, y2: int, k2: int|
                0 <= x2 < n && 0 <= y2 < n && 0 <= k2 < BAND_COUNT
                    ==> grid.active(x2, y2, k2) == (if y2 < y {
                        quantized_flag(g0, frame@, *d, parity as int, bands@, x2, y2, k2)
                    } else {
                        g0.active(x2, y2, k2)
                    }),
        decreases n - y,
    {
        let mut x: usize = 1;
        while x < n - 1
            invariant
                grid.wf(),
                grid.n == n,
                n == g0.n,
                3 <= n,
                bands.len() == BAND_COUNT,
                parity < 2,
                2 * n <= usize::MAX,
                d.pixels_per_cell * d.pixels_per_cell * 255 <= u32::MAX,
                d.bleed + n * d.pixels_per_cell <= usize::MAX,
                d.height * d.stride + 2 * d.width <= usize::MAX,
                1 <= y < n - 1,
                1 <= x <= n - 1,
                forall|x2: int, y2: int, k2: int|
                    0 <= x2 < n && 0 <= y2 < n && 0 <= k2 < BAND_COUNT
                        ==> grid.active(x2, y2, k2) == (if y2 < y || (y2 == y && x2 < x) {
                            quantized_flag(g0, frame@, *d, parity as int, bands@, x2, y2, k2)
                        } else {
                            g0.active(x2, y2, k2)
                        }),
            decreases n - x,
        {
            if (x + y) % 2 == parity as usize {
                proof {
                    lemma_mul_inequality(x as int, n as int - 1, d.pixels_per_cell as int);
                    lemma_mul_inequality(y as int, n as int - 1, d.pixels_per_cell as int);
                    assert((n as int - 1) * d.pixels_per_cell + d.pixels_per_cell
                        == n * d.pixels_per_cell) by (nonlinear_arith);
                }
                let bx: usize = d.bleed + x * d.pixels_per_cell;
                let by: usize = y * d.pixels_per_cell;
                let avg: u8 = compute_block_average(frame, d, bx, by);
                let f0 = bands[0].is_active(avg);
                let f1 = bands[1].is_active(avg);
                let f2 = bands[2].is_active(avg);
                let f3 = bands[3].is_active(avg);
                grid.set(x, y, 0, f0);
                grid.set(x, y, 1, f1);
                grid.set(x, y, 2, f2);
                grid.set(x, y, 3, f3);
                proof {
                    assert(refreshed(n as int, x as int, y as int, parity as int));
                }
            } else {
                proof {
                    assert(!refreshed(n as int, x as int, y as int, parity as int));
                }
            }
            x = x + 1;
        }
        y = y + 1;
    }
    proof {
        assert forall|x2: int, y2: int, k2: int|
            0 <= x2 < n && 0 <= y2 < n && 0 <= k2 < BAND_COUNT
            implies grid.active(x2, y2, k2) == quantized_flag(
                g0, frame@, *d, parity as int, bands@, x2, y2, k2,
            )
        by {
            if y2 >= n - 1 {
                assert(!refreshed(g0.n as int, x2, y2, parity as int));
            }
        }
    }
}

} // verus!
