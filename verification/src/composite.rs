//! The connectivity compositor: fills the framebuffer with the background
//! color, then, for every interior cell and every band it is active in —
//! band 0 first through band 3 last, so later bands fully occlude earlier
//! ones pixel by pixel — blits the non-transparent pixels of the tile that
//! the cell's 4-bit neighbor-connectivity code selects.

use vstd::prelude::*;
use vstd::arithmetic::div_mod::lemma_fundamental_div_mod;
use crate::atlas::Atlas;
use crate::band::BAND_COUNT;
use crate::grid::{lemma_active_is_interior, Grid};

verus! {

/// The 4-bit connectivity code of cell `(x, y)` in band `k`: bit 1 when the
/// neighbor above is active in `k`, bit 2 for the neighbor to the right,
/// bit 4 for the one below, bit 8 for the one to the left. Meaningful for
/// interior cells, whose four neighbors are all grid cells.
pub open spec fn code_spec(g: Grid, x: int, y: int, k: int) -> int {
    (if g.active(x, y - 1, k) { 1int } else { 0int })
    + (if g.active(x + 1, y, k) { 2int } else { 0int })
    + (if g.active(x, y + 1, k) { 4int } else { 0int })
    + (if g.active(x - 1, y, k) { 8int } else { 0int })
}

/// Computes the connectivity code of an interior cell by querying its four
/// neighbors; the interior precondition keeps every query inside the grid.
pub fn neighbor_code(g: &Grid, x: usize, y: usize, k: usize) -> (r: u8)
    requires
        g.wf(),
        g.is_interior(x as int, y as int),
        k < BAND_COUNT,
    ensures
        r as int == code_spec(*g, x as int, y as int, k as int),
        r < 16,
{
    let mut code: u8 = 0;
    if g.get(x, y - 1, k) {
        code = code + 1;
    }
    if g.get(x + 1, y, k) {
        code = code + 2;
    }
    if g.get(x, y + 1, k) {
        code = code + 4;
    }
    if g.get(x - 1, y, k) {
        code = code + 8;
    }
    code
}

/// The color of the pixel at offset `(px, py)` inside the tile square of
/// cell `(x, y)`, considering only bands below `k`: the highest such band in
/// which the cell is active and whose tile is non-transparent there wins;
/// with none, the background shows through.
pub open spec fn cell_pixel(
    g: Grid,
    a: Atlas,
    bg: u32,
    x: int,
    y: int,
    px: int,
    py: int,
    k: int,
) -> u32
    decreases k,
{
    if k <= 0 {
        bg
    } else {
        let kk = k - 1;
        if g.active(x, y, kk) {
            let t = a.tile(kk, code_spec(g, x, y, kk));
            let v = t.pixels@[py * a.tile_size + px];
            if v != 0 {
                v
            } else {
                cell_pixel(g, a, bg, x, y, px, py, kk)
            }
        } else {
            cell_pixel(g, a, bg, x, y, px, py, kk)
        }
    }
}

/// The color of framebuffer pixel `(xx, yy)`: the layered tile pixel of the
/// cell whose square contains it.
pub open spec fn pixel_spec(g: Grid, a: Atlas, bg: u32, xx: int, yy: int) -> u32 {
    let ts = a.tile_size as int;
    cell_pixel(g, a, bg, xx / ts, yy / ts, xx % ts, yy % ts, BAND_COUNT as int)
}

/// The complete framebuffer: a `(n·tile_size) × (n·tile_size)` row-major
/// pixel square, every pixel determined by the grid and the atlas alone.
pub open spec fn framebuffer_spec(g: Grid, a: Atlas, bg: u32) -> Seq<u32> {
    let side = (g.n * a.tile_size) as int;
    Seq::new((side * side) as nat, |i: int| pixel_spec(g, a, bg, i % side, i / side))
}

/// Computes the color of one framebuffer pixel: scans the cell's bands from
/// the innermost (band 3) down and returns the first non-transparent tile
/// pixel, or the background color.
fn pixel_at(g: &Grid, a: &Atlas, bg: u32, xx: usize, yy: usize) -> (r: u32)
    requires
        g.wf(),
        a.wf(),
        1 <= a.tile_size,
        xx < g.n * a.tile_size,
        yy < g.n * a.tile_size,
    ensures
        r == pixel_spec(*g, *a, bg, xx as int, yy as int),
{
    let ts = a.tile_size;
    let x = xx / ts;
    let y = yy / ts;
    let px = xx % ts;
    let py = yy % ts;
    proof {
        lemma_fundamental_div_mod(xx as int, ts as int);
        lemma_fundamental_div_mod(yy as int, ts as int);
        assert((xx as int) / (ts as int) < g.n && (yy as int) / (ts as int) < g.n)
            by (nonlinear_arith)
            requires
                1 <= ts,
                xx < g.n * ts,
                yy < g.n * ts,
                (xx as int) / (ts as int) * ts + (xx as int) % (ts as int) == xx,
                (yy as int) / (ts as int) * ts + (yy as int) % (ts as int) == yy,
                0 <= (xx as int) % (ts as int) < ts,
                0 <= (yy as int) % (ts as int) < ts;
    }
    let mut k: usize = BAND_COUNT;
    while k > 0
        invariant
            k <= BAND_COUNT,
            g.wf(),
            a.wf(),
            1 <= ts,
            ts == a.tile_size,
            x < g.n,
            y < g.n,
            x == (xx as int) / (ts as int),
            y == (yy as int) / (ts as int),
            px == (xx as int) % (ts as int),
            py == (yy as int) % (ts as int),
            px < ts,
            py < ts,
            cell_pixel(*g, *a, bg, x as int, y as int, px as int, py as int, BAND_COUNT as int)
                == cell_pixel(*g, *a, bg, x as int, y as int, px as int, py as int, k as int),
        decreases k,
    {
        k = k - 1;
        if g.get(x, y, k) {
            proof {
                lemma_active_is_interior(*g, x as int, y as int, k as int);
            }
            let code = neighbor_code(g, x, y, k);
            let ti: usize = k * 16 + code as usize;
            proof {
                assert(ti < BAND_COUNT * 16) by (nonlinear_arith)
                    requires k < BAND_COUNT && code < 16 && ti == k * 16 + code;
            }
            let tile = &a.tiles[ti];
            proof {
                assert(py * ts + px < ts * ts) by (nonlinear_arith)
                    requires 0 <= py < ts && 0 <= px < ts;
            }
            let v = tile.pixels[py * ts + px];
            if v != 0 {
                return v;
            }
        }
    }
    bg
}

/// Renders the framebuffer: background everywhere, then for every cell, band
/// by band from 0 up, the non-transparent pixels of the tile selected by the
/// cell's connectivity code, later bands overwriting earlier ones. The
/// result is a function of the grid and atlas alone.
pub fn composite(grid: &Grid, atlas: &Atlas, background: u32) -> (r: Vec<u32>)
    requires
        grid.wf(),
        atlas.wf(),
        grid.n * atlas.tile_size * (grid.n * atlas.tile_size) <= usize::MAX,
    ensures
        r@ == framebuffer_spec(*grid, *atlas, background),
{
    let n = grid.n;
    let ts = atlas.tile_size;
    proof {
        assert(n * ts <= usize::MAX) by (nonlinear_arith)
            requires n * ts * (n * ts) <= usize::MAX && 0 <= n && 0 <= ts;
    }
    let side: usize = n * ts;
    let total: usize = side * side;
    let mut fb: Vec<u32> = Vec::new();
    let mut i: usize = 0;
    while i < total
        invariant
            i <= total,
            fb.len() == i,
            n == grid.n,
            ts == atlas.tile_size,
            side == n * ts,
            total == side * side,
            grid.wf(),
            atlas.wf(),
            forall|j: int|
                0 <= j < i ==> fb@[j] == pixel_spec(
                    *grid,
                    *atlas,
                    background,
                    j % side as int,
                    j / side as int,
                ),
        decreases total - i,
    {
        proof {
            assert(side > 0) by (nonlinear_arith)
                requires 0 <= i < total && total == side * side;
            assert(ts >= 1) by (nonlinear_arith)
                requires side > 0 && side == n * ts;
            lemma_fundamental_div_mod(i as int, side as int);
            assert(i % side < side && i / side < side) by (nonlinear_arith)
                requires
                    0 < side,
                    i < side * side,
                    (i as int) / (side as int) * side + (i as int) % (side as int) == i,
                    0 <= (i as int) % (side as int) < side;
        }
        let xx: usize = i % side;
        let yy: usize = i / side;
        let v = pixel_at(grid, atlas, background, xx, yy);
        fb.push(v);
        i = i + 1;
    }
    proof {
        assert(fb@ =~= framebuffer_spec(*grid, *atlas, background));
    }
    fb
}

/// Compositing determinism: two framebuffers rendered from the same grid,
/// atlas and background are byte-identical.
pub proof fn lemma_composite_deterministic(
    v1: Seq<u32>,
    v2: Seq<u32>,
    g: Grid,
    a: Atlas,
    bg: u32,
)
    requires
        v1 == framebuffer_spec(g, a, bg),
        v2 == framebuffer_spec(g, a, bg),
    ensures
        v1 == v2,
{
}

} // verus!
