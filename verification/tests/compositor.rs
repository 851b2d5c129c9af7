use knotty_cam::atlas::build_atlas;
use knotty_cam::band::default_bands;
use knotty_cam::composite::{composite, neighbor_code};
use knotty_cam::grid::Grid;

const TS: usize = 18;
const BG: u32 = 0xFF201320;

#[test]
fn empty_grid_composites_to_pure_background() {
    let bands = default_bands();
    let atlas = build_atlas(&bands, TS);
    let grid = Grid::new(5);
    let fb = composite(&grid, &atlas, BG);
    assert_eq!(fb.len(), (5 * TS) * (5 * TS));
    for p in &fb {
        assert_eq!(*p, BG);
    }
}

#[test]
fn compositing_twice_is_byte_identical() {
    let bands = default_bands();
    let atlas = build_atlas(&bands, TS);
    let mut grid = Grid::new(5);
    grid.set(1, 1, 0, true);
    grid.set(2, 1, 0, true);
    grid.set(1, 2, 0, true);
    grid.set(2, 2, 0, true);
    grid.set(2, 2, 1, true);
    grid.set(3, 3, 2, true);
    let fb1 = composite(&grid, &atlas, BG);
    let fb2 = composite(&grid, &atlas, BG);
    assert_eq!(fb1, fb2);
}

#[test]
fn neighbor_codes_follow_the_bit_encoding() {
    let mut grid = Grid::new(5);
    grid.set(2, 2, 0, true);
    assert_eq!(neighbor_code(&grid, 2, 2, 0), 0);
    grid.set(2, 1, 0, true);
    assert_eq!(neighbor_code(&grid, 2, 2, 0), 1);
    grid.set(3, 2, 0, true);
    assert_eq!(neighbor_code(&grid, 2, 2, 0), 3);
    grid.set(2, 3, 0, true);
    assert_eq!(neighbor_code(&grid, 2, 2, 0), 7);
    grid.set(1, 2, 0, true);
    assert_eq!(neighbor_code(&grid, 2, 2, 0), 15);
    // A different band sees none of these neighbors.
    assert_eq!(neighbor_code(&grid, 2, 2, 1), 0);
}

#[test]
fn later_bands_overwrite_earlier_ones_pixel_by_pixel() {
    let bands = default_bands();
    let atlas = build_atlas(&bands, TS);
    let mut grid = Grid::new(5);
    // Cell (2, 2) active in bands 0 and 1, both with a vertical neighbor
    // pair, so both draw their pass-through tile over the same pixels.
    for k in [0usize, 1] {
        grid.set(2, 1, k, true);
        grid.set(2, 2, k, true);
        grid.set(2, 3, k, true);
    }
    let fb = composite(&grid, &atlas, BG);
    let side = 5 * TS;
    let t0 = &atlas.tiles[0 * 16 + 5].pixels;
    let t1 = &atlas.tiles[1 * 16 + 5].pixels;
    for py in 0..TS {
        for px in 0..TS {
            let v = fb[(2 * TS + py) * side + 2 * TS + px];
            let p1 = t1[py * TS + px];
            let p0 = t0[py * TS + px];
            let expected = if p1 != 0 {
                p1
            } else if p0 != 0 {
                p0
            } else {
                BG
            };
            assert_eq!(v, expected);
        }
    }
}
