use knotty_cam::atlas::build_atlas;
use knotty_cam::band::default_bands;

const TS: usize = 18;

#[test]
fn atlas_covers_every_band_and_code() {
    let bands = default_bands();
    let atlas = build_atlas(&bands, TS);
    assert_eq!(atlas.tile_size, TS);
    assert_eq!(atlas.tiles.len(), 64);
    for t in &atlas.tiles {
        assert_eq!(t.size, TS);
        assert_eq!(t.pixels.len(), TS * TS);
    }
}

#[test]
fn building_twice_yields_identical_tiles() {
    let bands = default_bands();
    let a1 = build_atlas(&bands, TS);
    let a2 = build_atlas(&bands, TS);
    for i in 0..64 {
        assert_eq!(a1.tiles[i].pixels, a2.tiles[i].pixels);
    }
}

#[test]
fn code_0_tiles_are_fully_transparent() {
    let bands = default_bands();
    let atlas = build_atlas(&bands, TS);
    for k in 0..4 {
        for p in &atlas.tiles[k * 16].pixels {
            assert_eq!(*p, 0);
        }
    }
}

#[test]
fn stroked_tiles_are_not_blank() {
    let bands = default_bands();
    let atlas = build_atlas(&bands, TS);
    for k in 0..4 {
        for code in 1..16 {
            let t = &atlas.tiles[k * 16 + code];
            assert!(t.pixels.iter().any(|p| *p != 0));
        }
    }
}

#[test]
fn painted_pixels_carry_the_band_color() {
    let bands = default_bands();
    let atlas = build_atlas(&bands, TS);
    for k in 0..4 {
        let color = bands[k].pixel();
        for code in 0..16 {
            for p in &atlas.tiles[k * 16 + code].pixels {
                assert!(*p == 0 || *p == color);
            }
        }
    }
}

#[test]
fn straight_tiles_stroke_the_center_column_and_row() {
    let bands = default_bands();
    let atlas = build_atlas(&bands, TS);
    // The up+down pass-through tile reaches both horizontal edges along the
    // center column; the left+right tile does the same transposed.
    let vertical = &atlas.tiles[5].pixels;
    assert_ne!(vertical[0 * TS + TS / 2], 0);
    assert_ne!(vertical[(TS / 2) * TS + TS / 2], 0);
    assert_ne!(vertical[(TS - 1) * TS + TS / 2], 0);
    let horizontal = &atlas.tiles[10].pixels;
    assert_ne!(horizontal[(TS / 2) * TS + 0], 0);
    assert_ne!(horizontal[(TS / 2) * TS + TS / 2], 0);
    assert_ne!(horizontal[(TS / 2) * TS + TS - 1], 0);
    // A single-bit tile strokes only from the center to its own edge: the
    // up tile leaves the bottom row untouched.
    let up = &atlas.tiles[1].pixels;
    assert_ne!(up[0 * TS + TS / 2], 0);
    for px in 0..TS {
        assert_eq!(up[(TS - 1) * TS + px], 0);
    }
}

#[test]
fn code_15_tiles_are_symmetric_under_rotation() {
    let bands = default_bands();
    let atlas = build_atlas(&bands, TS);
    for k in 0..4 {
        let t = &atlas.tiles[k * 16 + 15].pixels;
        for y in 0..TS {
            for x in 0..TS {
                // Rotating the square by a quarter turn maps (x, y) onto
                // (TS - 1 - y, x).
                assert_eq!(t[y * TS + x], t[x * TS + (TS - 1 - y)]);
            }
        }
    }
}
