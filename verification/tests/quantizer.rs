use knotty_cam::band::default_bands;
use knotty_cam::grid::Grid;
use knotty_cam::quantize::{compute_block_average, quantize, toggle_parity, FrameDims};

fn dims(width: usize, height: usize, stride: usize, bleed: usize, ppc: usize) -> FrameDims {
    FrameDims { width, height, stride, bleed, pixels_per_cell: ppc }
}

#[test]
fn single_pixel_blocks_read_the_luma_byte() {
    // One row of two YUYV pixels: luma bytes at offsets 0 and 2.
    let frame: Vec<u8> = vec![10, 0, 20, 0];
    let d = dims(2, 1, 4, 0, 1);
    assert_eq!(compute_block_average(&frame, &d, 0, 0), 10);
    assert_eq!(compute_block_average(&frame, &d, 1, 0), 20);
}

#[test]
fn block_average_truncates() {
    // Two rows of two pixels; (10 + 21 + 7 + 9) / 4 = 11 rem 3.
    let frame: Vec<u8> = vec![10, 0, 21, 0, 7, 0, 9, 0];
    let d = dims(2, 2, 4, 0, 2);
    assert_eq!(compute_block_average(&frame, &d, 0, 0), 11);
}

#[test]
fn luma_bytes_beyond_the_buffer_read_bright() {
    // The second row is inside the frame dimensions but beyond the buffer:
    // its two luma bytes read as 255. (10 + 21 + 255 + 255) / 4 = 135.
    let frame: Vec<u8> = vec![10, 0, 21, 0];
    let d = dims(2, 2, 4, 0, 2);
    assert_eq!(compute_block_average(&frame, &d, 0, 0), 135);
}

#[test]
fn pixels_outside_the_frame_are_not_sampled() {
    // Only (0, 0) of the 2x2 block lies inside the 1x1 frame.
    let frame: Vec<u8> = vec![10, 0, 20, 0];
    let d = dims(1, 1, 4, 0, 2);
    assert_eq!(compute_block_average(&frame, &d, 0, 0), 10);
}

#[test]
fn empty_blocks_average_zero() {
    let frame: Vec<u8> = vec![10, 0, 20, 0];
    let d = dims(2, 1, 4, 0, 2);
    assert_eq!(compute_block_average(&frame, &d, 5, 0), 0);
}

#[test]
fn toggle_parity_alternates() {
    assert_eq!(toggle_parity(0), 1);
    assert_eq!(toggle_parity(1), 0);
}

#[test]
fn quantize_refreshes_the_matching_checkerboard_half() {
    let bands = default_bands();
    let mut grid = Grid::new(5);
    // A 10x10 frame whose every luma byte is 30: average 30, band 0 only.
    let frame: Vec<u8> = vec![30; 200];
    let d = dims(10, 10, 20, 0, 2);
    quantize(&frame, &d, 0, &bands, &mut grid);
    for y in 0..5 {
        for x in 0..5 {
            let interior = x >= 1 && x <= 3 && y >= 1 && y <= 3;
            let refreshed = interior && (x + y) % 2 == 0;
            assert_eq!(grid.get(x, y, 0), refreshed);
            for k in 1..4 {
                assert!(!grid.get(x, y, k));
            }
        }
    }
    // The second frame, with the toggled parity, refreshes the other half:
    // together the two frames cover every interior cell.
    quantize(&frame, &d, 1, &bands, &mut grid);
    for y in 0..5 {
        for x in 0..5 {
            let interior = x >= 1 && x <= 3 && y >= 1 && y <= 3;
            assert_eq!(grid.get(x, y, 0), interior);
        }
    }
}

#[test]
fn quantize_keeps_unrefreshed_cells() {
    let bands = default_bands();
    let mut grid = Grid::new(5);
    grid.set(1, 1, 3, true);
    let frame: Vec<u8> = vec![30; 200];
    let d = dims(10, 10, 20, 0, 2);
    // (1 + 1) % 2 == 0, so parity 1 does not refresh (1, 1).
    quantize(&frame, &d, 1, &bands, &mut grid);
    assert!(grid.get(1, 1, 3));
    assert!(!grid.get(1, 1, 0));
    // Parity 0 does: the flags are recomputed from the frame.
    quantize(&frame, &d, 0, &bands, &mut grid);
    assert!(!grid.get(1, 1, 3));
    assert!(grid.get(1, 1, 0));
}

#[test]
fn border_cells_are_never_activated() {
    let bands = default_bands();
    let mut grid = Grid::new(5);
    let frame: Vec<u8> = vec![30; 200];
    let d = dims(10, 10, 20, 0, 2);
    quantize(&frame, &d, 0, &bands, &mut grid);
    quantize(&frame, &d, 1, &bands, &mut grid);
    for i in 0..5 {
        for k in 0..4 {
            assert!(!grid.get(i, 0, k));
            assert!(!grid.get(i, 4, k));
            assert!(!grid.get(0, i, k));
            assert!(!grid.get(4, i, k));
        }
    }
}

#[test]
fn bright_and_dark_blocks_activate_overlapping_bands() {
    let bands = default_bands();
    let mut grid = Grid::new(3);
    // One interior cell (1, 1) with parity (1 + 1) % 2 == 0; its block is
    // the 2x2 at source (2, 2) in a 6x6 frame. Luma 65 activates bands 1
    // (40..=70) and 2 (60..=90) together.
    let frame: Vec<u8> = vec![65; 72];
    let d = dims(6, 6, 12, 0, 2);
    quantize(&frame, &d, 0, &bands, &mut grid);
    assert!(!grid.get(1, 1, 0));
    assert!(grid.get(1, 1, 1));
    assert!(grid.get(1, 1, 2));
    assert!(!grid.get(1, 1, 3));
}

#[test]
fn bleed_shifts_the_sampled_block() {
    let bands = default_bands();
    let mut grid = Grid::new(3);
    // 8x6 frame, bleed 1: cell (1, 1) samples the 2x2 block at (3, 2).
    // Those pixels hold luma 85 (band 3); the rest of the frame holds 0.
    let mut frame: Vec<u8> = vec![0; 96];
    for (sx, sy) in [(3usize, 2usize), (4, 2), (3, 3), (4, 3)] {
        frame[sy * 16 + 2 * sx] = 85;
    }
    let d = dims(8, 6, 16, 1, 2);
    quantize(&frame, &d, 0, &bands, &mut grid);
    assert!(grid.get(1, 1, 3));
    assert!(grid.get(1, 1, 2));
    assert!(!grid.get(1, 1, 0));
}
