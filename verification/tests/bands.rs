use knotty_cam::band::default_bands;

#[test]
fn default_band_table() {
    let bands = default_bands();
    assert_eq!(bands.len(), 4);
    assert_eq!((bands[0].low, bands[0].high), (20, 50));
    assert_eq!((bands[1].low, bands[1].high), (40, 70));
    assert_eq!((bands[2].low, bands[2].high), (60, 90));
    assert_eq!((bands[3].low, bands[3].high), (80, 100));
    assert_eq!((bands[0].red, bands[0].green, bands[0].blue), (115, 38, 77));
    assert_eq!((bands[3].red, bands[3].green, bands[3].blue), (255, 230, 205));
    assert_eq!(bands[0].thickness, 8);
    assert_eq!(bands[1].thickness, 6);
    assert_eq!(bands[2].thickness, 4);
    assert_eq!(bands[3].thickness, 2);
}

#[test]
fn activation_is_inclusive_on_both_ends() {
    let bands = default_bands();
    assert!(!bands[0].is_active(19));
    assert!(bands[0].is_active(20));
    assert!(bands[0].is_active(50));
    assert!(!bands[0].is_active(51));
    assert!(!bands[3].is_active(79));
    assert!(bands[3].is_active(80));
    assert!(bands[3].is_active(100));
    assert!(!bands[3].is_active(101));
}

#[test]
fn luminance_45_activates_bands_0_and_1() {
    let bands = default_bands();
    assert!(bands[0].is_active(45));
    assert!(bands[1].is_active(45));
    assert!(!bands[2].is_active(45));
    assert!(!bands[3].is_active(45));
    let active = bands.iter().filter(|b| b.is_active(45)).count();
    assert!(active >= 2);
}

#[test]
fn luminance_outside_every_range_activates_nothing() {
    let bands = default_bands();
    for v in [0u8, 10, 19, 101, 128, 255] {
        for b in &bands {
            assert!(!b.is_active(v));
        }
    }
}

#[test]
fn band_pixel_packs_opaque_rgb() {
    let bands = default_bands();
    assert_eq!(bands[0].pixel(), 0xFF73264D);
    assert_eq!(bands[3].pixel(), 0xFFFFE6CD);
    for b in &bands {
        assert_ne!(b.pixel(), 0);
    }
}
