//! Band definitions: each band is an inclusive luminance range that activates
//! it, together with the color and stroke width used to draw its tiles.

use vstd::prelude::*;

verus! {

/// One activity band: a cell whose block-averaged luminance falls inside
/// `[low, high]` (inclusive on both ends) is active in this band. Ranges of
/// different bands overlap by design, so one luminance value may activate
/// several bands at once. `red`/`green`/`blue` and `thickness` style the
/// strokes of this band's tiles.
pub struct Band {
    pub low: u8,
    pub high: u8,
    pub red: u8,
    pub green: u8,
    pub blue: u8,
    pub thickness: u32,
}

/// Number of bands; the activation grid stores one flag per cell per band.
pub const BAND_COUNT: usize = 4;

impl Band {
    /// Whether average luminance `v` activates this band.
    pub open spec fn activates(self, v: int) -> bool {
        self.low <= v <= self.high
    }

    /// The band's stroke color packed as an opaque `0xAARRGGBB` pixel, the
    /// format tiles and framebuffers use. Always nonzero (the alpha byte is
    /// set), so a painted pixel is never mistaken for a transparent one.
    pub open spec fn pixel_spec(self) -> u32 {
        (0xFF00_0000 + 0x1_0000 * (self.red as u32) + 0x100 * (self.green as u32)
            + (self.blue as u32)) as u32
    }

    /// Tests whether average luminance `v` activates this band.
    pub fn is_active(&self, v: u8) -> (r: bool)
        ensures
            r == self.activates(v as int),
    {
        self.low <= v && v <= self.high
    }

    /// Packs the band's stroke color as an opaque `0xAARRGGBB` pixel.
    pub fn pixel(&self) -> (r: u32)
        ensures
            r == self.pixel_spec(),
            r != 0,
    {
        0xFF00_0000 + 0x1_0000 * (self.red as u32) + 0x100 * (self.green as u32)
            + (self.blue as u32)
    }
}

/// The band table the renderer ships with, ordered outermost to innermost:
/// dark luminance activates band 0, bright luminance band 3, with each range
/// overlapping the next.
pub open spec fn default_bands_spec() -> Seq<Band> {
    seq![
        Band { low: 20, high: 50, red: 115, green: 38, blue: 77, thickness: 8 },
        Band { low: 40, high: 70, red: 191, green: 64, blue: 64, thickness: 6 },
        Band { low: 60, high: 90, red: 236, green: 151, blue: 122, thickness: 4 },
        Band { low: 80, high: 100, red: 255, green: 230, blue: 205, thickness: 2 },
    ]
}

/// Band ranges overlap by design: a cell whose block average is 45 is active
/// in band 0 (range 20..=50) and band 1 (range 40..=70) of the default
/// table at the same time.
pub proof fn lemma_default_bands_overlap_at_45()
    ensures
        default_bands_spec()[0].activates(45),
        default_bands_spec()[1].activates(45),
{
}

/// Builds the default band table.
pub fn default_bands() -> (r: Vec<Band>)
    ensures
        r@ == default_bands_spec(),
        r@.len() == BAND_COUNT,
{
    let mut r: Vec<Band> = Vec::new();
    r.push(Band { low: 20, high: 50, red: 115, green: 38, blue: 77, thickness: 8 });
    r.push(Band { low: 40, high: 70, red: 191, green: 64, blue: 64, thickness: 6 });
    r.push(Band { low: 60, high: 90, red: 236, green: 151, blue: 122, thickness: 4 });
    r.push(Band { low: 80, high: 100, red: 255, green: 230, blue: 205, thickness: 2 });
    proof {
        assert(r@ =~= default_bands_spec());
    }
    r
}

} // verus!
