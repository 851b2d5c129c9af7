//! Trusted rasterization primitives. The tile atlas does not rasterize
//! strokes itself: embedded_graphics does, through the two wrappers below,
//! which return the bare pixel positions of a stroked primitive. Everything
//! done with those positions — clipping to the tile, coloring, layering — is
//! verified code in the atlas builder.

use vstd::prelude::*;
use embedded_graphics::geometry::Point;
use embedded_graphics::pixelcolor::Rgb888;
use embedded_graphics::primitives::{Circle, Line, Primitive, PrimitiveStyle};

verus! {

/// The pixel positions of a straight segment from `(x0, y0)` to `(x1, y1)`
/// stroked with width `width`, in the order embedded_graphics emits them.
pub uninterp spec fn line_stroke_spec(x0: i32, y0: i32, x1: i32, y1: i32, width: u32) -> Seq<
    (i32, i32),
>;

/// The pixel positions of the outline of the circle whose bounding box has
/// top-left corner `(x, y)` and side `diameter`, stroked with width `width`,
/// in the order embedded_graphics emits them.
pub uninterp spec fn circle_stroke_spec(x: i32, y: i32, diameter: u32, width: u32) -> Seq<
    (i32, i32),
>;

/// Relies on embedded_graphics' `Line` styled with
/// `PrimitiveStyle::with_stroke`: its pixel iterator rasterizes a thick
/// segment whose pixel positions are a function of the two endpoints and the
/// stroke width alone — the stroke color only tags each emitted pixel and is
/// discarded here. The preconditions keep the rasterizer's internal 32-bit
/// arithmetic in range: it squares twice the width times the segment's
/// squared length as its thickness threshold (using length 1 for a
/// zero-length segment), and accumulates per-parallel error terms whose
/// square it compares against that threshold.
#[verifier::external_body]
pub(crate) fn line_stroke_points(x0: i32, y0: i32, x1: i32, y1: i32, width: u32) -> (r: Vec<
    (i32, i32),
>)
    requires
        -4096 <= x0 <= 4096,
        -4096 <= y0 <= 4096,
        -4096 <= x1 <= 4096,
        -4096 <= y1 <= 4096,
        width <= 11000,
        (width as int) * (width as int) * ((x1 - x0) * (x1 - x0) + (y1 - y0) * (y1 - y0))
            <= 121000000,
    ensures
        r@ == line_stroke_spec(x0, y0, x1, y1, width),
{
    Line::new(Point::new(x0, y0), Point::new(x1, y1))
        .into_styled(PrimitiveStyle::with_stroke(Rgb888::new(255, 255, 255), width))
        .pixels()
        .map(|p| (p.0.x, p.0.y))
        .collect()
}

/// Relies on embedded_graphics' `Circle` styled with
/// `PrimitiveStyle::with_stroke`: its pixel iterator rasterizes the stroked
/// circle outline, whose pixel positions are a function of the bounding-box
/// corner, the diameter and the stroke width alone — the stroke color only
/// tags each emitted pixel and is discarded here. The preconditions keep the
/// rasterizer's internal 32-bit arithmetic in range: it doubles the corner
/// coordinates, widens the diameter by the outside half of the stroke, and
/// squares that widened diameter and the doubled per-pixel center distances.
#[verifier::external_body]
pub(crate) fn circle_stroke_points(x: i32, y: i32, diameter: u32, width: u32) -> (r: Vec<
    (i32, i32),
>)
    requires
        -4096 <= x <= 4096,
        -4096 <= y <= 4096,
        diameter <= 4096,
        width <= 16000,
    ensures
        r@ == circle_stroke_spec(x, y, diameter, width),
{
    Circle::new(Point::new(x, y), diameter)
        .into_styled(PrimitiveStyle::with_stroke(Rgb888::new(255, 255, 255), width))
        .pixels()
        .map(|p| (p.0.x, p.0.y))
        .collect()
}

} // verus!
