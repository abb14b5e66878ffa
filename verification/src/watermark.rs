//! The watermark compositor: an optional styled text overlay in the lower
//! right of an already rendered image.
//!
//! The watermark is drawn in place with the same cell-grid glyph model the
//! pipeline uses, anchored two text heights from the bottom edge and the
//! text width plus two spaces from the right edge. It never resizes the
//! canvas: whatever would overflow is clipped, and a watermark whose
//! measured width or glyph size outscales every canvas draws nothing.

use crate::color::Rgba;
use crate::raster::RenderedImage;
use crate::render::{
    spec_cols_text, spec_draw_text, spec_glyph_w, MAX_DIM,
};
use vstd::prelude::*;

verus! {

/// The buffer after the watermark text is composited into the lower right.
pub open spec fn spec_watermark(
    d: Seq<u8>,
    w: int,
    h: int,
    text: Seq<char>,
    color: Rgba,
    size: int,
) -> Seq<u8> {
    let m = spec_cols_text(text, 0, 1);
    let gw = spec_glyph_w(size);
    let gh = size;
    if m > MAX_DIM || size > MAX_DIM {
        d
    } else {
        spec_draw_text(d, w, h, text, 0, w - (m * gw + 2 * gw), h - 2 * gh, gw, gh, 1, color)
    }
}

/// Composites the watermark in place, as [`spec_watermark`] describes. The
/// canvas dimensions never change; only pixel contents within them do.
pub fn draw_watermark(img: &mut RenderedImage, text: &str, color: Rgba, size: u32)
    requires
        old(img).wf(),
    ensures
        final(img).wf(),
        final(img).width == old(img).width,
        final(img).height == old(img).height,
        final(img).data@.len() == old(img).data@.len(),
        final(img).data@ == spec_watermark(
            old(img).data@,
            old(img).width as int,
            old(img).height as int,
            text@,
            color,
            size as int,
        ),
{
    let m = crate::render::cols_text_width(text);
    if m > MAX_DIM as u64 || size > MAX_DIM {
        return ;
    }
    let gw: i64 = ((size as i64) + 1) / 2;
    let gh: i64 = size as i64;
    proof {
        assert(0 <= (m as int) * (gw as int) <= 0x4000 * 0x2001) by (nonlinear_arith)
            requires
                0 <= m as int <= 0x4000,
                0 <= gw as int <= 0x2001,
        ;
    }
    let x: i64 = (img.width as i64) - ((m as i64) * gw + 2 * gw);
    let y: i64 = (img.height as i64) - 2 * gh;
    crate::render::draw_text_at(img, text, x, y, gw, gh, color);
}

} // verus!
