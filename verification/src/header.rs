//! The header: the text of its two lines and the verified layout that
//! stacks the two rasterized lines on a padded background canvas. Rasterizing
//! a line of text is font work and happens outside the crate; the layout of
//! the resulting line bitmaps is proved here.
use vstd::prelude::*;
use vstd::string::{StringExecFns, StrSliceExecFns};
use crate::bitmap::{bg_color, bg_pixel, filled_bm, overlay_bm, Bitmap, BitmapView};
use crate::grid::nat_max;
use crate::numfmt::{dec_digits, dec_digits_padded, centi_to_dec, u64_to_dec};

verus! {

/// Padding around the header text, in pixels.
pub const HEADER_PADDING: u32 = 8;

/// Vertical spacing between the two lines, in pixels.
pub const LINE_SPACING: u32 = 4;

/// The text of the header's second line: codec, frame rate with two
/// fractional digits, and resolution.
pub open spec fn spec_summary_line(
    codec: Seq<char>,
    fps_centi: u64,
    width: u32,
    height: u32,
) -> Seq<char> {
    "vcodec: "@ + codec + ", fps: "@ + dec_digits(fps_centi as nat / 100) + seq!['.']
        + dec_digits_padded(fps_centi as nat % 100, 2) + ", resolution: "@ + dec_digits(
        width as nat,
    ) + seq!['x'] + dec_digits(height as nat)
}

/// Renders the header's second line for the given metadata fields.
pub fn format_summary(codec: &str, fps_centi: u64, width: u32, height: u32) -> (r: String)
    ensures
        r@ == spec_summary_line(codec@, fps_centi, width, height),
{
    let mut s = String::new();
    s.append("vcodec: ");
    s.append(codec);
    s.append(", fps: ");
    let fps = centi_to_dec(fps_centi);
    s.append(fps.as_str());
    s.append(", resolution: ");
    let w = u64_to_dec(width as u64);
    s.append(w.as_str());
    proof {
        reveal_strlit("x");
    }
    s.append("x");
    let h = u64_to_dec(height as u64);
    s.append(h.as_str());
    proof {
        assert(s@ =~= spec_summary_line(codec@, fps_centi, width, height));
    }
    s
}

/// The header canvas: both lines left-anchored at the padding offset, the
/// second below the first with fixed spacing, on a background canvas sized
/// to the wider line plus padding.
pub open spec fn header_bm(l1: BitmapView, l2: BitmapView) -> BitmapView {
    let w = nat_max(l1.width, l2.width) + 2 * (HEADER_PADDING as nat);
    let h = l1.height + l2.height + (LINE_SPACING as nat) + 2 * (HEADER_PADDING as nat);
    overlay_bm(
        overlay_bm(filled_bm(w, h, bg_color()), l1, HEADER_PADDING as int, HEADER_PADDING as int),
        l2,
        HEADER_PADDING as int,
        (HEADER_PADDING as nat + l1.height + LINE_SPACING as nat) as int,
    )
}

/// Lays the two rasterized text lines out as the header bitmap: canvas width
/// is the wider line plus twice the padding, canvas height is the sum of the
/// line heights plus the inter-line spacing plus twice the padding, and each
/// line sits left-anchored at the padding offset.
pub fn render_header(line1: &Bitmap, line2: &Bitmap) -> (r: Bitmap)
    requires
        line1.wf(),
        line2.wf(),
        nat_max(line1@.width, line2@.width) + 2 * (HEADER_PADDING as nat) <= u32::MAX,
        line1@.height + line2@.height + (LINE_SPACING as nat) + 2 * (HEADER_PADDING as nat)
            <= u32::MAX,
        (nat_max(line1@.width, line2@.width) + 2 * (HEADER_PADDING as nat)) * (line1@.height
            + line2@.height + (LINE_SPACING as nat) + 2 * (HEADER_PADDING as nat)) <= usize::MAX,
    ensures
        r.wf(),
        r@ == header_bm(line1@, line2@),
        r@.width == nat_max(line1@.width, line2@.width) + 2 * (HEADER_PADDING as nat),
        r@.height == line1@.height + line2@.height + (LINE_SPACING as nat) + 2 * (
        HEADER_PADDING as nat),
{
    let wider = if line1.width >= line2.width {
        line1.width
    } else {
        line2.width
    };
    let width = wider + 2 * HEADER_PADDING;
    let height = line1.height + line2.height + LINE_SPACING + 2 * HEADER_PADDING;
    let mut canvas = Bitmap::filled(width, height, bg_pixel());
    canvas.overlay(line1, HEADER_PADDING, HEADER_PADDING);
    canvas.overlay(line2, HEADER_PADDING, HEADER_PADDING + line1.height + LINE_SPACING);
    canvas
}

} // verus!
