use thumbsdown::bitmap::{Bitmap, Pixel};
use thumbsdown::header::{format_summary, render_header};

const WHITE: Pixel = Pixel { r: 255, g: 255, b: 255 };
const BLACK: Pixel = Pixel { r: 0, g: 0, b: 0 };

// Stands in for a rasterized line of 18-pixel text.
fn text_line(w: u32, h: u32) -> Bitmap {
    Bitmap::filled(w, h, BLACK)
}

#[test]
fn render_header_produces_image() {
    let img = render_header(&text_line(140, 21), &text_line(330, 21));
    assert!(img.width > 0);
    assert!(img.height > 0);
}

#[test]
fn render_header_has_reasonable_height() {
    // Two lines of 18px text plus spacing and padding come to more than 40px.
    let img = render_header(&text_line(140, 21), &text_line(330, 21));
    assert!(img.height > 40);
    assert!(img.height < 200);
}

#[test]
fn render_header_contains_non_white_pixels() {
    let img = render_header(&text_line(140, 21), &text_line(330, 21));
    let has_text = img.pixels.iter().any(|p| *p != WHITE);
    assert!(has_text, "header should contain drawn text");
}

#[test]
fn render_header_lays_lines_out_at_padding() {
    let img = render_header(&text_line(100, 20), &text_line(50, 20));
    // Canvas: widest line plus twice the padding of 8; heights plus spacing 4.
    assert_eq!(img.width, 116);
    assert_eq!(img.height, 60);
    // Padding rows and columns are background.
    assert_eq!(img.get_pixel(0, 0), WHITE);
    assert_eq!(img.get_pixel(8, 7), WHITE);
    // Line one starts at (8, 8); line two at (8, 8 + 20 + 4).
    assert_eq!(img.get_pixel(8, 8), BLACK);
    assert_eq!(img.get_pixel(107, 8), BLACK);
    assert_eq!(img.get_pixel(8, 30), WHITE);
    assert_eq!(img.get_pixel(8, 32), BLACK);
    assert_eq!(img.get_pixel(58, 32), WHITE);
}

#[test]
fn format_summary_renders_all_fields() {
    let line = format_summary("h264", 2997, 1920, 1080);
    assert_eq!(line.as_str(), "vcodec: h264, fps: 29.97, resolution: 1920x1080");
}

#[test]
fn format_summary_pads_fractional_fps() {
    let line = format_summary("vp9", 2400, 640, 480);
    assert_eq!(line.as_str(), "vcodec: vp9, fps: 24.00, resolution: 640x480");
    let line2 = format_summary("vp9", 2405, 640, 480);
    assert_eq!(line2.as_str(), "vcodec: vp9, fps: 24.05, resolution: 640x480");
}
