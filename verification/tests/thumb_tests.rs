use thumbsdown::bitmap::Pixel;
use thumbsdown::grid::process_thumbnail;

fn png_bytes(w: u32, h: u32, v: u8) -> Vec<u8> {
    let img = image::RgbImage::from_pixel(w, h, image::Rgb([v, v, v]));
    let mut bytes: Vec<u8> = Vec::new();
    img.write_to(&mut std::io::Cursor::new(&mut bytes), image::ImageFormat::Png)
        .expect("encode");
    bytes
}

#[test]
fn process_thumbnail_borders_and_resizes() {
    // A 10x10 frame with a 5-pixel border becomes 20x20, then is scaled to
    // the 40-pixel target width.
    let bytes = png_bytes(10, 10, 100);
    let thumb = match process_thumbnail(&bytes, 40, 5) {
        Ok(b) => b,
        Err(e) => panic!("{}", e.message()),
    };
    assert_eq!(thumb.width, 40);
    assert_eq!(thumb.height, 40);
}

#[test]
fn process_thumbnail_shrinks_to_target_width() {
    let bytes = png_bytes(10, 10, 100);
    let thumb = process_thumbnail(&bytes, 5, 0).ok().unwrap();
    assert_eq!(thumb.width, 5);
    assert_eq!(thumb.height, 5);
    // A uniform frame stays uniform under resampling, up to rounding.
    for p in thumb.pixels.iter() {
        assert!(p.r >= 95 && p.r <= 105);
        assert!(p.g >= 95 && p.g <= 105);
        assert!(p.b >= 95 && p.b <= 105);
    }
}

#[test]
fn process_thumbnail_keeps_border_color_at_corners() {
    // Resizing 20x20 to width 20 keeps the bordered geometry; the corners lie
    // in the border and stay white.
    let bytes = png_bytes(10, 10, 0);
    let thumb = process_thumbnail(&bytes, 20, 5).ok().unwrap();
    assert_eq!(thumb.width, 20);
    assert_eq!(thumb.height, 20);
    let corner = thumb.get_pixel(0, 0);
    assert_eq!(corner, Pixel { r: 255, g: 255, b: 255 });
}

#[test]
fn process_thumbnail_rejects_undecodable_bytes() {
    let bytes = vec![1u8, 2, 3, 4, 5];
    let err = match process_thumbnail(&bytes, 40, 5) {
        Err(e) => e,
        Ok(_) => panic!("expected a decode failure"),
    };
    assert!(err.message().contains("image processing error"));
}

#[test]
fn process_thumbnail_rejects_oversized_resample() {
    // A huge border with a huge target width passes the bordering bound but
    // would overflow the resampler's working buffers; the check fires before
    // any pixel is allocated.
    let bytes = png_bytes(4, 4, 100);
    let err = match process_thumbnail(&bytes, u32::MAX, 600_000_000) {
        Err(e) => e,
        Ok(_) => panic!("expected a size rejection"),
    };
    let msg = err.message();
    assert!(msg.contains("image processing error"));
    assert!(msg.contains("too large"));
}
