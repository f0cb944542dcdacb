use thumbsdown::bitmap::{Bitmap, Pixel};
use thumbsdown::grid::{add_border, assemble_final, compose_grid, concat_horizontal, concat_vertical};

fn make_test_image(w: u32, h: u32, color: Pixel) -> Bitmap {
    Bitmap::filled(w, h, color)
}

fn gray(v: u8) -> Pixel {
    Pixel { r: v, g: v, b: v }
}

const WHITE: Pixel = Pixel { r: 255, g: 255, b: 255 };

#[test]
fn add_border_increases_dimensions() {
    let img = make_test_image(10, 10, gray(128));
    let bordered = add_border(&img, 5);
    assert_eq!(bordered.width, 20);
    assert_eq!(bordered.height, 20);
}

#[test]
fn add_border_has_white_edges() {
    let img = make_test_image(10, 10, gray(0));
    let bordered = add_border(&img, 5);
    assert_eq!(bordered.get_pixel(0, 0), WHITE);
    assert_eq!(bordered.get_pixel(19, 19), WHITE);
}

#[test]
fn add_border_preserves_content() {
    let img = make_test_image(4, 4, gray(100));
    let bordered = add_border(&img, 2);
    assert_eq!(bordered.get_pixel(2, 2), gray(100));
    assert_eq!(bordered.get_pixel(5, 5), gray(100));
}

#[test]
fn concat_horizontal_joins_images() {
    let images = vec![make_test_image(10, 20, gray(0)), make_test_image(15, 20, gray(128))];
    let result = concat_horizontal(&images);
    assert_eq!(result.width, 25);
    assert_eq!(result.height, 20);
}

#[test]
fn concat_vertical_joins_images() {
    let a = Bitmap::filled(10, 5, gray(0));
    let b = Bitmap::filled(10, 8, gray(128));
    let result = concat_vertical(&vec![a, b]);
    assert_eq!(result.width, 10);
    assert_eq!(result.height, 13);
}

#[test]
fn compose_grid_layout_3x2() {
    let thumbs: Vec<Bitmap> = (0..6).map(|_| make_test_image(10, 10, gray(50))).collect();
    let result = compose_grid(&thumbs, 3);
    assert_eq!(result.width, 30);
    assert_eq!(result.height, 20);
}

#[test]
fn compose_grid_incomplete_last_row() {
    let thumbs: Vec<Bitmap> = (0..5).map(|_| make_test_image(10, 10, gray(50))).collect();
    let result = compose_grid(&thumbs, 3);
    assert_eq!(result.width, 30);
    assert_eq!(result.height, 20);
}

#[test]
fn assemble_final_centers_header() {
    let header = Bitmap::filled(20, 5, gray(0));
    let grid = Bitmap::filled(40, 10, gray(128));
    let result = assemble_final(&header, &grid);
    assert_eq!(result.width, 40);
    assert_eq!(result.height, 15);
}

#[test]
fn assemble_centering_offset_is_ten() {
    // A 20-wide header over a 40-wide grid sits at x = (40 - 20) / 2 = 10.
    let header = Bitmap::filled(20, 5, gray(0));
    let grid = Bitmap::filled(40, 10, gray(128));
    let result = assemble_final(&header, &grid);
    assert_eq!(result.get_pixel(9, 0), WHITE);
    assert_eq!(result.get_pixel(10, 0), gray(0));
    assert_eq!(result.get_pixel(29, 4), gray(0));
    assert_eq!(result.get_pixel(30, 0), WHITE);
    // The grid starts right below the header.
    assert_eq!(result.get_pixel(0, 5), gray(128));
}

#[test]
fn concat_horizontal_fills_below_shorter_images() {
    let images = vec![make_test_image(10, 20, gray(10)), make_test_image(15, 10, gray(60))];
    let result = concat_horizontal(&images);
    assert_eq!(result.width, 25);
    assert_eq!(result.height, 20);
    assert_eq!(result.get_pixel(12, 5), gray(60));
    assert_eq!(result.get_pixel(12, 15), WHITE);
    assert_eq!(result.get_pixel(5, 15), gray(10));
}

#[test]
fn compose_grid_row_height_is_tallest_member() {
    let thumbs = vec![
        make_test_image(10, 10, gray(1)),
        make_test_image(10, 20, gray(2)),
        make_test_image(10, 5, gray(3)),
    ];
    let result = compose_grid(&thumbs, 3);
    assert_eq!(result.width, 30);
    assert_eq!(result.height, 20);
}

#[test]
fn compose_grid_of_nothing_is_empty() {
    let thumbs: Vec<Bitmap> = Vec::new();
    let result = compose_grid(&thumbs, 5);
    assert_eq!(result.width, 0);
    assert_eq!(result.height, 0);
}

#[test]
fn composition_twice_is_byte_identical() {
    // The same ordered thumbnails and the same header, composed twice,
    // give byte-identical bitmaps.
    let thumbs1: Vec<Bitmap> = (0..5).map(|i| make_test_image(8 + i, 6, gray(40))).collect();
    let thumbs2: Vec<Bitmap> = (0..5).map(|i| make_test_image(8 + i, 6, gray(40))).collect();
    let header1 = Bitmap::filled(30, 7, gray(0));
    let header2 = Bitmap::filled(30, 7, gray(0));
    let grid1 = compose_grid(&thumbs1, 2);
    let grid2 = compose_grid(&thumbs2, 2);
    let final1 = assemble_final(&header1, &grid1);
    let final2 = assemble_final(&header2, &grid2);
    assert_eq!(final1.width, final2.width);
    assert_eq!(final1.height, final2.height);
    assert_eq!(final1.pixels, final2.pixels);
}
