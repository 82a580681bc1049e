use raytracer_core::gradient::{channel_value, generate, gradient_pixel};

const WIDTH: u32 = 256;
const HEIGHT: u32 = 256;

fn pixel_at(data: &[u8], x: u32, y: u32, width: u32) -> (u8, u8, u8) {
    let base = ((y * width + x) * 3) as usize;
    (data[base], data[base + 1], data[base + 2])
}

#[test]
fn corner_pixel_origin() {
    let data = generate(WIDTH, HEIGHT);
    assert_eq!(pixel_at(&data, 0, 0, WIDTH), (0, 0, 63));
}

#[test]
fn corner_pixel_far() {
    let data = generate(WIDTH, HEIGHT);
    assert_eq!(pixel_at(&data, 255, 255, WIDTH), (255, 255, 63));
}

#[test]
fn mid_column_red_channel() {
    let data = generate(WIDTH, HEIGHT);
    assert_eq!(pixel_at(&data, 128, 0, WIDTH).0, 128);
}

#[test]
fn buffer_length() {
    let data = generate(WIDTH, HEIGHT);
    assert_eq!(data.len(), (WIDTH * HEIGHT * 3) as usize);
}

#[test]
fn row_major_order() {
    let data = generate(WIDTH, HEIGHT);
    // Pixel (1, 0) sits right after pixel (0, 0); pixel (0, 1) starts
    // the second row.
    assert_eq!(&data[3..6], &[1, 0, 63]);
    let second_row = (WIDTH * 3) as usize;
    assert_eq!(&data[second_row..second_row + 3], &[0, 1, 63]);
}

#[test]
fn tiny_image_exact() {
    let data = generate(2, 2);
    assert_eq!(data, vec![0, 0, 63, 255, 0, 63, 0, 255, 63, 255, 255, 63]);
}

#[test]
fn pixel_matches_buffer() {
    let data = generate(WIDTH, HEIGHT);
    for &(x, y) in &[(0u32, 0u32), (17, 200), (255, 0), (0, 255), (128, 128)] {
        let rgb = gradient_pixel(x, y, WIDTH, HEIGHT);
        assert_eq!(pixel_at(&data, x, y, WIDTH), rgb);
    }
}

#[test]
fn channel_matches_float_formula() {
    // The channel conversion truncates 255 * (coord / last) toward
    // zero; on the reference scale it agrees with the floating-point
    // computation for every coordinate.
    for x in 0u32..256 {
        let ratio = x as f64 / 255.0;
        let expected = (255.0 * ratio) as u8;
        assert_eq!(channel_value(x, 255), expected);
    }
}

#[test]
fn blue_matches_float_formula() {
    let expected = (255.0 * 0.25) as u8;
    let data = generate(WIDTH, HEIGHT);
    assert_eq!(pixel_at(&data, 40, 7, WIDTH).2, expected);
    assert_eq!(expected, 63);
}

#[test]
fn channel_extremes() {
    for last in [1u32, 2, 100, 255, 1000] {
        assert_eq!(channel_value(0, last), 0);
        assert_eq!(channel_value(last, last), 255);
    }
}
