use image_processor::blur_plugin::{parse_blur_radius, process_image};
use image_processor::plugin_loader::{PLUGIN_ERROR_NULL_POINTER, PLUGIN_SUCCESS};

const BYTES_PER_PIXEL: usize = 4;

fn create_test_image(width: u32, height: u32, r: u8, g: u8, b: u8, a: u8) -> Vec<u8> {
    let mut data = Vec::with_capacity((width * height * BYTES_PER_PIXEL as u32) as usize);
    for _ in 0..(width * height) {
        data.push(r);
        data.push(g);
        data.push(b);
        data.push(a);
    }
    data
}

#[test]
fn test_blur_uniform_image_unchanged() {
    let width = 3u32;
    let height = 3u32;
    let mut data = create_test_image(width, height, 100, 150, 200, 255);

    let original = data.clone();
    let result = process_image(width, height, Some(data.as_mut_slice()), None);

    assert_eq!(result, PLUGIN_SUCCESS);
    assert_eq!(data, original);
}

#[test]
fn test_blur_changes_image() {
    let width = 5u32;
    let height = 5u32;
    let mut data = create_test_image(width, height, 0, 0, 0, 255);

    data[0] = 255;
    data[1] = 0;
    data[2] = 0;
    data[3] = 255;

    let result = process_image(width, height, Some(data.as_mut_slice()), None);

    assert_eq!(result, PLUGIN_SUCCESS);
    assert_ne!(data[0], 255);
}

#[test]
fn test_blur_with_radius_parameter() {
    let width = 5u32;
    let height = 5u32;
    let mut data = create_test_image(width, height, 50, 100, 150, 255);

    data[0] = 255;
    data[1] = 0;
    data[2] = 0;
    data[3] = 255;

    let result = process_image(width, height, Some(data.as_mut_slice()), Some("2"));

    assert_eq!(result, PLUGIN_SUCCESS);
}

#[test]
fn test_blur_null_pointer_returns_error() {
    let result = process_image(3, 3, None, None);

    assert_eq!(result, PLUGIN_ERROR_NULL_POINTER);
}

#[test]
fn test_blur_zero_dimensions_returns_error() {
    let mut data = vec![0u8; 4];
    let result = process_image(0, 3, Some(data.as_mut_slice()), None);

    assert_eq!(result, PLUGIN_ERROR_NULL_POINTER);
    assert_eq!(data, vec![0u8; 4]);
}

#[test]
fn blur_radius_three_averages_neighbours() {
    // One red pixel in the corner of a black 3x3 image; radius 3 averages
    // the 2x2 window of the corner (4 pixels) and the 3x2 window of the edge.
    let mut data = create_test_image(3, 3, 0, 0, 0, 255);
    data[0] = 255;
    let result = process_image(3, 3, Some(data.as_mut_slice()), None);
    assert_eq!(result, PLUGIN_SUCCESS);
    assert_eq!(data[0], 255 / 4);
    assert_eq!(data[4], 255 / 6);
    assert_eq!(data[12], 255 / 6);
    assert_eq!(data[16], 255 / 9);
    assert_eq!(data[8], 0);
    assert_eq!(data[3], 255);
}

#[test]
fn blur_radius_two_uses_offsets_minus_one_and_zero() {
    // A 3x1 image with values 0, 90, 180 in the red channel: radius 2 averages
    // each pixel with its left neighbour.
    let mut data = vec![0, 0, 0, 255, 90, 0, 0, 255, 180, 0, 0, 255];
    let result = process_image(3, 1, Some(data.as_mut_slice()), Some("2"));
    assert_eq!(result, PLUGIN_SUCCESS);
    assert_eq!(data, vec![0, 0, 0, 255, 45, 0, 0, 255, 135, 0, 0, 255]);
}

#[test]
fn blur_radius_one_keeps_image() {
    let mut data: Vec<u8> = (0..36u8).collect();
    let original = data.clone();
    let result = process_image(3, 3, Some(data.as_mut_slice()), Some("1"));
    assert_eq!(result, PLUGIN_SUCCESS);
    assert_eq!(data, original);
}

#[test]
fn blur_null_pointer_with_params_returns_error() {
    assert_eq!(process_image(2, 2, None, Some("5")), PLUGIN_ERROR_NULL_POINTER);
}

#[test]
fn blur_zero_height_returns_error() {
    let mut data = vec![7u8; 8];
    assert_eq!(process_image(2, 0, Some(data.as_mut_slice()), Some("3")), PLUGIN_ERROR_NULL_POINTER);
    assert_eq!(data, vec![7u8; 8]);
}

#[test]
fn radius_defaults_when_missing_or_invalid() {
    assert_eq!(parse_blur_radius(""), 3);
    assert_eq!(parse_blur_radius("   "), 3);
    assert_eq!(parse_blur_radius("abc"), 3);
    assert_eq!(parse_blur_radius("+"), 3);
    assert_eq!(parse_blur_radius("-"), 3);
    assert_eq!(parse_blur_radius("+-2"), 3);
    assert_eq!(parse_blur_radius("1 2"), 3);
    assert_eq!(parse_blur_radius("2.5"), 3);
}

#[test]
fn radius_is_read_and_clamped() {
    assert_eq!(parse_blur_radius("5"), 5);
    assert_eq!(parse_blur_radius(" 7\n"), 7);
    assert_eq!(parse_blur_radius("+4"), 4);
    assert_eq!(parse_blur_radius("0"), 1);
    assert_eq!(parse_blur_radius("11"), 10);
    assert_eq!(parse_blur_radius("255"), 10);
    assert_eq!(parse_blur_radius("0009"), 9);
    assert_eq!(parse_blur_radius("\u{3000}2\u{A0}"), 2);
    assert_eq!(parse_blur_radius("-4"), 1);
    assert_eq!(parse_blur_radius("-5"), 1);
    assert_eq!(parse_blur_radius("-0"), 1);
    assert_eq!(parse_blur_radius("256"), 10);
    assert_eq!(parse_blur_radius("300"), 10);
    assert_eq!(parse_blur_radius("99999"), 10);
    assert_eq!(parse_blur_radius("99999999999999999999999999"), 10);
    assert_eq!(parse_blur_radius("-999999999999999999999"), 1);
}

#[test]
fn large_radius_text_blurs_with_radius_ten() {
    // A 3x1 image with red values 0, 101, 0: radius 10 averages all three
    // pixels for the first one, radius 3 only the first two.
    let image = vec![0u8, 0, 0, 255, 101, 0, 0, 255, 0, 0, 0, 255];
    let mut with_large = image.clone();
    let mut with_ten = image.clone();
    assert_eq!(process_image(3, 1, Some(with_large.as_mut_slice()), Some("300")), PLUGIN_SUCCESS);
    assert_eq!(process_image(3, 1, Some(with_ten.as_mut_slice()), Some("10")), PLUGIN_SUCCESS);
    assert_eq!(with_large, with_ten);
    assert_eq!(with_large[0], 33);
}

#[test]
fn blur_keeps_opaque_alpha() {
    let mut data: Vec<u8> = Vec::new();
    for i in 0..20u8 {
        data.extend_from_slice(&[i * 10, 255 - i * 3, i, 255]);
    }
    let result = process_image(5, 4, Some(data.as_mut_slice()), Some("4"));
    assert_eq!(result, PLUGIN_SUCCESS);
    for p in 0..20 {
        assert_eq!(data[p * 4 + 3], 255);
    }
}
