use image_processor::mirror_plugin::process_image;
use image_processor::pixels::BYTES_PER_PIXEL;
use image_processor::plugin_loader::{PLUGIN_ERROR_NULL_POINTER, PLUGIN_SUCCESS};

fn create_test_image(width: u32, height: u32, values: &[u8]) -> Vec<u8> {
    let mut data = Vec::with_capacity((width * height * BYTES_PER_PIXEL as u32) as usize);
    for &v in values {
        data.push(v);
        data.push(v);
        data.push(v);
        data.push(255);
    }
    data
}

fn pixel_at(data: &[u8], x: usize, y: usize, width: usize) -> [u8; 4] {
    let idx = (y * width + x) * BYTES_PER_PIXEL;
    [data[idx], data[idx + 1], data[idx + 2], data[idx + 3]]
}

#[test]
fn test_mirror_horizontal_swap() {
    let width = 4u32;
    let height = 1u32;
    let mut data = create_test_image(width, height, &[1, 2, 3, 4]);

    let left_original = pixel_at(&data, 0, 0, width as usize);
    let right_original = pixel_at(&data, 3, 0, width as usize);

    let result = process_image(width, height, Some(data.as_mut_slice()), None);

    assert_eq!(result, PLUGIN_SUCCESS);
    let left_after = pixel_at(&data, 0, 0, width as usize);
    let right_after = pixel_at(&data, 3, 0, width as usize);
    assert_eq!(left_after, right_original);
    assert_eq!(right_after, left_original);
}

#[test]
fn test_mirror_odd_width_middle_unchanged() {
    let width = 3u32;
    let height = 1u32;
    let mut data = create_test_image(width, height, &[10, 20, 30]);

    let middle_original = pixel_at(&data, 1, 0, width as usize);

    let result = process_image(width, height, Some(data.as_mut_slice()), None);

    assert_eq!(result, PLUGIN_SUCCESS);
    let middle_after = pixel_at(&data, 1, 0, width as usize);
    assert_eq!(middle_after, middle_original);
}

#[test]
fn test_mirror_two_rows() {
    let width = 2u32;
    let height = 2u32;
    let mut data = create_test_image(width, height, &[10, 20, 30, 40]);

    let result = process_image(width, height, Some(data.as_mut_slice()), None);

    assert_eq!(result, PLUGIN_SUCCESS);
    let pixel_0_0 = pixel_at(&data, 0, 0, width as usize);
    let pixel_0_1 = pixel_at(&data, 0, 1, width as usize);
    let pixel_1_0 = pixel_at(&data, 1, 0, width as usize);
    let pixel_1_1 = pixel_at(&data, 1, 1, width as usize);
    assert_eq!(pixel_0_0, [20, 20, 20, 255]);
    assert_eq!(pixel_1_0, [10, 10, 10, 255]);
    assert_eq!(pixel_0_1, [40, 40, 40, 255]);
    assert_eq!(pixel_1_1, [30, 30, 30, 255]);
}

#[test]
fn test_mirror_null_pointer_returns_error() {
    let result = process_image(3, 3, None, None);

    assert_eq!(result, PLUGIN_ERROR_NULL_POINTER);
}

#[test]
fn test_mirror_zero_dimensions_returns_error() {
    let mut data = vec![0u8; 4];
    let result = process_image(0, 3, Some(data.as_mut_slice()), None);

    assert_eq!(result, PLUGIN_ERROR_NULL_POINTER);
}

#[test]
fn mirror_keeps_channel_order_within_pixels() {
    let mut data = vec![1, 2, 3, 4, 5, 6, 7, 8, 9, 10, 11, 12];
    let result = process_image(3, 1, Some(data.as_mut_slice()), Some("ignored"));
    assert_eq!(result, PLUGIN_SUCCESS);
    assert_eq!(data, vec![9, 10, 11, 12, 5, 6, 7, 8, 1, 2, 3, 4]);
}

#[test]
fn mirror_twice_restores_image() {
    let mut data: Vec<u8> = (0..60u8).collect();
    let original = data.clone();
    assert_eq!(process_image(5, 3, Some(data.as_mut_slice()), None), PLUGIN_SUCCESS);
    assert_ne!(data, original);
    assert_eq!(process_image(5, 3, Some(data.as_mut_slice()), None), PLUGIN_SUCCESS);
    assert_eq!(data, original);
}

#[test]
fn mirror_single_column_unchanged() {
    let mut data: Vec<u8> = (0..12u8).collect();
    let original = data.clone();
    assert_eq!(process_image(1, 3, Some(data.as_mut_slice()), None), PLUGIN_SUCCESS);
    assert_eq!(data, original);
}

#[test]
fn mirror_zero_width_leaves_data() {
    let mut data = vec![9u8; 4];
    assert_eq!(process_image(3, 0, Some(data.as_mut_slice()), None), PLUGIN_ERROR_NULL_POINTER);
    assert_eq!(data, vec![9u8; 4]);
}
