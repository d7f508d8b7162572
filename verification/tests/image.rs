use image_processor::error::ImageError;
use image_processor::pixels::BYTES_PER_PIXEL;
use image_processor::Image;

#[test]
fn test_image_new_valid() {
    let data = vec![0u8; 4 * 4 * BYTES_PER_PIXEL];
    let img = Image::new(4, 4, data).unwrap();
    assert_eq!(img.width, 4);
    assert_eq!(img.height, 4);
}

#[test]
fn test_image_new_invalid_size() {
    let data = vec![0u8; 10];
    let result = Image::new(4, 4, data);
    assert!(result.is_err());
}

#[test]
fn image_new_reports_sizes() {
    match Image::new(2, 3, vec![1u8; 25]) {
        Err(ImageError::SizeMismatch { expected, actual }) => {
            assert_eq!(expected, 24);
            assert_eq!(actual, 25);
        }
        other => panic!("unexpected result {:?}", other),
    }
}

#[test]
fn image_new_keeps_data() {
    let data: Vec<u8> = (0..8u8).collect();
    let img = Image::new(2, 1, data.clone()).unwrap();
    assert_eq!(img.rgba_data, data);
    assert_eq!(img.rgba_slice(), &data[..]);
}

#[test]
fn image_new_zero_sized() {
    let img = Image::new(0, 5, Vec::new()).unwrap();
    assert_eq!(img.width, 0);
    assert_eq!(img.height, 5);
}

#[test]
fn rgba_slice_mut_changes_image() {
    let mut img = Image::new(1, 1, vec![1, 2, 3, 4]).unwrap();
    img.rgba_slice_mut()[2] = 42;
    assert_eq!(img.rgba_data, vec![1, 2, 42, 4]);
    assert_eq!(img.width, 1);
}

#[test]
fn rgba_buffer_round_trip() {
    let data: Vec<u8> = (0..24u8).collect();
    let img = Image::new(3, 2, data.clone()).unwrap();
    let buffer = img.to_rgba_buffer().unwrap();
    assert_eq!(buffer.buffer.dimensions(), (3, 2));
    assert_eq!(buffer.buffer.as_raw(), &data);
    let back = Image::from_rgba_buffer(buffer);
    assert_eq!(back.width, 3);
    assert_eq!(back.height, 2);
    assert_eq!(back.rgba_data, data);
}

#[test]
fn rgba_buffer_rejects_short_data() {
    let img = Image { width: 3, height: 2, rgba_data: vec![0u8; 23] };
    match img.to_rgba_buffer() {
        Err(ImageError::SaveError(m)) => {
            assert_eq!(m, "Failed to create image buffer for 3x2 image");
        }
        Err(e) => panic!("unexpected error {:?}", e),
        Ok(_) => panic!("short data accepted"),
    }
}

#[test]
fn rgba_buffer_accepts_longer_data() {
    let img = Image { width: 1, height: 1, rgba_data: vec![5u8; 6] };
    let buffer = img.to_rgba_buffer().unwrap();
    let back = Image::from_rgba_buffer(buffer);
    assert_eq!(back.rgba_data, vec![5u8; 6]);
}
