use imageproof::config::MAX_FILE_SIZE_BYTES;
use imageproof::decode::{check_dimensions, check_format, prepare_image, screen_payload, SniffedFormat};
use imageproof::model::VerifyError;
use std::io::Cursor;

fn make_png(width: u32, height: u32, fill: u8) -> Vec<u8> {
    let img = image::GrayImage::from_pixel(width, height, image::Luma([fill]));
    let mut buf = Cursor::new(Vec::new());
    img.write_to(&mut buf, image::ImageFormat::Png).unwrap();
    buf.into_inner()
}

fn make_gradient_png(width: u32, height: u32) -> Vec<u8> {
    let img = image::ImageBuffer::from_fn(width, height, |x, y| image::Luma([((x.wrapping_add(y * 3)) % 256) as u8]));
    let mut buf = Cursor::new(Vec::new());
    img.write_to(&mut buf, image::ImageFormat::Png).unwrap();
    buf.into_inner()
}

fn make_jpeg(width: u32, height: u32, fill: u8) -> Vec<u8> {
    let img = image::GrayImage::from_pixel(width, height, image::Luma([fill]));
    let mut buf = Cursor::new(Vec::new());
    img.write_to(&mut buf, image::ImageFormat::Jpeg).unwrap();
    buf.into_inner()
}

fn prepare(bytes: &[u8]) -> Result<(imageproof::raster::GrayImage, bool), VerifyError> {
    prepare_image(bytes, MAX_FILE_SIZE_BYTES, imageproof::config::MAX_IMAGE_DIMENSION)
}

#[test]
fn verify_empty_input_returns_empty_error() {
    assert!(matches!(prepare(&[]), Err(VerifyError::EmptyInput)));
}

#[test]
fn verify_input_too_large_is_rejected() {
    let oversized = vec![0u8; MAX_FILE_SIZE_BYTES + 1];
    assert!(matches!(
        prepare(&oversized),
        Err(VerifyError::InputTooLarge { size, limit }) if size == MAX_FILE_SIZE_BYTES + 1 && limit == MAX_FILE_SIZE_BYTES
    ));
}

#[test]
fn verify_input_at_exact_limit_is_not_rejected_for_size() {
    let at_limit = vec![0u8; MAX_FILE_SIZE_BYTES];
    assert!(matches!(prepare(&at_limit), Err(VerifyError::UnsupportedFormat)));
}

#[test]
fn verify_size_check_precedes_decode() {
    let big_garbage = vec![0xABu8; MAX_FILE_SIZE_BYTES + 42];
    assert!(matches!(prepare(&big_garbage), Err(VerifyError::InputTooLarge { .. })));
}

#[test]
fn verify_garbage_bytes_returns_unsupported_format() {
    assert!(matches!(
        prepare(&[0xDE, 0xAD, 0xBE, 0xEF, 0x00, 0x11, 0x22, 0x33]),
        Err(VerifyError::UnsupportedFormat)
    ));
}

#[test]
fn verify_bmp_rejected_as_unsupported() {
    let bmp_header: Vec<u8> = vec![0x42, 0x4D, 0x36, 0x00, 0x00, 0x00, 0x00, 0x00, 0x00, 0x00, 0x36, 0x00, 0x00, 0x00];
    assert!(matches!(prepare(&bmp_header), Err(VerifyError::UnsupportedFormat)));
}

#[test]
fn verify_truncated_png_returns_decode_failed() {
    let png = make_png(64, 64, 128);
    let truncated = &png[..png.len() / 2];
    assert!(matches!(prepare(truncated), Err(VerifyError::DecodeFailed)));
}

#[test]
fn valid_png_decodes_to_luma() {
    let (img, is_jpeg) = prepare(&make_png(64, 48, 128)).unwrap();
    assert!(!is_jpeg);
    assert_eq!(img.width(), 64);
    assert_eq!(img.height(), 48);
    assert!(img.pixels().iter().all(|p| *p == 128));
}

#[test]
fn tiny_pngs_decode() {
    for (w, h) in [(1, 1), (2, 2), (3, 3), (2, 3), (3, 2)] {
        let (img, _) = prepare(&make_png(w, h, 200)).unwrap();
        assert_eq!((img.width(), img.height()), (w, h));
    }
}

#[test]
fn jpeg_is_flagged() {
    let (img, is_jpeg) = prepare(&make_jpeg(32, 16, 90)).unwrap();
    assert!(is_jpeg);
    assert_eq!((img.width(), img.height()), (32, 16));
}

#[test]
fn m3_custom_max_file_size_rejects_input() {
    let png = make_gradient_png(50, 50);
    assert!(matches!(prepare_image(&png, 10, 16384), Err(VerifyError::InputTooLarge { size, limit: 10 }) if size == png.len()));
}

#[test]
fn m3_custom_max_dimension_rejects_large_image() {
    let png = make_gradient_png(100, 100);
    assert!(matches!(
        prepare_image(&png, MAX_FILE_SIZE_BYTES, 10),
        Err(VerifyError::DimensionTooLarge { width: 100, height: 100, limit: 10 })
    ));
    assert!(prepare_image(&png, MAX_FILE_SIZE_BYTES, 100).is_ok());
}

#[test]
fn verify_normal_image_passes_dimension_check() {
    let result = prepare(&make_png(128, 128, 200));
    assert!(result.is_ok(), "normal image should pass: {:?}", result.err());
}

#[test]
fn gates_in_isolation() {
    assert_eq!(screen_payload(0, 5), Err(VerifyError::EmptyInput));
    assert_eq!(screen_payload(6, 5), Err(VerifyError::InputTooLarge { size: 6, limit: 5 }));
    assert_eq!(screen_payload(5, 5), Ok(()));
    assert_eq!(check_format(SniffedFormat::Jpeg), Ok(true));
    assert_eq!(check_format(SniffedFormat::WebP), Ok(false));
    assert_eq!(check_format(SniffedFormat::Other), Err(VerifyError::UnsupportedFormat));
    assert_eq!(check_dimensions(10, 11, 10), Err(VerifyError::DimensionTooLarge { width: 10, height: 11, limit: 10 }));
    assert_eq!(check_dimensions(10, 10, 10), Ok(()));
}
