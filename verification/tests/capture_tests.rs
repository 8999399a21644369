use base64::Engine;
use lovshot::capture::{capture_area, capture_screenshot, png_data_url};
use lovshot::error::CaptureError;
use lovshot::raster::Raster;

fn numbered(width: u32, height: u32) -> Raster {
    let mut data = Vec::new();
    for y in 0..height {
        for x in 0..width {
            data.extend_from_slice(&[x as u8, y as u8, (x * y) as u8, 255]);
        }
    }
    Raster::from_raw(width, height, data).unwrap()
}

#[test]
fn area_inside_is_cut_out() {
    let full = numbered(10, 8);
    let img = capture_area(&full, 2, 3, 4, 2).unwrap();
    assert_eq!(img.dimensions(), (4, 2));
    assert_eq!(img.get_pixel(0, 0), full.get_pixel(2, 3));
    assert_eq!(img.get_pixel(3, 1), full.get_pixel(5, 4));
}

#[test]
fn area_is_reduced_to_the_screen() {
    let full = numbered(10, 8);
    let img = capture_area(&full, 8, 7, 5, 5).unwrap();
    assert_eq!(img.dimensions(), (2, 1));
    assert_eq!(img.get_pixel(1, 0), full.get_pixel(9, 7));
}

#[test]
fn area_beyond_the_screen_is_its_last_pixel() {
    let full = numbered(10, 8);
    let img = capture_area(&full, 20, 20, 5, 5).unwrap();
    assert_eq!(img.dimensions(), (1, 1));
    assert_eq!(img.get_pixel(0, 0), full.get_pixel(9, 7));
}

#[test]
fn empty_area_is_refused() {
    let full = numbered(10, 8);
    assert_eq!(capture_area(&full, 2, 3, 0, 2).err(), Some(CaptureError::InvalidCaptureArea));
    assert_eq!(capture_area(&full, 2, 3, 4, 0).err(), Some(CaptureError::InvalidCaptureArea));
    let none = Raster::from_raw(0, 0, Vec::new()).unwrap();
    assert_eq!(capture_area(&none, 0, 0, 4, 4).err(), Some(CaptureError::InvalidCaptureArea));
    assert_eq!(CaptureError::InvalidCaptureArea.message(), "Invalid capture area");
}

#[test]
fn whole_screen_is_kept() {
    let full = numbered(10, 8);
    let img = capture_area(&full, 0, 0, u32::MAX, u32::MAX).unwrap();
    assert_eq!(img.dimensions(), (10, 8));
    assert_eq!(img.as_raw(), full.as_raw());
}

#[test]
fn png_url_has_prefix() {
    assert_eq!(png_data_url("QUJD"), "data:image/png;base64,QUJD");
}

#[test]
fn screenshot_is_a_png_of_the_image() {
    let img = numbered(12, 9);
    let url = capture_screenshot(&img).unwrap();
    let prefix = "data:image/png;base64,";
    assert!(url.starts_with(prefix));
    let bytes = base64::engine::general_purpose::STANDARD.decode(&url[prefix.len()..]).unwrap();
    assert_eq!(&bytes[..8], &[0x89, b'P', b'N', b'G', 0x0D, 0x0A, 0x1A, 0x0A]);
    let decoded = image::load_from_memory_with_format(&bytes, image::ImageFormat::Png)
        .unwrap()
        .to_rgba8();
    assert_eq!(decoded.dimensions(), (12, 9));
    assert_eq!(decoded.as_raw(), img.as_raw());
}

#[test]
fn screenshot_of_nothing_fails() {
    let none = Raster::from_raw(0, 0, Vec::new()).unwrap();
    assert_eq!(capture_screenshot(&none).err(), Some(CaptureError::EncodingFailed));
    assert_eq!(CaptureError::EncodingFailed.message(), "Failed to encode image");
}
