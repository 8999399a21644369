use lovshot::error::CaptureError;
use lovshot::finisher::{apply_crop, CropEdges};
use lovshot::raster::Raster;

fn numbered(width: u32, height: u32) -> Raster {
    let mut data = Vec::new();
    for y in 0..height {
        for x in 0..width {
            data.push((x % 251) as u8);
            data.push((y % 251) as u8);
            data.push((y / 251) as u8);
            data.push(255);
        }
    }
    Raster::from_raw(width, height, data).unwrap()
}

#[test]
fn crop_none_returns_image() {
    let img = numbered(7, 5);
    let out = apply_crop(&img, None).unwrap();
    assert_eq!(out.dimensions(), (7, 5));
    assert_eq!(out.as_raw(), img.as_raw());
}

#[test]
fn crop_all_zero_returns_image() {
    let img = numbered(7, 5);
    let out = apply_crop(&img, Some(CropEdges { top: 0, bottom: 0, left: 0, right: 0 })).unwrap();
    assert_eq!(out.as_raw(), img.as_raw());
}

#[test]
fn crop_ten_percent_top_and_bottom() {
    let img = numbered(400, 1000);
    let out = apply_crop(&img, Some(CropEdges::from_percent(10, 10, 0, 0))).unwrap();
    assert_eq!(out.dimensions(), (400, 800));
    assert_eq!(out.get_pixel(0, 0), img.get_pixel(0, 100));
    assert_eq!(out.get_pixel(399, 799), img.get_pixel(399, 899));
    assert_eq!(out.get_pixel(123, 400), img.get_pixel(123, 500));
}

#[test]
fn crop_left_and_right() {
    let img = numbered(200, 10);
    let out = apply_crop(&img, Some(CropEdges { top: 0, bottom: 0, left: 2500, right: 500 })).unwrap();
    assert_eq!(out.dimensions(), (140, 10));
    assert_eq!(out.get_pixel(0, 3), img.get_pixel(50, 3));
    assert_eq!(out.get_pixel(139, 9), img.get_pixel(189, 9));
}

#[test]
fn crop_rounds_to_nearest_pixel() {
    let img = numbered(4, 4);
    // 12.5 % of 4 pixels is half a pixel, which rounds up to one.
    let up = apply_crop(&img, Some(CropEdges { top: 1250, bottom: 0, left: 0, right: 0 })).unwrap();
    assert_eq!(up.dimensions(), (4, 3));
    assert_eq!(up.get_pixel(0, 0), img.get_pixel(0, 1));
    // 12.49 % rounds down to nothing.
    let down = apply_crop(&img, Some(CropEdges { top: 1249, bottom: 0, left: 0, right: 0 })).unwrap();
    assert_eq!(down.dimensions(), (4, 4));
    assert_eq!(down.as_raw(), img.as_raw());
}

#[test]
fn crop_exceeding_height_fails() {
    let img = numbered(10, 10);
    let r = apply_crop(&img, Some(CropEdges::from_percent(50, 50, 0, 0)));
    assert_eq!(r.err(), Some(CaptureError::CropExceedsBounds));
    let r = apply_crop(&img, Some(CropEdges::from_percent(100, 0, 0, 0)));
    assert_eq!(r.err(), Some(CaptureError::CropExceedsBounds));
}

#[test]
fn crop_exceeding_width_fails() {
    let img = numbered(10, 10);
    let r = apply_crop(&img, Some(CropEdges::from_percent(0, 0, 60, 40)));
    assert_eq!(r.err(), Some(CaptureError::CropExceedsBounds));
    let r = apply_crop(&img, Some(CropEdges { top: 0, bottom: 0, left: u32::MAX, right: u32::MAX }));
    assert_eq!(r.err(), Some(CaptureError::CropExceedsBounds));
}

#[test]
fn crop_leaves_at_least_one_pixel() {
    let img = numbered(10, 10);
    let out = apply_crop(&img, Some(CropEdges::from_percent(50, 40, 40, 50))).unwrap();
    assert_eq!(out.dimensions(), (1, 1));
    assert_eq!(out.get_pixel(0, 0), img.get_pixel(4, 5));
}

#[test]
fn crop_of_empty_image_fails_unless_zero() {
    let img = Raster::from_raw(0, 0, Vec::new()).unwrap();
    assert!(apply_crop(&img, None).is_ok());
    let r = apply_crop(&img, Some(CropEdges::from_percent(1, 0, 0, 0)));
    assert_eq!(r.err(), Some(CaptureError::CropExceedsBounds));
}

#[test]
fn from_percent_scales_to_hundredths() {
    let e = CropEdges::from_percent(10, 20, 0, 255);
    assert_eq!(e, CropEdges { top: 1000, bottom: 2000, left: 0, right: 25500 });
}
