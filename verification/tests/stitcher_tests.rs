use lovshot::error::CaptureError;
use lovshot::raster::Raster;
use lovshot::stitcher::stitch_scroll_image;

fn rows(width: u32, values: &[u8]) -> Raster {
    let mut data = Vec::new();
    for v in values {
        for _ in 0..width {
            data.extend_from_slice(&[*v, *v, *v, 255]);
        }
    }
    Raster::from_raw(width, values.len() as u32, data).unwrap()
}

fn row_values(img: &Raster) -> Vec<u8> {
    (0..img.height()).map(|y| img.get_pixel(0, y)[0]).collect()
}

#[test]
fn stitch_rejects_width_mismatch() {
    let base = rows(4, &[1, 2, 3]);
    let frame = rows(5, &[4, 5, 6]);
    assert_eq!(stitch_scroll_image(&base, &frame, 3).err(), Some(CaptureError::FrameWidthMismatch));
    assert_eq!(stitch_scroll_image(&base, &frame, -3).err(), Some(CaptureError::FrameWidthMismatch));
    assert_eq!(stitch_scroll_image(&base, &frame, 0).err(), Some(CaptureError::FrameWidthMismatch));
}

#[test]
fn stitch_appends_bottom_rows_for_positive_offset() {
    let base = rows(3, &[1, 2, 3, 4]);
    let frame = rows(3, &[10, 11, 12, 13]);
    let out = stitch_scroll_image(&base, &frame, 2).unwrap();
    assert_eq!(out.dimensions(), (3, 6));
    assert_eq!(row_values(&out), vec![1, 2, 3, 4, 12, 13]);
}

#[test]
fn stitch_prepends_top_rows_for_negative_offset() {
    let base = rows(3, &[1, 2, 3, 4]);
    let frame = rows(3, &[10, 11, 12, 13]);
    let out = stitch_scroll_image(&base, &frame, -3).unwrap();
    assert_eq!(out.dimensions(), (3, 7));
    assert_eq!(row_values(&out), vec![10, 11, 12, 1, 2, 3, 4]);
}

#[test]
fn stitch_without_overlap_concatenates_below() {
    let base = rows(2, &[1, 2, 3]);
    let frame = rows(2, &[7, 8]);
    let exact = stitch_scroll_image(&base, &frame, 2).unwrap();
    assert_eq!(exact.height(), 5);
    assert_eq!(row_values(&exact), vec![1, 2, 3, 7, 8]);
    let beyond = stitch_scroll_image(&base, &frame, 500).unwrap();
    assert_eq!(beyond.height(), 5);
    assert_eq!(row_values(&beyond), vec![1, 2, 3, 7, 8]);
}

#[test]
fn stitch_without_overlap_concatenates_above() {
    let base = rows(2, &[1, 2, 3]);
    let frame = rows(2, &[7, 8]);
    let out = stitch_scroll_image(&base, &frame, -2).unwrap();
    assert_eq!(row_values(&out), vec![7, 8, 1, 2, 3]);
    let beyond = stitch_scroll_image(&base, &frame, i32::MIN).unwrap();
    assert_eq!(row_values(&beyond), vec![7, 8, 1, 2, 3]);
}

#[test]
fn stitch_with_zero_offset_copies_base() {
    let base = rows(2, &[1, 2, 3]);
    let frame = rows(2, &[7, 8]);
    let out = stitch_scroll_image(&base, &frame, 0).unwrap();
    assert_eq!(out.dimensions(), (2, 3));
    assert_eq!(out.as_raw(), base.as_raw());
}

#[test]
fn stitch_height_grows_by_clamped_offset() {
    let base = rows(1, &[0; 50]);
    let frame = rows(1, &[1; 20]);
    for delta in [1, 5, 19, 20, 21, 300] {
        let expected = 50 + (delta as u32).min(20);
        assert_eq!(stitch_scroll_image(&base, &frame, delta).unwrap().height(), expected);
        assert_eq!(stitch_scroll_image(&base, &frame, -delta).unwrap().height(), expected);
    }
}

#[test]
fn stitch_keeps_all_channels() {
    let base = Raster::from_raw(1, 1, vec![1, 2, 3, 4]).unwrap();
    let frame = Raster::from_raw(1, 2, vec![5, 6, 7, 8, 9, 10, 11, 12]).unwrap();
    let out = stitch_scroll_image(&base, &frame, 1).unwrap();
    assert_eq!(out.as_raw(), &vec![1, 2, 3, 4, 9, 10, 11, 12]);
}
