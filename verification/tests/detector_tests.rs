use lovshot::detector::{
    compute_strip_diff, detect_scroll_delta_fft, match_planes, to_grayscale, Sign,
};
use lovshot::raster::Raster;

/// A pixel of a vertical ramp whose luminance grows by about 0.2 per row.
fn ramp_pixel(y: u32) -> [u8; 4] {
    let target = 200 * y;
    let v = target / 1000;
    let r = target - 1000 * v;
    [v as u8, v as u8, (v + r / 114) as u8, 255]
}

/// A frame that shows the rows `top..top + height` of the ramp.
fn ramp_frame(width: u32, height: u32, top: u32) -> Raster {
    let mut data = Vec::with_capacity((width * height * 4) as usize);
    for y in 0..height {
        let p = ramp_pixel(top + y);
        for _ in 0..width {
            data.extend_from_slice(&p);
        }
    }
    Raster::from_raw(width, height, data).unwrap()
}

fn solid(width: u32, height: u32, value: u8) -> Raster {
    Raster::from_raw(width, height, vec![value; (width * height * 4) as usize]).unwrap()
}

#[test]
fn grayscale_uses_broadcast_weights() {
    let img = Raster::from_raw(2, 1, vec![10, 20, 30, 255, 255, 255, 255, 0]).unwrap();
    assert_eq!(to_grayscale(&img), vec![18_150, 255_000]);
}

#[test]
fn grayscale_ignores_alpha() {
    let a = Raster::from_raw(1, 1, vec![1, 2, 3, 0]).unwrap();
    let b = Raster::from_raw(1, 1, vec![1, 2, 3, 255]).unwrap();
    assert_eq!(to_grayscale(&a), to_grayscale(&b));
    assert_eq!(to_grayscale(&a), vec![299 + 2 * 587 + 3 * 114]);
}

#[test]
fn strip_diff_samples_every_second_column() {
    // Two planes, 4 wide and 2 high.
    let prev = vec![10, 1000, 20, 1000, 30, 1000, 40, 1000];
    let curr = vec![13, 0, 27, 0, 30, 0, 25, 0];
    // Columns 0 and 2 of both rows: 3 + 7 + 0 + 15.
    assert_eq!(compute_strip_diff(&prev, &curr, 0, 0, 4, 2), 25);
    // Row 0 of prev against row 1 of curr: |10 - 30| + |20 - 25|.
    assert_eq!(compute_strip_diff(&prev, &curr, 0, 1, 4, 1), 25);
    assert_eq!(compute_strip_diff(&prev, &curr, 1, 0, 4, 1), 17 + 13);
}

#[test]
fn strip_diff_odd_width_samples_last_column() {
    let prev = vec![5, 100, 9];
    let curr = vec![1, 0, 2];
    assert_eq!(compute_strip_diff(&prev, &curr, 0, 0, 3, 1), 4 + 7);
}

#[test]
fn strip_diff_leaves_out_rows_outside() {
    let prev = vec![10, 10, 20, 20];
    let curr = vec![0, 0, 0, 0];
    // The strip of three rows starts at row 1; rows 2 and 3 do not exist.
    assert_eq!(compute_strip_diff(&prev, &curr, 1, 0, 2, 3), 20);
    assert_eq!(compute_strip_diff(&prev, &curr, 5, 0, 2, 3), 0);
    assert_eq!(compute_strip_diff(&prev, &curr, 0, 0, 0, 3), 0);
}

#[test]
fn identical_frames_give_zero() {
    let a = ramp_frame(16, 200, 100);
    let b = ramp_frame(16, 200, 100);
    assert_eq!(detect_scroll_delta_fft(&a, &b, None, None), 0);
    assert_eq!(detect_scroll_delta_fft(&a, &b, Some(Sign::Positive), Some(50)), 0);
    assert_eq!(detect_scroll_delta_fft(&a, &a, Some(Sign::Negative), None), 0);
    let c = solid(7, 90, 200);
    assert_eq!(detect_scroll_delta_fft(&c, &c, None, None), 0);
}

#[test]
fn frames_of_other_size_give_zero() {
    let a = ramp_frame(16, 200, 300);
    assert_eq!(detect_scroll_delta_fft(&a, &ramp_frame(16, 201, 180), None, None), 0);
    assert_eq!(detect_scroll_delta_fft(&a, &ramp_frame(17, 200, 180), None, None), 0);
}

#[test]
fn low_frames_give_zero() {
    let a = ramp_frame(16, 39, 300);
    let b = ramp_frame(16, 39, 280);
    assert_eq!(detect_scroll_delta_fft(&a, &b, None, None), 0);
    // With exactly the height of a strip no shifted strip fits.
    let a = ramp_frame(16, 40, 300);
    let b = ramp_frame(16, 40, 280);
    assert_eq!(detect_scroll_delta_fft(&a, &b, None, None), 0);
}

/// A reference frame and a new frame that shows the ramp `d` rows further
/// down the page.
fn scrolled(width: u32, height: u32, d: i32) -> (Raster, Raster) {
    let top: i32 = if d >= 0 { 100 } else { 100 - d };
    (ramp_frame(width, height, top as u32), ramp_frame(width, height, (top + d) as u32))
}

#[test]
fn scroll_down_the_page_is_positive() {
    let (prev, curr) = scrolled(8, 800, 120);
    // The new frame shows row 220 of the page at its top, the reference row 100.
    assert_eq!(curr.get_pixel(0, 0), prev.get_pixel(0, 120));
    assert_eq!(detect_scroll_delta_fft(&prev, &curr, None, None), 120);
}

#[test]
fn scroll_up_the_page_is_negative() {
    let (prev, curr) = scrolled(8, 800, -120);
    assert_eq!(curr.get_pixel(0, 120), prev.get_pixel(0, 0));
    assert_eq!(detect_scroll_delta_fft(&prev, &curr, None, None), -120);
}

#[test]
fn grey_steps_scrolled_down_by_120() {
    let mut prev = Vec::new();
    let mut curr = Vec::new();
    for y in 0..800u32 {
        for _ in 0..4 {
            let g = (y / 4) as u8;
            prev.extend_from_slice(&[g, g, g, 255]);
            let g = ((y + 120) / 4) as u8;
            curr.extend_from_slice(&[g, g, g, 255]);
        }
    }
    let prev = Raster::from_raw(4, 800, prev).unwrap();
    let curr = Raster::from_raw(4, 800, curr).unwrap();
    assert_eq!(detect_scroll_delta_fft(&prev, &curr, None, None), 120);
    assert_eq!(detect_scroll_delta_fft(&curr, &prev, None, None), -120);
}

#[test]
fn detects_offsets_between_coarse_steps() {
    for d in [64i32, 150, 200, 300] {
        let (prev, down) = scrolled(8, 800, d);
        assert_eq!(detect_scroll_delta_fft(&prev, &down, None, None), d);
        let (prev, up) = scrolled(8, 800, -d);
        assert_eq!(detect_scroll_delta_fft(&prev, &up, None, None), -d);
    }
}

#[test]
fn small_differences_count_as_no_scroll() {
    // A shift of 37 rows changes the strip by less than five levels on average.
    let prev = ramp_frame(8, 800, 300);
    let curr = ramp_frame(8, 800, 263);
    assert_eq!(detect_scroll_delta_fft(&prev, &curr, None, None), 0);
}

#[test]
fn direction_hint_narrows_search() {
    let (prev, curr) = scrolled(8, 800, 120);
    assert_eq!(detect_scroll_delta_fft(&prev, &curr, Some(Sign::Positive), None), 120);
    assert_eq!(detect_scroll_delta_fft(&prev, &curr, Some(Sign::Negative), None), 0);
    let (prev, back) = scrolled(8, 800, -120);
    assert_eq!(detect_scroll_delta_fft(&prev, &back, Some(Sign::Negative), None), -120);
    assert_eq!(detect_scroll_delta_fft(&prev, &back, Some(Sign::Positive), None), 0);
}

#[test]
fn magnitude_hint_bounds_search() {
    let (prev, curr) = scrolled(8, 800, 120);
    assert_eq!(detect_scroll_delta_fft(&prev, &curr, None, Some(125)), 120);
    assert_eq!(detect_scroll_delta_fft(&prev, &curr, None, Some(400)), 120);
    // Below ten pixels nothing is searched.
    assert_eq!(detect_scroll_delta_fft(&prev, &curr, None, Some(9)), 0);
    // The best offset within the bound still has to pass the quality gates.
    assert_eq!(detect_scroll_delta_fft(&prev, &curr, None, Some(100)), 100);
}

#[test]
fn range_is_half_the_height() {
    // Frames of 100 rows are searched up to 50 rows, but a strip shifted by
    // more than 29 rows no longer fits, and a shift that small on this ramp
    // counts as no scroll.
    let prev = ramp_frame(8, 100, 300);
    let curr = ramp_frame(8, 100, 280);
    assert_eq!(detect_scroll_delta_fft(&prev, &curr, None, None), 0);
}

#[test]
fn unrelated_frames_are_rejected() {
    let prev = solid(8, 200, 0);
    let curr = solid(8, 200, 255);
    assert_eq!(detect_scroll_delta_fft(&prev, &curr, None, None), 0);
}

#[test]
fn match_planes_agrees_with_detect() {
    let (prev, curr) = scrolled(8, 400, 100);
    let p = to_grayscale(&prev);
    let c = to_grayscale(&curr);
    assert_eq!(match_planes(&p, &c, 8, 400, None, None), 100);
    assert_eq!(detect_scroll_delta_fft(&prev, &curr, None, None), 100);
    assert_eq!(match_planes(&c, &p, 8, 400, None, None), -100);
}

#[test]
fn match_planes_of_low_planes_is_zero() {
    let p = vec![0u32; 8 * 39];
    let c = vec![255_000u32; 8 * 39];
    assert_eq!(match_planes(&p, &c, 8, 39, None, None), 0);
    assert_eq!(match_planes(&Vec::new(), &Vec::new(), 0, 0, None, None), 0);
}

#[test]
fn frames_without_columns_give_zero() {
    let a = Raster::from_raw(0, 60, Vec::new()).unwrap();
    let b = Raster::from_raw(0, 60, Vec::new()).unwrap();
    assert_eq!(detect_scroll_delta_fft(&a, &b, None, None), 0);
    assert_eq!(match_planes(&Vec::new(), &Vec::new(), 0, 800, None, None), 0);
}
