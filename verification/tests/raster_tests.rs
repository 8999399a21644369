use lovshot::raster::Raster;

fn numbered(width: u32, height: u32) -> Raster {
    let mut data = Vec::new();
    for y in 0..height {
        for x in 0..width {
            data.push(x as u8);
            data.push(y as u8);
            data.push((x + y) as u8);
            data.push(255);
        }
    }
    Raster::from_raw(width, height, data).unwrap()
}

#[test]
fn from_raw_accepts_exact_length() {
    let img = Raster::from_raw(3, 2, vec![0u8; 24]).unwrap();
    assert_eq!(img.width(), 3);
    assert_eq!(img.height(), 2);
    assert_eq!(img.dimensions(), (3, 2));
    assert_eq!(img.as_raw().len(), 24);
}

#[test]
fn from_raw_rejects_wrong_length() {
    assert!(Raster::from_raw(3, 2, vec![0u8; 23]).is_none());
    assert!(Raster::from_raw(3, 2, vec![0u8; 25]).is_none());
    assert!(Raster::from_raw(3, 2, vec![0u8; 28]).is_none());
    assert!(Raster::from_raw(0, 5, vec![0u8; 4]).is_none());
}

#[test]
fn from_raw_accepts_empty_raster() {
    let img = Raster::from_raw(0, 7, Vec::new()).unwrap();
    assert_eq!(img.dimensions(), (0, 7));
    assert!(img.into_raw().is_empty());
}

#[test]
fn get_pixel_reads_row_major() {
    let img = numbered(5, 4);
    assert_eq!(img.get_pixel(0, 0), [0, 0, 0, 255]);
    assert_eq!(img.get_pixel(4, 0), [4, 0, 4, 255]);
    assert_eq!(img.get_pixel(2, 3), [2, 3, 5, 255]);
}

#[test]
fn clone_keeps_bytes() {
    let img = numbered(5, 4);
    let copy = img.clone();
    assert_eq!(copy.dimensions(), (5, 4));
    assert_eq!(copy.as_raw(), img.as_raw());
}

#[test]
fn crop_imm_cuts_window() {
    let img = numbered(5, 4);
    let cut = img.crop_imm(1, 2, 3, 2);
    assert_eq!(cut.dimensions(), (3, 2));
    assert_eq!(cut.get_pixel(0, 0), [1, 2, 3, 255]);
    assert_eq!(cut.get_pixel(2, 0), [3, 2, 5, 255]);
    assert_eq!(cut.get_pixel(0, 1), [1, 3, 4, 255]);
    assert_eq!(cut.get_pixel(2, 1), [3, 3, 6, 255]);
}

#[test]
fn crop_imm_reduces_size_at_the_edge() {
    let img = numbered(5, 4);
    let cut = img.crop_imm(3, 3, 10, 10);
    assert_eq!(cut.dimensions(), (2, 1));
    assert_eq!(cut.get_pixel(0, 0), [3, 3, 6, 255]);
    assert_eq!(cut.get_pixel(1, 0), [4, 3, 7, 255]);
}

#[test]
fn crop_imm_outside_is_empty() {
    let img = numbered(5, 4);
    let cut = img.crop_imm(9, 9, 2, 2);
    assert_eq!(cut.dimensions(), (0, 0));
    assert!(cut.as_raw().is_empty());
}
