use base64::Engine;
use lovshot::error::CaptureError;
use lovshot::preview::{
    drop_alpha, generate_preview_base64, preview_data_url, preview_dimensions,
};
use lovshot::raster::Raster;

fn gradient(width: u32, height: u32) -> Raster {
    let mut data = Vec::with_capacity((width * height * 4) as usize);
    for y in 0..height {
        for x in 0..width {
            data.push((x * 255 / width.max(1)) as u8);
            data.push((y * 255 / height.max(1)) as u8);
            data.push(128);
            data.push(255);
        }
    }
    Raster::from_raw(width, height, data).unwrap()
}

fn decode(url: &str) -> image::DynamicImage {
    let prefix = "data:image/jpeg;base64,";
    assert!(url.starts_with(prefix));
    let bytes = base64::engine::general_purpose::STANDARD.decode(&url[prefix.len()..]).unwrap();
    assert_eq!(&bytes[..2], &[0xFF, 0xD8]);
    image::load_from_memory_with_format(&bytes, image::ImageFormat::Jpeg).unwrap()
}

#[test]
fn preview_size_keeps_small_images() {
    assert_eq!(preview_dimensions(400, 600, 600), (400, 600));
    assert_eq!(preview_dimensions(400, 1, 600), (400, 1));
    assert_eq!(preview_dimensions(0, 0, 600), (0, 0));
}

#[test]
fn preview_size_scales_tall_images() {
    assert_eq!(preview_dimensions(400, 1200, 600), (200, 600));
    assert_eq!(preview_dimensions(400, 920, 600), (260, 600));
    assert_eq!(preview_dimensions(1000, 601, 600), (998, 600));
}

#[test]
fn preview_size_is_at_least_one_pixel_wide() {
    assert_eq!(preview_dimensions(1, 6000, 600), (1, 600));
    assert_eq!(preview_dimensions(0, 6000, 600), (1, 600));
    assert_eq!(preview_dimensions(10, 10, 0), (1, 0));
}

#[test]
fn drop_alpha_keeps_colour_channels() {
    assert_eq!(drop_alpha(&vec![1, 2, 3, 4, 5, 6, 7, 8]), vec![1, 2, 3, 5, 6, 7]);
    assert_eq!(drop_alpha(&Vec::new()), Vec::<u8>::new());
}

#[test]
fn data_url_has_jpeg_prefix() {
    assert_eq!(preview_data_url("QUJD"), "data:image/jpeg;base64,QUJD");
    assert_eq!(preview_data_url(""), "data:image/jpeg;base64,");
}

#[test]
fn preview_of_small_image_keeps_size() {
    let img = gradient(64, 48);
    let url = generate_preview_base64(&img, 600).unwrap();
    let decoded = decode(&url);
    assert_eq!((decoded.width(), decoded.height()), (64, 48));
}

#[test]
fn preview_of_tall_image_is_reduced() {
    let img = gradient(400, 1200);
    let url = generate_preview_base64(&img, 600).unwrap();
    let decoded = decode(&url);
    assert_eq!((decoded.width(), decoded.height()), (200, 600));
}

#[test]
fn preview_shows_the_image() {
    // A red upper half above a blue lower half stays so in the preview.
    let mut data = Vec::new();
    for y in 0..800u32 {
        for _ in 0..32 {
            if y < 400 {
                data.extend_from_slice(&[255, 0, 0, 255]);
            } else {
                data.extend_from_slice(&[0, 0, 255, 255]);
            }
        }
    }
    let img = Raster::from_raw(32, 800, data).unwrap();
    let decoded = decode(&generate_preview_base64(&img, 200).unwrap()).to_rgb8();
    assert_eq!(decoded.dimensions(), (8, 200));
    let top = decoded.get_pixel(4, 20);
    let bottom = decoded.get_pixel(4, 180);
    assert!(top[0] > 200 && top[2] < 60);
    assert!(bottom[2] > 200 && bottom[0] < 60);
}

#[test]
fn preview_of_empty_image_fails() {
    let img = Raster::from_raw(0, 10, Vec::new()).unwrap();
    assert_eq!(generate_preview_base64(&img, 600).err(), Some(CaptureError::PreviewFailed));
    let img = Raster::from_raw(10, 0, Vec::new()).unwrap();
    assert_eq!(generate_preview_base64(&img, 600).err(), Some(CaptureError::PreviewFailed));
}

#[test]
fn preview_with_zero_height_limit_fails() {
    let img = gradient(8, 8);
    assert_eq!(generate_preview_base64(&img, 0).err(), Some(CaptureError::PreviewFailed));
}

#[test]
fn preview_of_tall_image_without_columns_fails() {
    let img = Raster::from_raw(0, 700, Vec::new()).unwrap();
    assert_eq!(generate_preview_base64(&img, 600).err(), Some(CaptureError::PreviewFailed));
}

#[test]
fn preview_of_image_beyond_the_resampler_fails() {
    // 4194305 rows are more than the resampler is handed.
    let img = Raster::from_raw(1, 4_194_305, vec![0u8; 4 * 4_194_305]).unwrap();
    assert_eq!(generate_preview_base64(&img, 600).err(), Some(CaptureError::PreviewFailed));
    let img = Raster::from_raw(1, 4_194_304, vec![7u8; 4 * 4_194_304]).unwrap();
    let decoded = decode(&generate_preview_base64(&img, 600).unwrap());
    assert_eq!((decoded.width(), decoded.height()), (1, 600));
}

#[test]
fn preview_of_wide_image_is_as_wide() {
    let img = gradient(2000, 10);
    let decoded = decode(&generate_preview_base64(&img, 600).unwrap());
    assert_eq!((decoded.width(), decoded.height()), (2000, 10));
}
