use raster_drone::{
    bradley_adaptive_threshold, coordinates_to_image, image_to_coordinates, integral_image, Coordinate,
    GrayRaster, ImgType, RgbaRaster, ThresholdError,
};

fn gray(width: u32, height: u32, pixels: Vec<u8>) -> GrayRaster {
    GrayRaster { width, height, pixels }
}

fn rgba(width: u32, height: u32, px: &[[u8; 4]]) -> RgbaRaster {
    RgbaRaster { width, height, data: px.iter().flat_map(|p| p.iter().copied()).collect() }
}

#[test]
fn integral_image_bottom_right_is_total() {
    let img = gray(2, 2, vec![1, 2, 3, 4]);
    assert_eq!(integral_image(&img), vec![1, 3, 4, 10]);
    let big = gray(5, 3, (0..15u8).map(|v| v * 17).collect());
    let total: u128 = big.pixels.iter().map(|&v| v as u128).sum();
    assert_eq!(*integral_image(&big).last().unwrap(), total);
}

#[test]
fn threshold_marks_dark_pixels_black() {
    let img = gray(3, 1, vec![10, 200, 10]);
    let out = bradley_adaptive_threshold(&img, 2, 15).unwrap();
    assert_eq!(out.pixels, vec![0, 255, 0]);
    assert_eq!((out.width, out.height), (3, 1));
}

#[test]
fn threshold_of_uniform_image_is_white() {
    let img = gray(4, 3, vec![100; 12]);
    let out = bradley_adaptive_threshold(&img, 3, 15).unwrap();
    assert_eq!(out.pixels, vec![255; 12]);
}

#[test]
fn threshold_output_is_binary() {
    let img = gray(6, 5, (0..30u8).map(|v| v.wrapping_mul(37)).collect());
    let out = bradley_adaptive_threshold(&img, 4, 10).unwrap();
    assert!(out.pixels.iter().all(|&v| v == 0 || v == 255));
}

#[test]
fn threshold_refuses_zero_window() {
    let img = gray(2, 2, vec![1, 2, 3, 4]);
    assert_eq!(bradley_adaptive_threshold(&img, 0, 15), Err(ThresholdError::InvalidParameter));
}

#[test]
fn extraction_ranks_by_brightness_then_scan_order() {
    let img = rgba(3, 1, &[[100, 100, 100, 255], [200, 200, 200, 255], [100, 100, 100, 255]]);
    let all = image_to_coordinates(&img, 1_000_000, ImgType::WhiteOnBlack);
    assert_eq!(all, vec![Coordinate::new(1, 0), Coordinate::new(0, 0), Coordinate::new(2, 0)]);
    let half = image_to_coordinates(&img, 500_000, ImgType::WhiteOnBlack);
    assert_eq!(half, vec![Coordinate::new(1, 0), Coordinate::new(0, 0)]);
}

#[test]
fn extraction_inverts_dark_on_light_images() {
    let img = rgba(3, 1, &[[100, 100, 100, 255], [200, 200, 200, 255], [100, 100, 100, 255]]);
    let all = image_to_coordinates(&img, 1_000_000, ImgType::BlackOnWhite);
    assert_eq!(all, vec![Coordinate::new(0, 0), Coordinate::new(2, 0), Coordinate::new(1, 0)]);
}

#[test]
fn extraction_skips_transparent_and_black_pixels() {
    let img = rgba(2, 2, &[[255, 255, 255, 0], [0, 0, 0, 255], [0, 0, 9, 255], [1, 0, 0, 255]]);
    let all = image_to_coordinates(&img, 1_000_000, ImgType::WhiteOnBlack);
    assert_eq!(all, vec![Coordinate::new(0, 1), Coordinate::new(1, 1)]);
}

#[test]
fn percentile_zero_and_one() {
    let img = rgba(2, 2, &[[5, 5, 5, 255], [0, 0, 0, 255], [50, 50, 50, 255], [7, 0, 0, 255]]);
    assert!(image_to_coordinates(&img, 0, ImgType::WhiteOnBlack).is_empty());
    let all = image_to_coordinates(&img, 1_000_000, ImgType::WhiteOnBlack);
    assert_eq!(all.len(), 3);
    let over = image_to_coordinates(&img, 3_000_000, ImgType::WhiteOnBlack);
    assert_eq!(over, all);
    assert!(!all.contains(&Coordinate::new(1, 0)));
}

#[test]
fn single_white_pixel_round_trip() {
    let mut px = vec![[0u8, 0, 0, 255]; 16];
    px[5] = [255, 255, 255, 255];
    let img = rgba(4, 4, &px);
    let coords = image_to_coordinates(&img, 1_000_000, ImgType::WhiteOnBlack);
    assert_eq!(coords, vec![Coordinate::new(1, 1)]);
    let back = coordinates_to_image(4, 4, &coords);
    let mut expected = vec![0u8; 16];
    expected[5] = 255;
    assert_eq!(back, gray(4, 4, expected));
}

#[test]
fn rendering_ignores_coordinates_outside() {
    let back = coordinates_to_image(2, 2, &vec![Coordinate::new(1, 0), Coordinate::new(5, 5)]);
    assert_eq!(back.pixels, vec![0, 255, 0, 0]);
}

#[test]
fn gray_to_rgba_replicates_intensity() {
    let out = raster_drone::gray_to_rgba(&gray(2, 1, vec![7, 200]));
    assert_eq!(out, rgba(2, 1, &[[7, 7, 7, 255], [200, 200, 200, 255]]));
}

#[test]
fn raster_validity() {
    assert!(gray(2, 2, vec![0; 4]).is_valid());
    assert!(!gray(2, 2, vec![0; 3]).is_valid());
    assert!(rgba(1, 1, &[[1, 2, 3, 4]]).is_valid());
    assert!(!RgbaRaster { width: 2, height: 1, data: vec![0; 4] }.is_valid());
}
