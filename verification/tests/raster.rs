use image::{DynamicImage, GenericImageView, GrayImage, ImageFormat, Luma, Rgb, RgbImage};
use imgdup::phash::raster::{find_image_matrix, intensities_of, normalize, HashError};
use std::io::Cursor;

fn gradient(width: u32, height: u32) -> DynamicImage {
    DynamicImage::ImageLuma8(GrayImage::from_fn(width, height, |x, y| {
        Luma([((x * 255 / width.max(1) + y * 255 / height.max(1)) / 2) as u8])
    }))
}

fn load_intensities(bytes: &[u8], format: ImageFormat, size: u32) -> Result<Vec<Vec<u8>>, HashError> {
    intensities_of(image::load_from_memory_with_format(bytes, format), size)
}

fn encoded(img: &DynamicImage, format: ImageFormat) -> Vec<u8> {
    let mut bytes = Cursor::new(Vec::new());
    img.write_to(&mut bytes, format).unwrap();
    bytes.into_inner()
}

#[test]
fn matrix_holds_the_pixels_column_by_column() {
    let img = DynamicImage::ImageLuma8(GrayImage::from_fn(3, 2, |x, y| Luma([(10 * x + y) as u8])));
    let matrix = find_image_matrix(&img);
    assert_eq!(matrix, vec![vec![0, 1], vec![10, 11], vec![20, 21]]);
}

#[test]
fn matrix_of_a_colour_image_holds_the_blue_channel() {
    let img = DynamicImage::ImageRgb8(RgbImage::from_fn(2, 3, |x, y| {
        Rgb([200, 100, (x + 2 * y) as u8])
    }));
    let matrix = find_image_matrix(&img);
    assert_eq!(matrix, vec![vec![0, 2, 4], vec![1, 3, 5]]);
}

#[test]
fn matrix_of_an_image_without_pixels() {
    assert_eq!(find_image_matrix(&DynamicImage::new_luma8(0, 0)), Vec::<Vec<u8>>::new());
    assert_eq!(find_image_matrix(&DynamicImage::new_luma8(0, 4)), Vec::<Vec<u8>>::new());
    assert_eq!(find_image_matrix(&DynamicImage::new_luma8(2, 0)), vec![Vec::<u8>::new(); 2]);
}

#[test]
fn normalize_gives_a_square_of_the_size_asked_for() {
    let normal = normalize(&gradient(64, 48), 32).unwrap();
    assert_eq!(normal.dimensions(), (32, 32));
    let normal = normalize(&gradient(5, 90), 8).unwrap();
    assert_eq!(normal.dimensions(), (8, 8));
    let normal = normalize(&gradient(32, 32), 32).unwrap();
    assert_eq!(normal.dimensions(), (32, 32));
}

#[test]
fn normalize_gives_a_grey_image() {
    let red = DynamicImage::ImageRgb8(RgbImage::from_pixel(40, 30, Rgb([255, 0, 0])));
    let normal = normalize(&red, 32).unwrap();
    for (_, _, pixel) in normal.pixels() {
        assert_eq!(pixel.0[0], pixel.0[1]);
        assert_eq!(pixel.0[1], pixel.0[2]);
    }
    let matrix = find_image_matrix(&normal);
    assert_eq!(matrix.len(), 32);
    for column in &matrix {
        assert_eq!(column.len(), 32);
        for value in column {
            assert_eq!(*value, 54);
        }
    }
}

#[test]
fn an_image_without_pixels_is_refused() {
    assert!(matches!(normalize(&DynamicImage::new_luma8(0, 0), 32), Err(HashError::Empty)));
    assert!(matches!(normalize(&DynamicImage::new_rgb8(0, 7), 32), Err(HashError::Empty)));
    assert!(matches!(normalize(&DynamicImage::new_rgb8(7, 0), 32), Err(HashError::Empty)));
    assert!(matches!(intensities_of(Ok(DynamicImage::new_luma8(0, 0)), 32), Err(HashError::Empty)));
}

#[test]
fn a_failure_to_decode_is_passed_on_with_its_reason() {
    let error = image::load_from_memory_with_format(b"no image", ImageFormat::Png).unwrap_err();
    let expected = format!("{}", error);
    match intensities_of(Err(error), 32) {
        Err(HashError::Decode(reason)) => assert_eq!(reason, expected),
        other => panic!("unexpected outcome: {:?}", other),
    }
}

#[test]
fn a_decoded_image_gives_its_intensities() {
    let grid = intensities_of(Ok(gradient(32, 32)), 32).unwrap();
    assert_eq!(grid, find_image_matrix(&gradient(32, 32)));
    assert_eq!(grid[31][31], ((31 * 255 / 32 + 31 * 255 / 32) / 2) as u8);
    assert_eq!(grid[31][0], ((31 * 255 / 32) / 2) as u8);
}

#[test]
fn bytes_of_a_png_give_a_grid() {
    let bytes = encoded(&gradient(40, 20), ImageFormat::Png);
    let grid = load_intensities(&bytes, ImageFormat::Png, 32).unwrap();
    assert_eq!(grid.len(), 32);
    assert!(grid.iter().all(|column| column.len() == 32));
    assert!(grid[0][0] < grid[31][31]);
    let small = load_intensities(&bytes, ImageFormat::Png, 8).unwrap();
    assert_eq!(small.len(), 8);
    assert!(small.iter().all(|column| column.len() == 8));
}

#[test]
fn bytes_of_a_jpeg_give_a_grid() {
    let bytes = encoded(&gradient(50, 50), ImageFormat::Jpeg);
    let grid = load_intensities(&bytes, ImageFormat::Jpeg, 32).unwrap();
    assert_eq!(grid.len(), 32);
    assert!(grid.iter().all(|column| column.len() == 32));
}

#[test]
fn bytes_that_are_no_image_are_refused() {
    assert!(matches!(load_intensities(b"", ImageFormat::Png, 32), Err(HashError::Decode(_))));
    assert!(matches!(load_intensities(b"hello", ImageFormat::Jpeg, 32), Err(HashError::Decode(_))));
    let png = encoded(&gradient(10, 10), ImageFormat::Png);
    assert!(matches!(load_intensities(&png, ImageFormat::Jpeg, 32), Err(HashError::Decode(_))));
    assert!(matches!(load_intensities(&png[..20], ImageFormat::Png, 32), Err(HashError::Decode(_))));
}

#[test]
fn the_same_bytes_give_the_same_grid() {
    let bytes = encoded(&gradient(123, 77), ImageFormat::Png);
    let first = load_intensities(&bytes, ImageFormat::Png, 32).unwrap();
    let second = load_intensities(&bytes, ImageFormat::Png, 32).unwrap();
    assert_eq!(first, second);
}
