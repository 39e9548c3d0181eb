use raytracer::error::ConfigError;
use raytracer::image::ImageSize;

#[test]
fn new_keeps_the_dimensions() {
    let size = ImageSize::new(400, 225).unwrap();
    assert_eq!(size.width(), 400);
    assert_eq!(size.height(), 225);
    assert_eq!(size.count(), 90_000);
}

#[test]
fn new_accepts_the_smallest_image() {
    let size = ImageSize::new(2, 2).unwrap();
    assert_eq!(size.count(), 4);
}

#[test]
fn new_rejects_a_width_below_two() {
    assert_eq!(ImageSize::new(1, 225).err(), Some(ConfigError::WidthTooSmall));
    assert_eq!(ImageSize::new(0, 225).err(), Some(ConfigError::WidthTooSmall));
    assert_eq!(ImageSize::new(1, 1).err(), Some(ConfigError::WidthTooSmall));
}

#[test]
fn new_rejects_a_height_below_two() {
    assert_eq!(ImageSize::new(400, 1).err(), Some(ConfigError::HeightTooSmall));
    assert_eq!(ImageSize::new(2, 0).err(), Some(ConfigError::HeightTooSmall));
}

#[test]
fn sixteen_to_nine_at_width_400_is_225_rows() {
    let size = ImageSize::with_aspect_ratio(400, 16, 9).unwrap();
    assert_eq!(size.width(), 400);
    assert_eq!(size.height(), 225);
    assert_eq!(((400 as f64) / (16.0 / 9.0)) as u32, 225);
}

#[test]
fn the_height_is_rounded_towards_zero() {
    assert_eq!(ImageSize::with_aspect_ratio(401, 16, 9).unwrap().height(), 225);
    assert_eq!(ImageSize::with_aspect_ratio(402, 16, 9).unwrap().height(), 226);
    assert_eq!(ImageSize::with_aspect_ratio(10, 3, 1).unwrap().height(), 3);
    assert_eq!(ImageSize::with_aspect_ratio(7, 1, 1).unwrap().height(), 7);
    assert_eq!(ImageSize::with_aspect_ratio(2, 1, 2_000_000_000).unwrap().height(), 4_000_000_000);
}

#[test]
fn a_zero_term_of_the_aspect_ratio_is_rejected() {
    assert_eq!(
        ImageSize::with_aspect_ratio(400, 0, 9).err(),
        Some(ConfigError::AspectRatioNotPositive)
    );
    assert_eq!(
        ImageSize::with_aspect_ratio(400, 16, 0).err(),
        Some(ConfigError::AspectRatioNotPositive)
    );
    assert_eq!(
        ImageSize::with_aspect_ratio(1, 0, 0).err(),
        Some(ConfigError::AspectRatioNotPositive)
    );
}

#[test]
fn degenerate_dimensions_from_an_aspect_ratio_are_rejected() {
    assert_eq!(ImageSize::with_aspect_ratio(1, 16, 9).err(), Some(ConfigError::WidthTooSmall));
    assert_eq!(ImageSize::with_aspect_ratio(3, 16, 9).err(), Some(ConfigError::HeightTooSmall));
    assert_eq!(ImageSize::with_aspect_ratio(400, 201, 1).err(), Some(ConfigError::HeightTooSmall));
    assert_eq!(
        ImageSize::with_aspect_ratio(4, 1, 4_000_000_000).err(),
        Some(ConfigError::HeightTooLarge)
    );
}

#[test]
fn the_top_row_leaves_first() {
    let size = ImageSize::new(400, 225).unwrap();
    assert_eq!(size.pixel_at(0), Some((0, 224)));
    assert_eq!(size.pixel_at(1), Some((1, 224)));
    assert_eq!(size.pixel_at(399), Some((399, 224)));
    assert_eq!(size.pixel_at(400), Some((0, 223)));
    assert_eq!(size.pixel_at(89_999), Some((399, 0)));
    assert_eq!(size.pixel_at(90_000), None);
    assert_eq!(size.pixel_at(u64::MAX), None);
}

#[test]
fn position_of_numbers_the_places() {
    let size = ImageSize::new(400, 225).unwrap();
    assert_eq!(size.position_of(0, 224), Some(0));
    assert_eq!(size.position_of(399, 0), Some(89_999));
    assert_eq!(size.position_of(200, 112), Some(112 * 400 + 200));
    assert_eq!(size.position_of(400, 0), None);
    assert_eq!(size.position_of(0, 225), None);
}

#[test]
fn numbering_and_placing_are_inverse() {
    let size = ImageSize::new(7, 5).unwrap();
    let mut seen = vec![false; 35];
    for k in 0..35u64 {
        let (column, row) = size.pixel_at(k).unwrap();
        assert!(column < 7 && row < 5);
        assert_eq!(size.position_of(column, row), Some(k));
        assert!(!seen[(row * 7 + column) as usize]);
        seen[(row * 7 + column) as usize] = true;
    }
    assert!(seen.iter().all(|&s| s));
    for row in 0..5u32 {
        for column in 0..7u32 {
            let k = size.position_of(column, row).unwrap();
            assert_eq!(size.pixel_at(k), Some((column, row)));
        }
    }
}

#[test]
fn rows_leave_downwards_and_columns_rightwards() {
    let size = ImageSize::new(5, 4).unwrap();
    let mut previous = size.pixel_at(0).unwrap();
    for k in 1..20u64 {
        let (column, row) = size.pixel_at(k).unwrap();
        assert!(row < previous.1 || (row == previous.1 && column > previous.0));
        previous = (column, row);
    }
}

#[test]
fn the_largest_image_is_counted_without_overflow() {
    let size = ImageSize::new(u32::MAX, u32::MAX).unwrap();
    assert_eq!(size.count(), (u32::MAX as u64) * (u32::MAX as u64));
    assert_eq!(size.pixel_at(size.count() - 1), Some((u32::MAX - 1, 0)));
    assert_eq!(size.position_of(u32::MAX - 1, 0), Some(size.count() - 1));
}

#[test]
fn every_error_has_its_sentence() {
    assert_eq!(ConfigError::WidthTooSmall.describe(), "image width must be at least 2");
    assert_eq!(ConfigError::HeightTooSmall.describe(), "image height must be at least 2");
    assert_eq!(ConfigError::HeightTooLarge.describe(), "image height does not fit in 32 bits");
    assert_eq!(ConfigError::AspectRatioNotPositive.describe(), "aspect ratio must be positive");
    assert_eq!(ConfigError::RadiusNotPositive.describe(), "sphere radius must be positive");
    assert_eq!(ConfigError::NoSamples.describe(), "samples per pixel must be at least 1");
}
