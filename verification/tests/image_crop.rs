use std::io::Cursor;

use lethe::binary64::Binary64;
use lethe::adapter::writeback::image_crop::{
    crop_from_thumbnail, crop_region, CropError, CropRegion, CropType,
};

fn pct(value: f64) -> Binary64 {
    Binary64 { bits: value.to_bits() }
}

fn sample_png(width: u32, height: u32) -> Vec<u8> {
    let image = image::RgbaImage::from_fn(width, height, |x, y| {
        image::Rgba([(x % 255) as u8, (y % 255) as u8, 120, 255])
    });
    let mut bytes = Vec::new();
    image::DynamicImage::ImageRgba8(image)
        .write_to(&mut Cursor::new(&mut bytes), image::ImageFormat::Png)
        .unwrap();
    bytes
}

#[test]
fn crop_center_returns_square() {
    let region = crop_region(1920, 1080, pct(50.0), pct(50.0), CropType::Gallery).unwrap();
    assert_eq!(region.width, region.height);
    assert!(region.width > 0);
}

#[test]
fn crop_edge_clamps_to_bounds() {
    let bytes = sample_png(400, 300);
    let cropped = crop_from_thumbnail(&bytes, pct(0.0), pct(0.0), CropType::Profile).unwrap();
    let decoded = image::load_from_memory(&cropped).unwrap();
    assert!(decoded.width() > 0);
    assert!(decoded.height() > 0);
}

#[test]
fn profile_crop_smaller_than_gallery() {
    let profile = crop_region(1000, 800, pct(50.0), pct(50.0), CropType::Profile).unwrap();
    let gallery = crop_region(1000, 800, pct(50.0), pct(50.0), CropType::Gallery).unwrap();
    assert!(profile.width < gallery.width);
}

#[test]
fn legacy_thousand_scale_coordinates_are_supported() {
    let region = crop_region(1000, 800, pct(750.0), pct(250.0), CropType::Profile).unwrap();
    assert!(region.width > 0);
    assert!(region.height > 0);
}

#[test]
fn thousands_mean_what_percents_mean() {
    let thousands = crop_region(1000, 800, pct(750.0), pct(250.0), CropType::Profile);
    let percents = crop_region(1000, 800, pct(75.0), pct(25.0), CropType::Profile);
    assert_eq!(thousands, percents);
}

#[test]
fn crops_lie_inside_the_image() {
    for x in [pct(0.0), pct(50.0), pct(100.0)] {
        for y in [pct(0.0), pct(50.0), pct(100.0)] {
            let r = crop_region(400, 300, x, y, CropType::Gallery).unwrap();
            assert!(r.left + r.width <= 400);
            assert!(r.top + r.height <= 300);
        }
    }
}

#[test]
fn coordinates_beyond_a_thousand_are_refused() {
    assert!(matches!(
        crop_region(400, 300, pct(1000.0000001), pct(0.0), CropType::Gallery),
        Err(CropError::InvalidCoordinates { .. })
    ));
    assert!(matches!(
        crop_region(400, 300, pct(0.0), pct(-0.1), CropType::Gallery),
        Err(CropError::InvalidCoordinates { .. })
    ));
}

#[test]
fn bytes_that_are_no_image_are_refused() {
    assert!(matches!(
        crop_from_thumbnail(b"no image", pct(0.0), pct(0.0), CropType::Gallery),
        Err(CropError::Decode(_))
    ));
}

#[test]
fn crops_hold_the_pixels_of_their_region() {
    let bytes = sample_png(400, 300);
    let region = crop_region(400, 300, pct(100.0), pct(100.0), CropType::Profile).unwrap();
    let cropped = crop_from_thumbnail(&bytes, pct(100.0), pct(100.0), CropType::Profile);
    let decoded = image::load_from_memory(&cropped.unwrap()).unwrap().to_rgba8();
    assert_eq!(decoded.width(), region.width);
    assert_eq!(decoded.height(), region.height);
    let corner = decoded.get_pixel(0, 0);
    assert_eq!(corner.0[0], (region.left % 255) as u8);
    assert_eq!(corner.0[1], (region.top % 255) as u8);
    assert_eq!(
        region,
        CropRegion {
            left: 400 - region.width,
            top: 300 - region.height,
            width: region.width,
            height: region.height
        }
    );
}

#[test]
fn centers_are_rounded_as_numbers_are() {
    // A hundredth of 14.5 times a hundred lies just below 14.5.
    let region = crop_region(100, 100, pct(14.5), pct(14.5), CropType::Profile).unwrap();
    assert_eq!((region.width, region.left, region.top), (25, 14 - 12, 14 - 12));
    for width in [1u32, 7, 99, 100, 101, 640, 1920, 4_294_967_295] {
        let mut value = 0.0f64;
        while value <= 1000.0 {
            let percent = if value <= 100.0 { value } else { value / 10.0 };
            let center = ((percent / 100.0) * width as f64).round() as i64;
            let region = crop_region(width, width, pct(value), pct(-0.0), CropType::Gallery).unwrap();
            let edge = region.width as i64;
            let left = (center - edge / 2).clamp(0, width as i64 - edge);
            assert_eq!(region.left as i64, left, "{value} of {width}");
            assert_eq!(region.top, 0);
            value += 0.37;
        }
    }
}

#[test]
fn what_is_no_number_is_refused() {
    for value in [f64::NAN, f64::INFINITY, f64::NEG_INFINITY] {
        assert_eq!(
            crop_region(400, 300, pct(50.0), pct(value), CropType::Gallery),
            Err(CropError::InvalidCoordinates { x: pct(value), y: pct(value) })
        );
    }
}

#[test]
fn edges_are_rounded_as_numbers_are() {
    for width in (1u32..6_000).chain([65_535, 1_000_005, 4_294_967_285, 4_294_967_295]) {
        for (kind, ratio) in [(CropType::Profile, 0.25f64), (CropType::Gallery, 0.30)] {
            let edge = (width as f64 * ratio).round().max(1.0) as u32;
            let region = crop_region(width, 4_294_967_295, pct(0.0), pct(0.0), kind).unwrap();
            assert_eq!((region.width, region.height), (edge, edge), "{width}");
        }
    }
}
