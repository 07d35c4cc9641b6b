//! Square crops of thumbnails around a point.
//!
//! Points are given in percent of the width and the height. Coordinates on a scale of a thousand,
//! which older records use, are told by their size.

use vstd::arithmetic::power2::*;
use vstd::prelude::*;

use crate::binary64::{is_up_to, over_whole, round_whole, times_whole, Binary64};

verus! {

/// A rectangle of an image.
#[derive(Debug, Clone, Copy, PartialEq, Eq, Structural)]
pub struct CropRegion {
    pub left: u32,
    pub top: u32,
    pub width: u32,
    pub height: u32,
}

/// What a crop is for.
#[derive(Debug, Clone, Copy, PartialEq, Eq, Structural)]
pub enum CropType {
    Profile,
    Gallery,
}

/// Why an image was not cropped.
#[derive(Debug, PartialEq, Eq)]
pub enum CropError {
    InvalidCoordinates { x: Binary64, y: Binary64 },
    /// The image could not be read; holds the decoder's message.
    Decode(String),
    /// The crop could not be written; holds the encoder's message.
    Encode(String),
}

/// What a crop error says; the messages of decoder and encoder are left out.
pub enum CropErrorView {
    InvalidCoordinates { x: Binary64, y: Binary64 },
    Decode,
    Encode,
}

impl View for CropError {
    type V = CropErrorView;

    open spec fn view(&self) -> CropErrorView {
        match *self {
            CropError::InvalidCoordinates { x, y } => CropErrorView::InvalidCoordinates { x, y },
            CropError::Decode(_) => CropErrorView::Decode,
            CropError::Encode(_) => CropErrorView::Encode,
        }
    }
}

/// The percentage that a coordinate names: up to a hundred it is one, and above, up to a thousand, it
/// is divided by ten.
pub open spec fn normalized_pct(value: Binary64) -> Option<u64> {
    if crate::binary64::up_to(value, 100) {
        Some(value.magnitude())
    } else if crate::binary64::up_to(value, 1000) {
        Some(crate::binary64::rounded(crate::binary64::units(value.magnitude()), 10))
    } else {
        None
    }
}

/// The percentage that a coordinate names.
pub(crate) fn percentage_of(value: &Binary64) -> (r: Option<u64>)
    ensures
        r == normalized_pct(*value),
        r matches Some(n) ==> n <= 0x4059_0000_0000_0000,
{
    proof {
        crate::binary64::whole_numbers();
    }
    if is_up_to(value, 0x4059_0000_0000_0000, Ghost(100)) {
        let m: u64 = value.absolute();
        proof {
            if m > 0x4059_0000_0000_0000 {
                crate::binary64::bits_are_in_order(0x4059_0000_0000_0000, m);
            }
        }
        Some(m)
    } else if is_up_to(value, 0x408f_4000_0000_0000, Ghost(1000)) {
        let m: u64 = value.absolute();
        let r = over_whole(m, 10);
        proof {
            assert(10 * (100 * pow2(1074)) == 1000 * pow2(1074)) by (nonlinear_arith);
            crate::binary64::rounding_keeps_bounds(
                crate::binary64::units(m),
                10,
                r,
                0x4059_0000_0000_0000,
            );
        }
        Some(r)
    } else {
        None
    }
}

fn normalize_coordinate_pct(value: Binary64) -> (r: Result<u64, CropError>)
    ensures
        match r {
            Ok(n) => normalized_pct(value) == Some(n) && n <= 0x4059_0000_0000_0000,
            Err(e) => normalized_pct(value) is None && e@ == (CropErrorView::InvalidCoordinates {
                x: value,
                y: value,
            }),
        },
{
    match percentage_of(&value) {
        Some(n) => Ok(n),
        None => Err(CropError::InvalidCoordinates { x: value, y: value }),
    }
}

/// The edge of a crop: a quarter of the shorter edge for a profile, three tenths of it for a
/// gallery, rounded, and at least one pixel.
pub open spec fn crop_edge(width: u32, height: u32, crop_type: CropType) -> int {
    let shorter = if width < height {
        width as int
    } else {
        height as int
    };
    let edge = match crop_type {
        CropType::Profile => (shorter + 2) / 4,
        CropType::Gallery => (3 * shorter + 5) / 10,
    };
    if edge < 1 {
        1
    } else {
        edge
    }
}

/// The pixel that a percentage names: a hundredth of it times the extent, each rounded, and then
/// rounded to a whole number.
pub open spec fn center_of(extent: u32, pct: u64) -> int {
    let part = crate::binary64::rounded(crate::binary64::units(pct), 100);
    let place = crate::binary64::rounded(crate::binary64::units(part) * extent as nat, 1);
    crate::binary64::nearest_whole(place) as int
}

/// Where a crop starts: half its edge before its center, but inside the image.
pub open spec fn start_of(extent: u32, center: int, edge: int) -> int {
    let start = center - edge / 2;
    let last = if extent < edge {
        0
    } else {
        extent - edge
    };
    if start < 0 {
        0
    } else if start > last {
        last
    } else {
        start
    }
}

/// The region of a crop, or why there is none.
pub open spec fn region_of(
    width: u32,
    height: u32,
    center_x_pct: Binary64,
    center_y_pct: Binary64,
    crop_type: CropType,
) -> Result<CropRegion, CropErrorView> {
    match (normalized_pct(center_x_pct), normalized_pct(center_y_pct)) {
        (None, _) => Err(
            CropErrorView::InvalidCoordinates { x: center_x_pct, y: center_x_pct },
        ),
        (_, None) => Err(
            CropErrorView::InvalidCoordinates { x: center_y_pct, y: center_y_pct },
        ),
        (Some(x), Some(y)) => {
            let edge = crop_edge(width, height, crop_type);
            Ok(
                CropRegion {
                    left: start_of(width, center_of(width, x), edge) as u32,
                    top: start_of(height, center_of(height, y), edge) as u32,
                    width: edge as u32,
                    height: edge as u32,
                },
            )
        },
    }
}

fn start_in(extent: u32, pct: u64, edge: u32) -> (r: u32)
    requires
        pct <= 0x4059_0000_0000_0000,
    ensures
        r == start_of(extent, center_of(extent, pct), edge as int),
{
    let part = over_whole(pct, 100);
    proof {
        crate::binary64::whole_numbers();
        if pct < 0x4059_0000_0000_0000 {
            crate::binary64::bits_are_in_order(pct, 0x4059_0000_0000_0000);
        }
        crate::binary64::rounding_keeps_bounds(
            crate::binary64::units(pct),
            100,
            part,
            0x3ff0_0000_0000_0000,
        );
        if part < 0x3ff0_0000_0000_0000 {
            crate::binary64::bits_are_in_order(part, 0x3ff0_0000_0000_0000);
        }
    }
    let place = times_whole(part, extent as u64);
    proof {
        let u = crate::binary64::units(part);
        assert(u * extent <= 0x1_0000_0000 * pow2(1074)) by (nonlinear_arith)
            requires
                0 <= u <= pow2(1074),
                0 <= extent <= 0xffff_ffff,
        ;
        crate::binary64::rounding_keeps_bounds(
            u * extent as nat,
            1,
            place,
            0x41f0_0000_0000_0000,
        );
        assert(crate::binary64::exponent_of(place) <= 1074);
    }
    let center: i64 = round_whole(place) as i64;
    let start: i64 = center - (edge / 2) as i64;
    let last: i64 = if extent < edge {
        0
    } else {
        (extent - edge) as i64
    };
    if start < 0 {
        0
    } else if start > last {
        last as u32
    } else {
        start as u32
    }
}

/// The square region around a point, moved inside the image where it would reach beyond.
pub fn crop_region(
    width: u32,
    height: u32,
    center_x_pct: Binary64,
    center_y_pct: Binary64,
    crop_type: CropType,
) -> (r: Result<CropRegion, CropError>)
    ensures
        match r {
            Ok(region) => region_of(width, height, center_x_pct, center_y_pct, crop_type) == Ok::<
                CropRegion,
                CropErrorView,
            >(region),
            Err(e) => region_of(width, height, center_x_pct, center_y_pct, crop_type) == Err::<
                CropRegion,
                CropErrorView,
            >(e@),
        },
{
    let x = match normalize_coordinate_pct(center_x_pct) {
        Ok(n) => n,
        Err(e) => return Err(e),
    };
    let y = match normalize_coordinate_pct(center_y_pct) {
        Ok(n) => n,
        Err(e) => return Err(e),
    };
    let shorter: u64 = if width < height {
        width as u64
    } else {
        height as u64
    };
    let rounded: u64 = match crop_type {
        CropType::Profile => (shorter + 2) / 4,
        CropType::Gallery => (3 * shorter + 5) / 10,
    };
    let edge: u32 = if rounded < 1 {
        1
    } else {
        rounded as u32
    };
    Ok(
        CropRegion {
            left: start_in(width, x, edge),
            top: start_in(height, y, edge),
            width: edge,
            height: edge,
        },
    )
}

/// A crop of an image that is not empty lies inside the image, whatever its center.
pub proof fn crops_lie_inside(
    width: u32,
    height: u32,
    center_x_pct: Binary64,
    center_y_pct: Binary64,
    crop_type: CropType,
)
    requires
        width > 0,
        height > 0,
    ensures
        region_of(width, height, center_x_pct, center_y_pct, crop_type) matches Ok(region) ==> {
            &&& region.width == region.height
            &&& region.width >= 1
            &&& region.left + region.width <= width
            &&& region.top + region.height <= height
        },
{
}

/// A profile crop is never larger than a gallery crop of the same image.
pub proof fn profile_crops_are_smaller(width: u32, height: u32)
    ensures
        crop_edge(width, height, CropType::Profile) <= crop_edge(width, height, CropType::Gallery),
{
}

/// The width and height of the image that a byte string encodes, where `image` can read it.
pub uninterp spec fn image_size(bytes: Seq<u8>) -> Option<(u32, u32)>;

/// The PNG encoding of a rectangle of the image that a byte string encodes, where it can be
/// written.
pub uninterp spec fn cropped_png(bytes: Seq<u8>, region: CropRegion) -> Option<Seq<u8>>;

/// Reads the size of an image with `image::load_from_memory`. The contract claims that the outcome
/// depends on the bytes alone.
#[verifier::external_body]
fn read_image_size(bytes: &[u8]) -> (r: Result<(u32, u32), String>)
    ensures
        match r {
            Ok(size) => image_size(bytes@) == Some(size),
            Err(_) => image_size(bytes@) is None,
        },
{
    match image::load_from_memory(bytes) {
        Ok(picture) => Ok((picture.width(), picture.height())),
        Err(e) => Err(e.to_string()),
    }
}

/// Whether a rectangle is not empty and lies inside an image of a given size.
pub open spec fn lies_inside(region: CropRegion, size: (u32, u32)) -> bool {
    &&& region.width >= 1 && region.height >= 1
    &&& region.left + region.width <= size.0
    &&& region.top + region.height <= size.1
}

/// Cuts a rectangle out of an image with `image::imageops::crop_imm` and writes it as PNG with
/// `DynamicImage::write_to`. The contract claims that the outcome depends on the bytes and the
/// rectangle alone, and that what is written of a rectangle inside the image is an image of its
/// size; it claims so for rectangles of at most 2048 by 2048 pixels, far below the size at which
/// `image` refuses to read an image.
#[verifier::external_body]
fn crop_to_png(bytes: &[u8], region: &CropRegion) -> (r: Result<Vec<u8>, String>)
    requires
        image_size(bytes@) is Some,
    ensures
        match r {
            Ok(png) => cropped_png(bytes@, *region) == Some(png@) && (lies_inside(
                *region,
                image_size(bytes@)->0,
            ) && region.width <= 2048 && region.height <= 2048 ==> image_size(png@) == Some(
                (region.width, region.height),
            )),
            Err(_) => cropped_png(bytes@, *region) is None,
        },
{
    let picture = image::load_from_memory(bytes).map_err(|e| e.to_string())?.to_rgba8();
    let r = *region;
    let part = image::imageops::crop_imm(&picture, r.left, r.top, r.width, r.height).to_image();
    let mut out: std::io::Cursor<Vec<u8>> = std::io::Cursor::new(Vec::new());
    match image::DynamicImage::ImageRgba8(part).write_to(&mut out, image::ImageFormat::Png) {
        Ok(()) => Ok(out.into_inner()),
        Err(e) => Err(e.to_string()),
    }
}

/// What cropping a thumbnail gives, for the size that it has and the image that comes of each
/// region.
pub open spec fn crop_outcome(
    bytes: Seq<u8>,
    size: Option<(u32, u32)>,
    center_x_pct: Binary64,
    center_y_pct: Binary64,
    crop_type: CropType,
) -> Result<Seq<u8>, CropErrorView> {
    match size {
        None => Err(CropErrorView::Decode),
        Some((width, height)) => match region_of(
            width,
            height,
            center_x_pct,
            center_y_pct,
            crop_type,
        ) {
            Err(e) => Err(e),
            Ok(region) => match cropped_png(bytes, region) {
                Some(png) => Ok(png),
                None => Err(CropErrorView::Decode),
            },
        },
    }
}

/// Cuts the square around a point out of a thumbnail.
pub fn crop_from_thumbnail(
    thumbnail_png: &[u8],
    center_x_pct: Binary64,
    center_y_pct: Binary64,
    crop_type: CropType,
) -> (r: Result<Vec<u8>, CropError>)
    ensures
        (match r {
            Ok(png) => Ok(png@),
            Err(e) => Err(e@),
        }) == crop_outcome(
            thumbnail_png@,
            image_size(thumbnail_png@),
            center_x_pct,
            center_y_pct,
            crop_type,
        ),
        match (r, image_size(thumbnail_png@)) {
            (Ok(png), Some((width, height))) => {
                let edge = crop_edge(width, height, crop_type);
                width > 0 && height > 0 && edge <= 2048 ==> image_size(png@) == Some(
                    (edge as u32, edge as u32),
                )
            },
            _ => true,
        },
{
    let (width, height) = match read_image_size(thumbnail_png) {
        Ok(size) => size,
        Err(message) => return Err(CropError::Decode(message)),
    };
    let region = match crop_region(width, height, center_x_pct, center_y_pct, crop_type) {
        Ok(region) => region,
        Err(e) => return Err(e),
    };
    proof {
        if width > 0 && height > 0 {
            crops_lie_inside(width, height, center_x_pct, center_y_pct, crop_type);
        }
    }
    match crop_to_png(thumbnail_png, &region) {
        Ok(png) => Ok(png),
        Err(message) => Err(CropError::Decode(message)),
    }
}

} // verus!
