//! What crops keep to, whatever the image and the point are.

use vstd::arithmetic::power2::*;
use vstd::prelude::*;

use crate::binary64::Binary64;

use super::image_crop::{CropErrorView, CropRegion, CropType};

verus! {

/// A crop is the same in both directions: with width and height exchanged, and the two coordinates,
/// its left and its top are exchanged, and its size stays.
pub proof fn crops_are_alike_in_both_directions(
    width: u32,
    height: u32,
    x: Binary64,
    y: Binary64,
    crop_type: CropType,
)
    ensures
        match (
            super::image_crop::region_of(width, height, x, y, crop_type),
            super::image_crop::region_of(height, width, y, x, crop_type),
        ) {
            (Ok(a), Ok(b)) => a.left == b.top && a.top == b.left && a.width == b.height && a.height
                == b.width && a.width == b.width,
            (Err(_), Err(_)) => true,
            _ => false,
        },
{
}

/// There is a crop just where both coordinates are numbers from zero to a thousand; otherwise the
/// first that is not is named.
pub proof fn crops_need_coordinates_in_range(
    width: u32,
    height: u32,
    x: Binary64,
    y: Binary64,
    crop_type: CropType,
)
    ensures
        ({
            let r = super::image_crop::region_of(width, height, x, y, crop_type);
            let fits_x = x.finite() && (!x.negative() || x.magnitude() == 0)
                && crate::binary64::units(x.magnitude()) <= 1000 * pow2(1074);
            let fits_y = y.finite() && (!y.negative() || y.magnitude() == 0)
                && crate::binary64::units(y.magnitude()) <= 1000 * pow2(1074);
            &&& r is Ok <==> fits_x && fits_y
            &&& !fits_x ==> r == Err::<CropRegion, CropErrorView>(
                CropErrorView::InvalidCoordinates { x, y: x },
            )
            &&& fits_x && !fits_y ==> r == Err::<CropRegion, CropErrorView>(
                CropErrorView::InvalidCoordinates { x: y, y },
            )
        }),
{
    let g = pow2(1074);
    assert(100 * g <= 1000 * g);
}

/// A crop is a square; its edge is a quarter of the shorter edge of the image for a profile and
/// three tenths for a gallery, to the nearest pixel and at least one.
pub proof fn crops_are_parts_of_the_shorter_edge(
    width: u32,
    height: u32,
    x: Binary64,
    y: Binary64,
    crop_type: CropType,
)
    ensures
        super::image_crop::region_of(width, height, x, y, crop_type) matches Ok(region) ==> {
            let shorter = if width < height {
                width as int
            } else {
                height as int
            };
            &&& region.width == region.height
            &&& region.width >= 1
            &&& crop_type == CropType::Profile && shorter >= 2 ==> shorter - 2 < 4 * region.width
                <= shorter + 2
            &&& crop_type == CropType::Gallery && shorter >= 2 ==> 3 * shorter - 5 < 10
                * region.width <= 3 * shorter + 5
            &&& shorter < 2 ==> region.width == 1
        },
{
}

/// The pixel of a percentage, to a bit more than half a pixel.
proof fn centers_are_close(extent: u32, pct: u64)
    requires
        pct <= 0x4059_0000_0000_0000,
    ensures
        ({
            let c = super::image_crop::center_of(extent, pct);
            let g = pow2(1074);
            let p = crate::binary64::units(pct);
            &&& 100 * (c * g) <= p * extent + 51 * g
            &&& 100 * (c * g) >= p * extent - 51 * g
            &&& c >= 0
        }),
{
    let g = pow2(1074);
    let p = crate::binary64::units(pct);
    let n = extent as nat;
    crate::binary64::whole_numbers();
    lemma_pow2_pos(1074);
    lemma2_to64();
    lemma2_to64_rest();
    if pct < 0x4059_0000_0000_0000 {
        crate::binary64::bits_are_in_order(pct, 0x4059_0000_0000_0000);
    }
    let part = crate::binary64::rounded(p, 100);
    crate::binary64::rounded_is_nearest(p, 100);
    crate::binary64::rounding_keeps_bounds(p, 100, part, 0x3ff0_0000_0000_0000);
    crate::binary64::roundings_are_close(p, 100, part, 0x3ff0_0000_0000_0000);
    let fine = pow2(1022);
    assert(crate::binary64::exponent_of(0x3ff0_0000_0000_0000) == 1022);
    if part < 0x3ff0_0000_0000_0000 {
        crate::binary64::bits_are_in_order(part, 0x3ff0_0000_0000_0000);
    }
    let u = crate::binary64::units(part);
    let m = u * n;
    let place = crate::binary64::rounded(m, 1);
    crate::binary64::rounded_is_nearest(m, 1);
    assert(m <= 0x1_0000_0000 * g) by (nonlinear_arith)
        requires
            m == u * n,
            0 <= u <= g,
            0 <= n <= 0xffff_ffff,
    ;
    crate::binary64::rounding_keeps_bounds(m, 1, place, 0x41f0_0000_0000_0000);
    crate::binary64::roundings_are_close(m, 1, place, 0x41f0_0000_0000_0000);
    let mid = pow2(1054);
    assert(crate::binary64::exponent_of(0x41f0_0000_0000_0000) == 1054);
    lemma_pow2_adds(1054, 20);
    lemma_pow2_adds(1022, 32);
    let w = crate::binary64::units(place);
    let c = super::image_crop::center_of(extent, pct);
    assert(c == (2 * w + g) / (2 * g));
    assert(c * (2 * g) <= 2 * w + g < (c + 1) * (2 * g)) by (nonlinear_arith)
        requires
            c == (2 * w + g) / (2 * g),
            g > 0,
    ;
    assert((c + 1) * (2 * g) == 2 * (c * g) + 2 * g) by (nonlinear_arith);
    assert(c * (2 * g) == 2 * (c * g)) by (nonlinear_arith);
    // The error of a hundredth grows with the extent.
    assert(100 * m - p * n <= 50 * (fine * n)) by (nonlinear_arith)
        requires
            m == u * n,
            2 * (100 * u) - 2 * p <= 100 * fine,
            n >= 0,
    ;
    assert(p * n - 100 * m <= 50 * (fine * n)) by (nonlinear_arith)
        requires
            m == u * n,
            2 * p - 2 * (100 * u) <= 100 * fine,
            n >= 0,
    ;
    assert(fine * n <= mid) by (nonlinear_arith)
        requires
            mid == fine * 0x1_0000_0000,
            0 <= n <= 0xffff_ffff,
            fine >= 0,
    ;
    assert(g == mid * 0x10_0000);
    assert(c >= 0) by (nonlinear_arith)
        requires
            c == (2 * w + g) / (2 * g),
            g > 0,
            w >= 0,
    ;
}

/// Where a crop lies along one direction. The pixel that the coordinate names lies half the edge
/// after the start of the crop, to a bit more than half a pixel, unless the border moved the crop; a
/// crop that the border moved starts or ends there.
proof fn starts_follow_the_coordinate(extent: u32, value: Binary64, edge: int)
    requires
        super::image_crop::normalized_pct(value) is Some,
        1 <= edge <= extent,
    ensures
        ({
            let pct = super::image_crop::normalized_pct(value)->0;
            let start = super::image_crop::start_of(
                extent,
                super::image_crop::center_of(extent, pct),
                edge,
            );
            let g = pow2(1074);
            let v = crate::binary64::units(value.magnitude());
            let c = start + edge / 2;
            &&& 0 <= start <= extent - edge
            &&& v <= 100 * g && start > 0 ==> 100 * (c * g) <= v * extent + 51 * g
            &&& v <= 100 * g && start < extent - edge ==> 100 * (c * g) >= v * extent - 51 * g
            &&& v > 100 * g && start > 0 ==> 1000 * (c * g) <= v * extent + 520 * g
            &&& v > 100 * g && start < extent - edge ==> 1000 * (c * g) >= v * extent - 520 * g
        }),
{
    let g = pow2(1074);
    lemma_pow2_pos(1074);
    crate::binary64::whole_numbers();
    let pct = super::image_crop::normalized_pct(value)->0;
    let m = value.magnitude();
    let v = crate::binary64::units(m);
    let n = extent as nat;
    if crate::binary64::up_to(value, 100) {
        if m > 0x4059_0000_0000_0000 {
            crate::binary64::bits_are_in_order(0x4059_0000_0000_0000, m);
        }
    } else {
        crate::binary64::rounded_is_nearest(v, 10);
        assert(10 * (100 * g) == 1000 * g);
        crate::binary64::rounding_keeps_bounds(v, 10, pct, 0x4059_0000_0000_0000);
        crate::binary64::roundings_are_close(v, 10, pct, 0x4059_0000_0000_0000);
        assert(crate::binary64::exponent_of(0x4059_0000_0000_0000) == 1028);
        let fine = pow2(1028);
        let mid = pow2(1060);
        lemma2_to64();
        lemma2_to64_rest();
        lemma_pow2_adds(1028, 32);
        lemma_pow2_adds(1060, 14);
        let p = crate::binary64::units(pct);
        assert(10 * (p * n) - v * n <= 5 * (fine * n)) by (nonlinear_arith)
            requires
                2 * (10 * p) - 2 * v <= 10 * fine,
                n >= 0,
        ;
        assert(v * n - 10 * (p * n) <= 5 * (fine * n)) by (nonlinear_arith)
            requires
                2 * v - 2 * (10 * p) <= 10 * fine,
                n >= 0,
        ;
        assert(fine * n <= mid) by (nonlinear_arith)
            requires
                mid == fine * 0x1_0000_0000,
                0 <= n <= 0xffff_ffff,
                fine >= 0,
        ;
        assert(g == mid * 0x4000);
    }
    centers_are_close(extent, pct);
    let center = super::image_crop::center_of(extent, pct);
    let start = super::image_crop::start_of(extent, center, edge);
    let c = start + edge / 2;
    assert(start > 0 ==> c <= center);
    assert(start < extent - edge ==> c >= center);
    assert(c <= center ==> c * g <= center * g) by (nonlinear_arith)
        requires
            g > 0,
    ;
    assert(c >= center ==> c * g >= center * g) by (nonlinear_arith)
        requires
            g > 0,
    ;
}

/// The pixel that the horizontal coordinate names on the width lies half the edge right of the left
/// border of the crop, and the pixel that the vertical coordinate names on the height lies half the
/// edge below its upper border, each to a bit more than half a pixel, unless the border of the image
/// moved the crop. Up to a hundred a coordinate counts hundredths, and above it thousandths.
pub proof fn crops_are_centered_on_their_point(
    width: u32,
    height: u32,
    x: Binary64,
    y: Binary64,
    crop_type: CropType,
)
    requires
        width > 0,
        height > 0,
    ensures
        super::image_crop::region_of(width, height, x, y, crop_type) matches Ok(region) ==> {
            let g = pow2(1074);
            let across = crate::binary64::units(x.magnitude());
            let down = crate::binary64::units(y.magnitude());
            let right = region.left + region.width / 2;
            let below = region.top + region.height / 2;
            &&& region.left + region.width <= width
            &&& region.top + region.height <= height
            &&& across <= 100 * g && region.left > 0 ==> 100 * (right * g) <= across * width + 51
                * g
            &&& across <= 100 * g && region.left + region.width < width ==> 100 * (right * g)
                >= across * width - 51 * g
            &&& across > 100 * g && region.left > 0 ==> 1000 * (right * g) <= across * width + 520
                * g
            &&& across > 100 * g && region.left + region.width < width ==> 1000 * (right * g)
                >= across * width - 520 * g
            &&& down <= 100 * g && region.top > 0 ==> 100 * (below * g) <= down * height + 51 * g
            &&& down <= 100 * g && region.top + region.height < height ==> 100 * (below * g)
                >= down * height - 51 * g
            &&& down > 100 * g && region.top > 0 ==> 1000 * (below * g) <= down * height + 520 * g
            &&& down > 100 * g && region.top + region.height < height ==> 1000 * (below * g)
                >= down * height - 520 * g
        },
{
    if super::image_crop::region_of(width, height, x, y, crop_type) is Ok {
        let edge = super::image_crop::crop_edge(width, height, crop_type);
        starts_follow_the_coordinate(width, x, edge);
        starts_follow_the_coordinate(height, y, edge);
    }
}

/// What is cut out of a thumbnail is the region of its point, for the size that the thumbnail has.
pub proof fn thumbnails_are_cut_at_their_region(
    bytes: Seq<u8>,
    width: u32,
    height: u32,
    x: Binary64,
    y: Binary64,
    crop_type: CropType,
)
    ensures
        match super::image_crop::region_of(width, height, x, y, crop_type) {
            Ok(region) => super::image_crop::crop_outcome(
                bytes,
                Some((width, height)),
                x,
                y,
                crop_type,
            ) == (match super::image_crop::cropped_png(bytes, region) {
                Some(png) => Ok::<Seq<u8>, CropErrorView>(png),
                None => Err(CropErrorView::Decode),
            }),
            Err(e) => super::image_crop::crop_outcome(
                bytes,
                Some((width, height)),
                x,
                y,
                crop_type,
            ) == Err::<Seq<u8>, CropErrorView>(e),
        },
        super::image_crop::crop_outcome(bytes, None, x, y, crop_type) == Err::<
            Seq<u8>,
            CropErrorView,
        >(CropErrorView::Decode),
{
}

} // verus!
