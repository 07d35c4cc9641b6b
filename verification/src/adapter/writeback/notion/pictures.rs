//! Which pictures a page shows, and where their contents lie.
//!
//! Places on a slide are given in percent of its width and height.

use vstd::arithmetic::power2::*;
use vstd::prelude::*;
use vstd::string::*;

use crate::adapter::error::{AdapterError, AdapterErrorView};
use crate::adapter::writeback::image_crop::percentage_of;
use crate::binary64::{distance, product, sum, Binary64, INFINITY};
use crate::digest::sha256_hex;
use crate::profile::{GalleryImage, StudentProfile};
use crate::text::{chars_of, decimal_text, starts_with, str_eq, strip_prefix};

use super::blocks::as_slice;
use super::client::NotionConfig;

verus! {

/// A picture on the source slide, with the middle of the place where it lies.
#[derive(Debug)]
pub struct SourceImageCandidate {
    pub object_id: String,
    pub source_url: String,
    pub blob_ref: String,
    pub center_x_pct: Binary64,
    pub center_y_pct: Binary64,
}

/// Whether the middle of a picture lies at finite coordinates.
pub open spec fn measurable(candidate: SourceImageCandidate) -> bool {
    candidate.center_x_pct.finite() && candidate.center_y_pct.finite()
}

/// How far a coordinate lies from a percentage.
pub open spec fn coordinate_gap(coordinate: Binary64, pct: u64) -> u64 {
    if coordinate.negative() {
        crate::binary64::rounded(
            crate::binary64::units(coordinate.magnitude()) + crate::binary64::units(pct),
            1,
        )
    } else {
        crate::binary64::rounded(crate::binary64::apart(coordinate.magnitude(), pct), 1)
    }
}

/// The square of a number.
pub open spec fn squared(a: u64) -> u64 {
    if a == INFINITY {
        INFINITY
    } else {
        crate::binary64::rounded(
            crate::binary64::units(a) * crate::binary64::units(a),
            pow2(1074),
        )
    }
}

/// The square of the distance between the middle of a picture and a point.
pub open spec fn squared_distance(candidate: SourceImageCandidate, x: u64, y: u64) -> u64 {
    crate::binary64::rounded(
        crate::binary64::units(squared(coordinate_gap(candidate.center_x_pct, x)))
            + crate::binary64::units(squared(coordinate_gap(candidate.center_y_pct, y))),
        1,
    )
}

/// Whether the picture at a position is the first of those nearest to a point.
pub open spec fn is_nearest(
    candidates: Seq<SourceImageCandidate>,
    at: int,
    x: u64,
    y: u64,
) -> bool {
    &&& 0 <= at < candidates.len()
    &&& forall|i: int|
        0 <= i < candidates.len() ==> squared_distance(candidates[at], x, y) <= squared_distance(
            #[trigger] candidates[i],
            x,
            y,
        )
    &&& forall|i: int|
        0 <= i < at ==> squared_distance(candidates[at], x, y) < squared_distance(
            #[trigger] candidates[i],
            x,
            y,
        )
}

fn normalize_image_selection_coordinate(value: Binary64) -> (r: Option<u64>)
    ensures
        r == crate::adapter::writeback::image_crop::normalized_pct(value),
        r matches Some(n) ==> n < INFINITY,
{
    percentage_of(&value)
}

fn gap_of(coordinate: &Binary64, pct: u64) -> (r: u64)
    requires
        coordinate.finite(),
        pct < INFINITY,
    ensures
        r == coordinate_gap(*coordinate, pct),
        r <= INFINITY,
{
    if coordinate.is_negative() {
        sum(coordinate.absolute(), pct)
    } else {
        distance(coordinate.absolute(), pct)
    }
}

fn square(a: u64) -> (r: u64)
    requires
        a <= INFINITY,
    ensures
        r == squared(a),
        r <= INFINITY,
{
    if a == INFINITY {
        INFINITY
    } else {
        product(a, a)
    }
}

fn distance_to(candidate: &SourceImageCandidate, x: u64, y: u64) -> (r: u64)
    requires
        measurable(*candidate),
        x < INFINITY,
        y < INFINITY,
    ensures
        r == squared_distance(*candidate, x, y),
{
    let dx = gap_of(&candidate.center_x_pct, x);
    let dy = gap_of(&candidate.center_y_pct, y);
    sum(square(dx), square(dy))
}

/// The position of the picture nearest to a point on the slide, the first of several; none where
/// the point lies nowhere or there is no picture.
pub fn match_source_image_candidate(
    candidates: &[SourceImageCandidate],
    x: Binary64,
    y: Binary64,
) -> (r: Option<usize>)
    requires
        forall|i: int| 0 <= i < candidates@.len() ==> measurable(#[trigger] candidates@[i]),
    ensures
        match (
            crate::adapter::writeback::image_crop::normalized_pct(x),
            crate::adapter::writeback::image_crop::normalized_pct(y),
        ) {
            (Some(target_x), Some(target_y)) => match r {
                Some(at) => is_nearest(candidates@, at as int, target_x, target_y),
                None => candidates@.len() == 0,
            },
            _ => r is None,
        },
{
    let target_x = match normalize_image_selection_coordinate(x) {
        Some(n) => n,
        None => return None,
    };
    let target_y = match normalize_image_selection_coordinate(y) {
        Some(n) => n,
        None => return None,
    };
    if candidates.len() == 0 {
        return None;
    }
    let mut best: usize = 0;
    let mut least: u64 = distance_to(&candidates[0], target_x, target_y);
    let mut i: usize = 1;
    while i < candidates.len()
        invariant
            1 <= i <= candidates@.len(),
            best < i,
            target_x < INFINITY,
            target_y < INFINITY,
            forall|j: int| 0 <= j < candidates@.len() ==> measurable(#[trigger] candidates@[j]),
            least == squared_distance(candidates@[best as int], target_x, target_y),
            forall|j: int|
                0 <= j < i ==> least <= squared_distance(
                    #[trigger] candidates@[j],
                    target_x,
                    target_y,
                ),
            forall|j: int|
                0 <= j < best ==> least < squared_distance(
                    #[trigger] candidates@[j],
                    target_x,
                    target_y,
                ),
        decreases candidates@.len() - i,
    {
        let d = distance_to(&candidates[i], target_x, target_y);
        if d < least {
            least = d;
            best = i;
        }
        i = i + 1;
    }
    Some(best)
}

/// The position of the first picture with an address.
pub open spec fn first_with_url(
    candidates: Seq<SourceImageCandidate>,
    url: Seq<char>,
) -> Option<int>
    decreases candidates.len(),
{
    if candidates.len() == 0 {
        None
    } else {
        match first_with_url(candidates.drop_last(), url) {
            Some(i) => Some(i),
            None => if candidates.last().source_url@ == url {
                Some(candidates.len() - 1)
            } else {
                None
            },
        }
    }
}

fn find_by_url(candidates: &[SourceImageCandidate], url: &str) -> (r: Option<usize>)
    ensures
        (match r {
            Some(i) => Some(i as int),
            None => None,
        }) == first_with_url(candidates@, url@),
        r matches Some(i) ==> i < candidates@.len(),
{
    let mut found: Option<usize> = None;
    let mut i: usize = 0;
    while i < candidates.len()
        invariant
            i <= candidates@.len(),
            (match found {
                Some(k) => Some(k as int),
                None => None,
            }) == first_with_url(candidates@.take(i as int), url@),
            found matches Some(k) ==> k < i,
        decreases candidates@.len() - i,
    {
        assert(candidates@.take(i + 1).drop_last() =~= candidates@.take(i as int));
        if found.is_none() && str_eq(candidates[i].source_url.as_str(), url) {
            found = Some(i);
        }
        i = i + 1;
    }
    assert(candidates@.take(i as int) =~= candidates@);
    found
}

/// Whether a position is that of the picture that is meant: the nearest one where coordinates lead
/// to one, else the one with the address.
pub open spec fn is_meant(
    candidates: Seq<SourceImageCandidate>,
    place: Option<(Binary64, Binary64)>,
    url: Option<Seq<char>>,
    r: Option<usize>,
) -> bool {
    let target = match place {
        Some((x, y)) => match (
            crate::adapter::writeback::image_crop::normalized_pct(x),
            crate::adapter::writeback::image_crop::normalized_pct(y),
        ) {
            (Some(tx), Some(ty)) => Some((tx, ty)),
            _ => None,
        },
        None => None,
    };
    match target {
        Some((tx, ty)) if candidates.len() > 0 => r matches Some(at) && is_nearest(
            candidates,
            at as int,
            tx,
            ty,
        ),
        _ => (match r {
            Some(at) => Some(at as int),
            None => None,
        }) == (match url {
            Some(u) => first_with_url(candidates, u),
            None => None,
        }),
    }
}

/// The position of the picture that is meant, where one is.
pub fn source_picture(
    candidates: &[SourceImageCandidate],
    place: Option<(Binary64, Binary64)>,
    url: Option<&str>,
) -> (r: Option<usize>)
    requires
        forall|i: int| 0 <= i < candidates@.len() ==> measurable(#[trigger] candidates@[i]),
    ensures
        is_meant(candidates@, place, crate::json::opt_str(url), r),
        r matches Some(i) ==> i < candidates@.len(),
{
    match place {
        Some((x, y)) => match match_source_image_candidate(candidates, x, y) {
            Some(at) => return Some(at),
            None => {},
        },
        None => {},
    }
    match url {
        Some(u) => find_by_url(candidates, u),
        None => None,
    }
}

/// Whether a list gives, for each of the first nine images of a profile that means a picture, the
/// position of the image and that of the picture, in order.
pub open spec fn is_gallery_of(
    images: Seq<GalleryImage>,
    places: Seq<Option<(Binary64, Binary64)>>,
    candidates: Seq<SourceImageCandidate>,
    list: Seq<(usize, usize)>,
) -> bool
    decreases images.len(),
{
    if images.len() == 0 {
        list.len() == 0
    } else {
        let k = images.len() - 1;
        let url = crate::text::opt_string(images[k].url);
        if list.len() > 0 && list.last().0 == k {
            &&& is_meant(candidates, places[k], url, Some(list.last().1))
            &&& is_gallery_of(images.drop_last(), places, candidates, list.drop_last())
        } else {
            &&& is_meant(candidates, places[k], url, None)
            &&& is_gallery_of(images.drop_last(), places, candidates, list)
        }
    }
}

/// The images of a gallery.
pub open spec fn gallery_images(profile: StudentProfile) -> Seq<GalleryImage> {
    if profile.gallery_images@.len() <= 9 {
        profile.gallery_images@
    } else {
        profile.gallery_images@.take(9)
    }
}

/// For each image of the gallery that means a picture, its position and that of the picture.
pub fn gallery_pictures(
    profile: &StudentProfile,
    places: &[Option<(Binary64, Binary64)>],
    candidates: &[SourceImageCandidate],
) -> (r: Vec<(usize, usize)>)
    requires
        places@.len() == profile.gallery_images@.len(),
        forall|i: int| 0 <= i < candidates@.len() ==> measurable(#[trigger] candidates@[i]),
    ensures
        is_gallery_of(gallery_images(*profile), places@, candidates@, r@),
        forall|i: int| 0 <= i < r@.len() ==> (#[trigger] r@[i]).1 < candidates@.len(),
{
    let ghost images = gallery_images(*profile);
    let count = if profile.gallery_images.len() <= 9 {
        profile.gallery_images.len()
    } else {
        9
    };
    let mut out: Vec<(usize, usize)> = Vec::new();
    let mut i: usize = 0;
    while i < count
        invariant
            i <= count,
            count == images.len(),
            images == gallery_images(*profile),
            count <= profile.gallery_images@.len(),
            places@.len() == profile.gallery_images@.len(),
            forall|j: int| 0 <= j < candidates@.len() ==> measurable(#[trigger] candidates@[j]),
            is_gallery_of(images.take(i as int), places@, candidates@, out@),
            forall|j: int| 0 <= j < out@.len() ==> (#[trigger] out@[j]).0 < i,
            forall|j: int| 0 <= j < out@.len() ==> (#[trigger] out@[j]).1 < candidates@.len(),
        decreases count - i,
    {
        proof {
            assert(images.take(i + 1).drop_last() =~= images.take(i as int));
        }
        let place = match &places[i] {
            Some(p) => Some((p.0, p.1)),
            None => None,
        };
        assert(place == places@[i as int]);
        let ghost before = out@;
        match source_picture(candidates, place, as_slice(&profile.gallery_images[i].url)) {
            Some(at) => {
                out.push((i, at));
                assert(out@.drop_last() =~= before);
            },
            None => {},
        }
        i = i + 1;
    }
    assert(images.take(i as int) =~= images);
    out
}

/// Where the cover of a page comes from.
#[derive(Debug)]
pub enum CoverSource {
    /// The thumbnail, by its reference.
    Thumbnail(String),
    /// A picture elsewhere, by its address.
    External(String),
}

/// Where a cover comes from.
pub enum CoverView {
    Thumbnail(Seq<char>),
    External(Seq<char>),
}

impl View for CoverSource {
    type V = CoverView;

    open spec fn view(&self) -> CoverView {
        match *self {
            CoverSource::Thumbnail(r) => CoverView::Thumbnail(r@),
            CoverSource::External(u) => CoverView::External(u@),
        }
    }
}

/// Where the cover of a page comes from: the thumbnail that was stored, else the address of one on
/// the web.
pub fn cover_source(profile: &StudentProfile) -> (r: Option<CoverSource>)
    ensures
        (match r {
            Some(source) => Some(source@),
            None => None,
        }) == (match (
            crate::text::opt_string(profile.thumbnail_blob_ref),
            crate::text::opt_string(profile.thumbnail_url),
        ) {
            (Some(blob), _) => Some(CoverView::Thumbnail(blob)),
            (None, Some(url)) => if crate::text::begins(url, "http"@) {
                Some(CoverView::External(url))
            } else {
                None
            },
            (None, None) => None,
        }),
{
    match &profile.thumbnail_blob_ref {
        Some(blob) => Some(CoverSource::Thumbnail(blob.clone())),
        None => match &profile.thumbnail_url {
            Some(url) => {
                if starts_with(url.as_str(), "http") {
                    Some(CoverSource::External(url.clone()))
                } else {
                    None
                }
            },
            None => None,
        },
    }
}

/// Whether a character is a hexadecimal digit.
pub open spec fn is_hex(c: char) -> bool {
    ('0' <= c && c <= '9') || ('a' <= c && c <= 'f') || ('A' <= c && c <= 'F')
}

/// What names the contents in a reference to a blob: its 64 hexadecimal digits.
pub open spec fn blob_hash(blob_ref: Seq<char>) -> Option<Seq<char>> {
    let hash = blob_ref.skip("blob:sha256:"@.len() as int);
    if crate::text::begins(blob_ref, "blob:sha256:"@) && hash.len() == 64 && forall|i: int|
        0 <= i < hash.len() ==> is_hex(#[trigger] hash[i]) {
        Some(hash)
    } else {
        None
    }
}

/// What names the contents in a reference to a blob: its 64 hexadecimal digits.
pub fn blob_ref_sha256<'a>(blob_ref: &'a str) -> (r: Option<&'a str>)
    ensures
        crate::json::opt_str(r) == blob_hash(blob_ref@),
{
    match strip_prefix(blob_ref, "blob:sha256:") {
        Some(hash) => {
            let chars = chars_of(hash);
            if chars.len() != 64 {
                return None;
            }
            let mut i: usize = 0;
            while i < chars.len()
                invariant
                    i <= chars.len(),
                    chars@ == hash@,
                    hash@ == blob_ref@.skip("blob:sha256:"@.len() as int),
                    forall|j: int| 0 <= j < i ==> is_hex(#[trigger] chars@[j]),
                decreases chars.len() - i,
            {
                let c = chars[i];
                if !(('0' <= c && c <= '9') || ('a' <= c && c <= 'f') || ('A' <= c && c <= 'F')) {
                    assert(!is_hex(hash@[i as int]));
                    return None;
                }
                i = i + 1;
            }
            Some(hash)
        },
        None => None,
    }
}

/// The directory and the file name where the contents of a blob lie.
pub fn blob_file<'a>(config: &'a NotionConfig, blob_ref: &'a str) -> (r: Result<
    (&'a str, &'a str),
    AdapterError,
>)
    ensures
        (match r {
            Ok((dir, file)) => Ok((dir@, file@)),
            Err(e) => Err(e@),
        }) == (match (blob_hash(blob_ref@), crate::text::opt_string(config.blob_dir)) {
            (None, _) => Err(
                AdapterErrorView::Other("invalid thumbnail blob ref: "@ + blob_ref@),
            ),
            (Some(_), None) => Err(
                AdapterErrorView::Other("Notion file upload requires blob_dir in configuration"@),
            ),
            (Some(hash), Some(dir)) => Ok((dir, hash)),
        }),
{
    match blob_ref_sha256(blob_ref) {
        None => {
            let mut message = "invalid thumbnail blob ref: ".to_owned();
            message.append(blob_ref);
            Err(AdapterError::Other(message))
        },
        Some(hash) => match &config.blob_dir {
            None => Err(
                AdapterError::Other(
                    "Notion file upload requires blob_dir in configuration".to_owned(),
                ),
            ),
            Some(dir) => Ok((dir.as_str(), hash)),
        },
    }
}

/// The directory where contents are kept before they are uploaded.
pub fn persist_dir<'a>(config: &'a NotionConfig) -> (r: Result<&'a str, AdapterError>)
    ensures
        (match r {
            Ok(dir) => Ok(dir@),
            Err(e) => Err(e@),
        }) == (match crate::text::opt_string(config.blob_dir) {
            Some(dir) => Ok(dir),
            None => Err(
                AdapterErrorView::Other(
                    "Notion image materialization requires blob_dir in configuration"@,
                ),
            ),
        }),
{
    match &config.blob_dir {
        Some(dir) => Ok(dir.as_str()),
        None => Err(
            AdapterError::Other(
                "Notion image materialization requires blob_dir in configuration".to_owned(),
            ),
        ),
    }
}

/// The kinds of pictures that are told apart when they are uploaded.
#[derive(Debug, Clone, Copy, PartialEq, Eq, Structural)]
pub enum PictureKind {
    Jpeg,
    Gif,
    WebP,
    /// Another kind, or none that is known.
    Other,
}

/// Whether a file begins with some bytes.
pub open spec fn begins_with(bytes: Seq<u8>, start: Seq<u8>) -> bool {
    bytes.len() >= start.len() && bytes.take(start.len() as int) == start
}

/// The kind of picture that the first bytes of a file tell.
pub open spec fn picture_kind(bytes: Seq<u8>) -> PictureKind {
    if begins_with(bytes, seq![0xff, 0xd8, 0xff]) {
        PictureKind::Jpeg
    } else if begins_with(bytes, seq![0x47, 0x49, 0x46, 0x38, 0x39, 0x61]) || begins_with(
        bytes,
        seq![0x47, 0x49, 0x46, 0x38, 0x37, 0x61],
    ) {
        PictureKind::Gif
    } else if begins_with(bytes, seq![0x52, 0x49, 0x46, 0x46]) && bytes.len() >= 12
        && begins_with(bytes.skip(8), seq![0x57, 0x45, 0x42, 0x50]) {
        PictureKind::WebP
    } else {
        PictureKind::Other
    }
}

/// Tells the kind of a picture with `image::guess_format`. The contract claims that JPEG, GIF and
/// WebP are told by their first bytes and that every other file is of another kind or of none.
#[verifier::external_body]
fn guess_kind(bytes: &[u8]) -> (r: PictureKind)
    ensures
        r == picture_kind(bytes@),
{
    match image::guess_format(bytes) {
        Ok(image::ImageFormat::Jpeg) => PictureKind::Jpeg,
        Ok(image::ImageFormat::Gif) => PictureKind::Gif,
        Ok(image::ImageFormat::WebP) => PictureKind::WebP,
        Ok(_) => PictureKind::Other,
        Err(_) => PictureKind::Other,
    }
}

/// The ending of the file name of a picture.
pub open spec fn kind_extension(kind: PictureKind) -> Seq<char> {
    match kind {
        PictureKind::Jpeg => "jpg"@,
        PictureKind::Gif => "gif"@,
        PictureKind::WebP => "webp"@,
        PictureKind::Other => "png"@,
    }
}

/// The content type of a picture.
pub open spec fn kind_content_type(kind: PictureKind) -> Seq<char> {
    match kind {
        PictureKind::Jpeg => "image/jpeg"@,
        PictureKind::Gif => "image/gif"@,
        PictureKind::WebP => "image/webp"@,
        PictureKind::Other => "image/png"@,
    }
}

/// The file name and the content type under which a picture of a kind is uploaded.
pub fn upload_name(prefix: &str, hash: &str, kind: PictureKind) -> (r: (String, String))
    requires
        hash@.len() >= 8,
    ensures
        r.0@ == prefix@ + "-"@ + hash@.take(8) + "."@ + kind_extension(kind),
        r.1@ == kind_content_type(kind),
{
    let (extension, content_type) = match kind {
        PictureKind::Jpeg => ("jpg", "image/jpeg"),
        PictureKind::Gif => ("gif", "image/gif"),
        PictureKind::WebP => ("webp", "image/webp"),
        PictureKind::Other => ("png", "image/png"),
    };
    let mut name = prefix.to_owned();
    name.append("-");
    assert(hash@.subrange(0, 8) =~= hash@.take(8));
    name.append(hash.substring_char(0, 8));
    name.append(".");
    name.append(extension);
    (name, content_type.to_owned())
}

/// The file name and the content type under which a picture is uploaded.
pub fn upload_name_of(prefix: &str, bytes: &[u8]) -> (r: (String, String))
    ensures
        r.0@ == prefix@ + "-"@ + crate::digest::hex_text(crate::digest::sha256(bytes@)).take(8)
            + "."@ + kind_extension(picture_kind(bytes@)),
        r.1@ == kind_content_type(picture_kind(bytes@)),
{
    let hash = sha256_hex(bytes);
    upload_name(prefix, hash.as_str(), guess_kind(bytes))
}

/// How the file of a picture of the gallery begins.
pub fn gallery_prefix(index: usize) -> (r: String)
    ensures
        r@ == "lethe-gallery-"@ + crate::text::decimal(index as nat),
{
    let mut prefix = "lethe-gallery-".to_owned();
    let number = decimal_text(index as u64);
    prefix.append(number.as_str());
    prefix
}

} // verus!
