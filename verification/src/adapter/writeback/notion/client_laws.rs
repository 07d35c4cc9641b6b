//! What requests ask for, and which pictures are meant.

use vstd::arithmetic::power2::*;
use vstd::prelude::*;
use vstd::string::*;

use crate::adapter::error::AdapterErrorView;
use crate::binary64::Binary64;
use crate::json::JsonView;
use crate::profile::GalleryImage;

use super::blocks::MediaView;
use super::client::Method;
use super::pictures::{PictureKind, SourceImageCandidate};
use super::properties::DatabaseSchema;

verus! {

proof fn two_members(a: Seq<char>, x: JsonView, b: Seq<char>, y: JsonView)
    requires
        a != b,
    ensures
        super::blocks_laws::inner(JsonView::Object(seq![(a, x), (b, y)]), a) == x,
        super::blocks_laws::inner(JsonView::Object(seq![(a, x), (b, y)]), b) == y,
{
    let members = seq![(a, x), (b, y)];
    assert(members.drop_first()[0] == (b, y));
    assert(crate::json::member_index(members.drop_first(), b) == Some(0int));
}

/// A page is searched by the address where one is given and the database has a property for it, and
/// by the title otherwise; what is found has exactly that value.
pub proof fn pages_are_searched_by_address_or_title(
    schema: DatabaseSchema,
    email: Option<Seq<char>>,
    title: Seq<char>,
)
    ensures
        ({
            let filter = super::blocks_laws::inner(super::client::page_filter(schema, email, title), "filter"@);
            if email is Some && schema.email_property is Some {
                &&& super::blocks_laws::inner(filter, "property"@) == JsonView::Str(schema.email_property->0@)
                &&& super::blocks_laws::inner(super::blocks_laws::inner(filter, "email"@), "equals"@) == JsonView::Str(email->0)
            } else {
                &&& super::blocks_laws::inner(filter, "property"@) == JsonView::Str(schema.title_property@)
                &&& super::blocks_laws::inner(super::blocks_laws::inner(filter, "title"@), "equals"@) == JsonView::Str(title)
            }
        }),
{
    reveal_strlit("property");
    reveal_strlit("email");
    reveal_strlit("title");
    assert("property"@.len() == 8 && "email"@.len() == 5 && "title"@.len() == 5);
    let (property, kind, value) = match (email, schema.email_property) {
        (Some(email), Some(property)) => (property@, "email"@, email),
        _ => (schema.title_property@, "title"@, title),
    };
    two_members(
        "property"@,
        JsonView::Str(property),
        kind,
        JsonView::Object(seq![("equals"@, JsonView::Str(value))]),
    );
}

/// A record without a page gets one in the database, with its properties; a record with a page
/// changes that page, and only where there is a property or a picture to set. Cover and icon are
/// sent each under its own name, and only where they are there.
pub proof fn pages_are_created_or_changed(
    database: Seq<char>,
    page: Option<Seq<char>>,
    properties: JsonView,
    cover: Option<MediaView>,
    icon: Option<MediaView>,
)
    ensures
        ({
            let step = super::client::page_step(database, page, properties, cover, icon);
            let nothing = (match properties {
                JsonView::Object(members) => members.len() == 0,
                _ => true,
            }) && cover is None && icon is None;
            &&& step is None <==> page is Some && nothing
            &&& step matches Some(request) ==> {
                &&& request.body is Some
                &&& crate::json::member(request.body->0, "properties"@) == Some(properties)
                &&& crate::json::member(request.body->0, "cover"@) == (match cover {
                    Some(media) => Some(super::blocks::media_value(media)),
                    None => None,
                })
                &&& crate::json::member(request.body->0, "icon"@) == (match icon {
                    Some(media) => Some(super::blocks::media_value(media)),
                    None => None,
                })
                &&& page matches Some(id) ==> request.method == Method::Patch && request.endpoint
                    == "/pages/"@ + id && crate::json::member(request.body->0, "parent"@) is None
                &&& page is None ==> request.method == Method::Post && request.endpoint == "/pages"@
                    && crate::json::member(request.body->0, "parent"@) is Some && super::blocks_laws::inner(
                    super::blocks_laws::inner(request.body->0, "parent"@),
                    "database_id"@,
                ) == JsonView::Str(database)
                &&& (cover matches Some(MediaView::FileUpload(_))) || (icon matches Some(
                    MediaView::FileUpload(_),
                )) ==> request.api_version == "2026-03-11"@
                &&& !(cover matches Some(MediaView::FileUpload(_))) && !(icon matches Some(
                    MediaView::FileUpload(_),
                )) ==> request.api_version == "2022-06-28"@
            }
        }),
{
    reveal_strlit("properties");
    reveal_strlit("cover");
    reveal_strlit("icon");
    reveal_strlit("parent");
    assert("properties"@.len() == 10 && "cover"@.len() == 5 && "icon"@.len() == 4
        && "parent"@.len() == 6);
    let none = Seq::<(Seq<char>, JsonView)>::empty();
    let own = JsonView::Object(seq![("database_id"@, JsonView::Str(database))]);
    let start = match page {
        None => crate::json::set_member(none, "parent"@, own),
        Some(_) => none,
    };
    each_name(none, "parent"@, own);
    each_name(start, "properties"@, properties);
    let b = crate::json::set_member(start, "properties"@, properties);
    let c = super::client::with_media(b, "cover"@, cover);
    if cover is Some {
        each_name(b, "cover"@, super::blocks::media_value(cover->0));
    }
    if icon is Some {
        each_name(c, "icon"@, super::blocks::media_value(icon->0));
    }
    assert(crate::json::member(JsonView::Object(none), "parent"@) is None);
    assert(crate::json::member(JsonView::Object(none), "cover"@) is None);
    assert(crate::json::member(JsonView::Object(none), "icon"@) is None);
    let one = seq![("database_id"@, JsonView::Str(database))];
    assert(crate::json::member_index(one, "database_id"@) == Some(0int));
}

proof fn each_name(members: Seq<(Seq<char>, JsonView)>, name: Seq<char>, value: JsonView)
    ensures
        forall|key: Seq<char>| #[trigger]
            crate::json::member(
                JsonView::Object(crate::json::set_member(members, name, value)),
                key,
            ) == if key == name {
                Some(value)
            } else {
                crate::json::member(JsonView::Object(members), key)
            },
{
    assert forall|key: Seq<char>| #[trigger]
        crate::json::member(
            JsonView::Object(crate::json::set_member(members, name, value)),
            key,
        ) == if key == name {
            Some(value)
        } else {
            crate::json::member(JsonView::Object(members), key)
        } by {
        crate::json::set_member_is_found(members, name, value, key);
    }
}

/// The body of a page is replaced: every block that is there is taken away, in order, and then the new
/// blocks are added in one request, where there are any.
pub proof fn bodies_are_replaced(
    page: Seq<char>,
    existing: Seq<Seq<char>>,
    blocks: Seq<JsonView>,
    version: Seq<char>,
)
    ensures
        ({
            let steps = super::client::stacking_steps(page, existing, blocks, version);
            &&& steps.len() == existing.len() + (if blocks.len() > 0 {
                1int
            } else {
                0
            })
            &&& forall|i: int|
                0 <= i < existing.len() ==> (#[trigger] steps[i]).method == Method::Delete
                    && steps[i].endpoint == "/blocks/"@ + existing[i] && steps[i].body is None
                    && steps[i].api_version == version
            &&& blocks.len() > 0 ==> steps.last().method == Method::Patch && steps.last().endpoint
                == "/blocks/"@ + page + "/children"@ && steps.last().body == Some(
                JsonView::Object(seq![("children"@, JsonView::Array(blocks))]),
            )
        }),
{
}

/// A picture that was uploaded is found in a value at any depth: where the value says so itself, or one
/// of its members or items does.
pub proof fn uploads_are_found_at_any_depth(value: JsonView)
    ensures
        crate::json::as_text(crate::json::member(value, "type"@)) == Some("file_upload"@)
            ==> super::client::holds_upload(value),
        value matches JsonView::Object(members) ==> forall|i: int|
            0 <= i < members.len() && super::client::holds_upload((#[trigger] members[i]).1)
                ==> super::client::holds_upload(value),
        value matches JsonView::Array(items) ==> forall|i: int|
            0 <= i < items.len() && super::client::holds_upload(#[trigger] items[i])
                ==> super::client::holds_upload(value),
        !(value is Object) && !(value is Array) ==> !super::client::holds_upload(value),
        value matches JsonView::Array(items) ==> (super::client::holds_upload(value) ==> exists|
            i: int,
        |
            0 <= i < items.len() && super::client::holds_upload(#[trigger] items[i])),
        value matches JsonView::Object(members) ==> (super::client::holds_upload(value)
            && crate::json::as_text(crate::json::member(value, "type"@)) != Some("file_upload"@)
            ==> exists|i: int|
            0 <= i < members.len() && super::client::holds_upload((#[trigger] members[i]).1)),
{
}

/// A status is an error just from 400 up to 599: too many requests, a refused token, or any other,
/// told by the status and the answer.
pub proof fn statuses_are_errors_from_400(status: u16, shown: Seq<char>, body: Seq<char>)
    ensures
        super::client::status_failure(status, shown, body) is Some <==> 400 <= status <= 599,
        status == 429 <==> super::client::status_failure(status, shown, body) == Some(
            AdapterErrorView::RateLimited(1),
        ),
        (super::client::status_failure(status, shown, body) matches Some(
            AdapterErrorView::AuthFailure(_),
        )) <==> status == 401 || status == 403,
        400 <= status <= 599 && status != 429 && status != 401 && status != 403
            ==> super::client::status_failure(status, shown, body) == Some(
            AdapterErrorView::Other("Notion API error ("@ + shown + "): "@ + body),
        ),
{
}

/// A text loses its dashes and keeps everything else in order.
pub proof fn dashes_are_dropped(a: Seq<char>, c: char, b: Seq<char>)
    ensures
        super::client::undashed(Seq::empty()).len() == 0,
        c == '-' ==> super::client::undashed(a.push(c)) == super::client::undashed(a),
        c != '-' ==> super::client::undashed(a.push(c)) == super::client::undashed(a).push(c),
        super::client::undashed(a + b) == super::client::undashed(a) + super::client::undashed(b),
        !super::client::undashed(a).contains('-'),
    decreases a.len() + b.len(),
{
    assert(a.push(c).drop_last() =~= a);
    if b.len() == 0 {
        assert(a + b =~= a);
        assert(super::client::undashed(a) + super::client::undashed(b) =~= super::client::undashed(
            a,
        ));
    } else {
        assert((a + b).drop_last() =~= a + b.drop_last());
        dashes_are_dropped(a, c, b.drop_last());
        assert(super::client::undashed(a + b) =~= super::client::undashed(a)
            + super::client::undashed(b));
    }
    if a.len() > 0 {
        dashes_are_dropped(a.drop_last(), c, Seq::empty());
        let before = super::client::undashed(a.drop_last());
        let after = super::client::undashed(a);
        if after.contains('-') {
            let k = choose|k: int| 0 <= k < after.len() && after[k] == '-';
            if k < before.len() {
                assert(before[k] == '-');
            }
        }
    }
}

/// The headers of a request name the token and the version, each under its own name.
pub proof fn headers_name_token_and_version(token: Seq<char>, version: Seq<char>)
    ensures
        super::client::auth_headers(token, version) is Ok <==> super::client::header_safe(
            "Bearer "@ + token,
        ) && super::client::header_safe(version),
        super::client::auth_headers(token, version) matches Ok(headers) ==> headers == seq![
            ("authorization"@, "Bearer "@ + token),
            ("notion-version"@, version),
        ],
        !super::client::header_safe("Bearer "@ + token) ==> (super::client::auth_headers(
            token,
            version,
        ) matches Err(AdapterErrorView::AuthFailure(_))),
{
}

/// What a payload says beside a profile is carried over, and takes the place of what the profile says
/// under that name; nothing else is changed.
pub proof fn carried_members_are_kept(
    members: Seq<(Seq<char>, JsonView)>,
    given: JsonView,
    name: Seq<char>,
    key: Seq<char>,
)
    ensures
        crate::json::member(
            JsonView::Object(super::client::with_carried(members, given, name)),
            key,
        ) == if key == name && crate::json::member(given, name) is Some {
            crate::json::member(given, name)
        } else {
            crate::json::member(JsonView::Object(members), key)
        },
{
    if crate::json::member(given, name) is Some {
        crate::json::set_member_is_found(members, name, crate::json::member(given, name)->0, key);
    }
}

/// How far a coordinate lies from a percentage is the distance of the two numbers, to the nearest
/// number; and the square of a distance is the sum of the squares of the two.
pub proof fn distances_are_those_of_the_points(
    candidate: SourceImageCandidate,
    x: u64,
    y: u64,
)
    requires
        super::pictures::measurable(candidate),
        x < crate::binary64::INFINITY,
        y < crate::binary64::INFINITY,
    ensures
        ({
            let across = super::pictures::coordinate_gap(candidate.center_x_pct, x);
            let down = super::pictures::coordinate_gap(candidate.center_y_pct, y);
            let apart_x = crate::binary64::signed_units(candidate.center_x_pct)
                - crate::binary64::units(x);
            let apart_y = crate::binary64::signed_units(candidate.center_y_pct)
                - crate::binary64::units(y);
            let square_x = super::pictures::squared(across);
            let square_y = super::pictures::squared(down);
            &&& crate::binary64::nearest(
                (if apart_x < 0 {
                    -apart_x
                } else {
                    apart_x
                }) as nat,
                1,
                across,
            )
            &&& crate::binary64::nearest(
                (if apart_y < 0 {
                    -apart_y
                } else {
                    apart_y
                }) as nat,
                1,
                down,
            )
            &&& across < crate::binary64::INFINITY ==> crate::binary64::nearest(
                crate::binary64::units(across) * crate::binary64::units(across),
                pow2(1074),
                square_x,
            )
            &&& down < crate::binary64::INFINITY ==> crate::binary64::nearest(
                crate::binary64::units(down) * crate::binary64::units(down),
                pow2(1074),
                square_y,
            )
            &&& crate::binary64::nearest(
                crate::binary64::units(square_x) + crate::binary64::units(square_y),
                1,
                super::pictures::squared_distance(candidate, x, y),
            )
        }),
{
    lemma_pow2_pos(1074);
    let g = pow2(1074);
    gap_is_nearest(candidate.center_x_pct, x);
    gap_is_nearest(candidate.center_y_pct, y);
    let across = super::pictures::coordinate_gap(candidate.center_x_pct, x);
    let down = super::pictures::coordinate_gap(candidate.center_y_pct, y);
    let u = crate::binary64::units(across);
    let v = crate::binary64::units(down);
    crate::binary64::rounded_is_nearest(u * u, g);
    crate::binary64::rounded_is_nearest(v * v, g);
    crate::binary64::rounded_is_nearest(
        crate::binary64::units(super::pictures::squared(across)) + crate::binary64::units(
            super::pictures::squared(down),
        ),
        1,
    );
}

proof fn gap_is_nearest(coordinate: Binary64, pct: u64)
    requires
        coordinate.finite(),
        pct < crate::binary64::INFINITY,
    ensures
        ({
            let apart = crate::binary64::signed_units(coordinate) - crate::binary64::units(pct);
            crate::binary64::nearest(
                (if apart < 0 {
                    -apart
                } else {
                    apart
                }) as nat,
                1,
                super::pictures::coordinate_gap(coordinate, pct),
            )
        }),
{
    let m = coordinate.magnitude();
    if coordinate.negative() {
        crate::binary64::rounded_is_nearest(
            crate::binary64::units(m) + crate::binary64::units(pct),
            1,
        );
        assert(crate::binary64::units(m) >= 0);
    } else {
        if m < pct {
            crate::binary64::bits_are_in_order(m, pct);
        } else if pct < m {
            crate::binary64::bits_are_in_order(pct, m);
        }
        crate::binary64::rounded_is_nearest(crate::binary64::apart(m, pct), 1);
    }
}

/// Pictures are as near in one direction as in the other: with both coordinates exchanged, and those of
/// the point, the distance stays.
pub proof fn directions_count_alike(
    a: SourceImageCandidate,
    b: SourceImageCandidate,
    x: u64,
    y: u64,
)
    requires
        a.center_x_pct == b.center_y_pct,
        a.center_y_pct == b.center_x_pct,
    ensures
        super::pictures::squared_distance(a, x, y) == super::pictures::squared_distance(b, y, x),
{
}

/// A picture is found by its address where the first with that address is.
pub proof fn first_addresses_count(candidates: Seq<SourceImageCandidate>, url: Seq<char>)
    ensures
        match super::pictures::first_with_url(candidates, url) {
            Some(i) => {
                &&& 0 <= i < candidates.len()
                &&& candidates[i].source_url@ == url
                &&& forall|j: int| 0 <= j < i ==> (#[trigger] candidates[j]).source_url@ != url
            },
            None => forall|j: int|
                0 <= j < candidates.len() ==> (#[trigger] candidates[j]).source_url@ != url,
        },
    decreases candidates.len(),
{
    if candidates.len() > 0 {
        let init = candidates.drop_last();
        first_addresses_count(init, url);
        let last = candidates.len() - 1;
        assert forall|j: int| 0 <= j < last implies init[j] == #[trigger] candidates[j] by {}
        match super::pictures::first_with_url(init, url) {
            Some(i) => {
                assert forall|j: int| 0 <= j < i implies (#[trigger] candidates[j]).source_url@
                    != url by {
                    assert(init[j] == candidates[j]);
                }
            },
            None => {
                assert forall|j: int| 0 <= j < last implies (#[trigger] candidates[j]).source_url@
                    != url by {
                    assert(init[j] == candidates[j]);
                }
            },
        }
    }
}

/// The picture that is meant is the first of those nearest to the place that is given, where that is a
/// place and there are pictures; otherwise it is the first with the address, and none where there is no
/// such picture.
pub proof fn places_count_before_addresses(
    candidates: Seq<SourceImageCandidate>,
    x: Binary64,
    y: Binary64,
    url: Option<Seq<char>>,
    r: Option<usize>,
)
    requires
        super::pictures::is_meant(candidates, Some((x, y)), url, r),
    ensures
        ({
            let fits = crate::binary64::up_to(x, 1000) && crate::binary64::up_to(y, 1000);
            let tx = crate::adapter::writeback::image_crop::normalized_pct(x);
            let ty = crate::adapter::writeback::image_crop::normalized_pct(y);
            &&& fits && candidates.len() > 0 ==> {
                &&& r is Some && tx is Some && ty is Some
                &&& r->0 < candidates.len()
                &&& forall|i: int|
                    0 <= i < candidates.len() ==> super::pictures::squared_distance(
                        candidates[r->0 as int],
                        tx->0,
                        ty->0,
                    ) <= super::pictures::squared_distance(#[trigger] candidates[i], tx->0, ty->0)
                &&& forall|i: int|
                    0 <= i < r->0 ==> super::pictures::squared_distance(
                        candidates[r->0 as int],
                        tx->0,
                        ty->0,
                    ) < super::pictures::squared_distance(#[trigger] candidates[i], tx->0, ty->0)
            }
            &&& !fits && url is None ==> r is None
            &&& !fits && url is Some ==> (r is Some <==> exists|i: int|
                0 <= i < candidates.len() && (#[trigger] candidates[i]).source_url@ == url->0)
            &&& !fits && r is Some ==> r->0 < candidates.len() && candidates[r->0 as int].source_url@
                == url->0
        }),
{
    assert(100 * pow2(1074) <= 1000 * pow2(1074));
    if url is Some {
        first_addresses_count(candidates, url->0);
        match super::pictures::first_with_url(candidates, url->0) {
            Some(i) => {
                assert(candidates[i].source_url@ == url->0);
            },
            None => {},
        }
    }
}

/// A gallery gives the images of a profile in order, each with the picture that is meant for it, and
/// leaves out just those that mean none.
pub proof fn galleries_give_each_image_its_picture(
    images: Seq<GalleryImage>,
    places: Seq<Option<(Binary64, Binary64)>>,
    candidates: Seq<SourceImageCandidate>,
    list: Seq<(usize, usize)>,
)
    requires
        super::pictures::is_gallery_of(images, places, candidates, list),
    ensures
        forall|i: int|
            0 <= i < list.len() ==> (#[trigger] list[i]).0 < images.len()
                && super::pictures::is_meant(
                candidates,
                places[list[i].0 as int],
                crate::text::opt_string(images[list[i].0 as int].url),
                Some(list[i].1),
            ),
        forall|i: int, j: int|
            0 <= i < j < list.len() ==> (#[trigger] list[i]).0 < (#[trigger] list[j]).0,
        forall|k: int|
            0 <= k < images.len() && (forall|i: int|
                0 <= i < list.len() ==> (#[trigger] list[i]).0 != k) ==> super::pictures::is_meant(
                candidates,
                places[k],
                crate::text::opt_string((#[trigger] images[k]).url),
                None,
            ),
    decreases images.len(),
{
    if images.len() > 0 {
        let init = images.drop_last();
        let k = images.len() - 1;
        assert forall|i: int| 0 <= i < k implies init[i] == #[trigger] images[i] by {}
        if list.len() > 0 && list.last().0 == k {
            let before = list.drop_last();
            galleries_give_each_image_its_picture(init, places, candidates, before);
            let last = list.len() - 1;
            assert(list[last] == list.last());
            assert forall|i: int| 0 <= i < last implies before[i] == #[trigger] list[i] by {}
            assert forall|i: int| 0 <= i < list.len() implies (#[trigger] list[i]).0 < images.len()
                && super::pictures::is_meant(
                candidates,
                places[list[i].0 as int],
                crate::text::opt_string(images[list[i].0 as int].url),
                Some(list[i].1),
            ) by {
                if i < last {
                    assert(before[i].0 < init.len());
                }
            }
            assert forall|i: int, j: int| 0 <= i < j < list.len() implies (#[trigger] list[i]).0 < (
            #[trigger] list[j]).0 by {
                assert(before[i].0 < init.len());
                if j < last {
                    assert(before[i].0 < before[j].0);
                }
            }
            assert forall|m: int|
                0 <= m < images.len() && (forall|i: int|
                    0 <= i < list.len() ==> (#[trigger] list[i]).0
                        != m) implies super::pictures::is_meant(
                candidates,
                places[m],
                crate::text::opt_string((#[trigger] images[m]).url),
                None,
            ) by {
                assert(list[last].0 != m);
                assert(init[m] == images[m]);
                assert forall|i: int| 0 <= i < before.len() implies (#[trigger] before[i]).0 != m by {
                    assert(list[i].0 != m);
                }
            }
        } else {
            galleries_give_each_image_its_picture(init, places, candidates, list);
            assert forall|i: int| 0 <= i < list.len() implies (#[trigger] list[i]).0 < images.len()
                && super::pictures::is_meant(
                candidates,
                places[list[i].0 as int],
                crate::text::opt_string(images[list[i].0 as int].url),
                Some(list[i].1),
            ) by {
                assert(list[i].0 < init.len());
            }
            assert forall|m: int|
                0 <= m < images.len() && (forall|i: int|
                    0 <= i < list.len() ==> (#[trigger] list[i]).0
                        != m) implies super::pictures::is_meant(
                candidates,
                places[m],
                crate::text::opt_string((#[trigger] images[m]).url),
                None,
            ) by {
                if m < k {
                    assert(init[m] == images[m]);
                }
            }
        }
    }
}

/// A reference to a blob is its prefix and 64 hexadecimal digits, which name the contents; nothing else
/// is one.
pub proof fn references_name_contents(blob_ref: Seq<char>)
    ensures
        match super::pictures::blob_hash(blob_ref) {
            Some(hash) => {
                &&& blob_ref == "blob:sha256:"@ + hash
                &&& hash.len() == 64
                &&& forall|i: int|
                    0 <= i < 64 ==> ('0' <= #[trigger] hash[i] <= '9') || ('a' <= hash[i] <= 'f')
                        || ('A' <= hash[i] <= 'F')
            },
            None => forall|hash: Seq<char>|
                blob_ref == #[trigger] ("blob:sha256:"@ + hash) ==> hash.len() != 64 || exists|
                    i: int,
                |
                    0 <= i < 64 && !(('0' <= #[trigger] hash[i] <= '9') || ('a' <= hash[i] <= 'f')
                        || ('A' <= hash[i] <= 'F')),
        },
{
    let prefix = "blob:sha256:"@;
    match super::pictures::blob_hash(blob_ref) {
        Some(hash) => {
            assert(blob_ref =~= prefix + hash);
        },
        None => {
            assert forall|hash: Seq<char>| blob_ref == #[trigger] ("blob:sha256:"@ + hash) implies hash.len()
                != 64 || exists|i: int|
                0 <= i < 64 && !(('0' <= #[trigger] hash[i] <= '9') || ('a' <= hash[i] <= 'f') || (
                'A' <= hash[i] <= 'F')) by {
                assert(blob_ref.skip(prefix.len() as int) =~= hash);
                assert(blob_ref.take(prefix.len() as int) =~= prefix);
                if hash.len() == 64 && forall|i: int|
                    0 <= i < 64 ==> ('0' <= #[trigger] hash[i] <= '9') || ('a' <= hash[i] <= 'f')
                        || ('A' <= hash[i] <= 'F') {
                    assert forall|i: int| 0 <= i < hash.len() implies super::pictures::is_hex(
                        #[trigger] hash[i],
                    ) by {}
                }
            }
        },
    }
}

/// A picture is uploaded under the ending and the content type of its kind.
pub proof fn uploads_are_typed_by_kind()
    ensures
        super::pictures::kind_extension(PictureKind::Jpeg) == "jpg"@,
        super::pictures::kind_extension(PictureKind::Gif) == "gif"@,
        super::pictures::kind_extension(PictureKind::WebP) == "webp"@,
        super::pictures::kind_extension(PictureKind::Other) == "png"@,
        super::pictures::kind_content_type(PictureKind::Jpeg) == "image/jpeg"@,
        super::pictures::kind_content_type(PictureKind::Gif) == "image/gif"@,
        super::pictures::kind_content_type(PictureKind::WebP) == "image/webp"@,
        super::pictures::kind_content_type(PictureKind::Other) == "image/png"@,
{
}

/// The picture that a point means is the first of those nearest to it: none lies nearer, and each one
/// before it lies farther away; there is only one such picture.
pub proof fn the_nearest_picture_is_meant(
    candidates: Seq<SourceImageCandidate>,
    at: int,
    other: int,
    x: u64,
    y: u64,
)
    ensures
        super::pictures::is_nearest(candidates, at, x, y) <==> 0 <= at < candidates.len() && (forall|
            i: int,
        |
            0 <= i < candidates.len() ==> super::pictures::squared_distance(
                #[trigger] candidates[i],
                x,
                y,
            ) >= super::pictures::squared_distance(candidates[at], x, y)) && forall|i: int|
            0 <= i < at ==> super::pictures::squared_distance(#[trigger] candidates[i], x, y)
                > super::pictures::squared_distance(candidates[at], x, y),
        super::pictures::is_nearest(candidates, at, x, y) && super::pictures::is_nearest(
            candidates,
            other,
            x,
            y,
        ) ==> at == other,
{
    if super::pictures::is_nearest(candidates, at, x, y) && super::pictures::is_nearest(
        candidates,
        other,
        x,
        y,
    ) {
        let a = candidates[at];
        let b = candidates[other];
        assert(super::pictures::squared_distance(a, x, y) <= super::pictures::squared_distance(
            b,
            x,
            y,
        ));
        assert(super::pictures::squared_distance(b, x, y) <= super::pictures::squared_distance(
            a,
            x,
            y,
        ));
    }
}

} // verus!
