//! Addresses of map images (Google Maps Static API), with a pin for each
//! listing and one for the work point.

use vstd::prelude::*;

use crate::geo::{is_nan, is_nan_bits, rank, rank_of, Point};
use crate::number::{decimal_text, push_decimal};
use crate::text::{begins, copy_of, has, law_has_is_being_made_of, lemma_has_either, lemma_has_itself};

verus! {

/// How many listings get a pin.
pub const MAX_MARKERS: usize = 50;

/// The bit pattern of infinity.
pub const INFINITY_BITS: u64 = 0x7ff0_0000_0000_0000;

/// The bit pattern of negative infinity.
pub const NEGATIVE_INFINITY_BITS: u64 = 0xfff0_0000_0000_0000;

/// The bit patterns of 1.0, 0.5, 0.2, 0.1, 0.05, 0.02 and 0.01.
pub const ONE: i64 = 0x3ff0_0000_0000_0000;

pub const HALF: i64 = 0x3fe0_0000_0000_0000;

pub const TWO_TENTHS: i64 = 0x3fc9_9999_9999_999a;

pub const ONE_TENTH: i64 = 0x3fb9_9999_9999_999a;

pub const FIVE_HUNDREDTHS: i64 = 0x3fa9_9999_9999_999a;

pub const TWO_HUNDREDTHS: i64 = 0x3f94_7ae1_47ae_147b;

pub const ONE_HUNDREDTH: i64 = 0x3f84_7ae1_47ae_147b;

/// The bit patterns of the least and the greatest latitude and longitude of some
/// places.
#[derive(Clone, Copy, Debug, PartialEq, Eq, Structural)]
pub struct Extent {
    pub lat_min: u64,
    pub lat_max: u64,
    pub lng_min: u64,
    pub lng_max: u64,
}

/// Whether a double is the least of some that are numbers, infinity where there
/// are none.
pub open spec fn is_least(b: u64, all: Seq<u64>) -> bool {
    &&& b == INFINITY_BITS || all.contains(b) && !is_nan_bits(b)
    &&& forall|i: int|
        0 <= i < all.len() && !is_nan_bits(all[i]) ==> rank_of(b) <= rank_of(#[trigger] all[i])
}

/// Whether a double is the greatest of some that are numbers, negative infinity
/// where there are none.
pub open spec fn is_greatest(b: u64, all: Seq<u64>) -> bool {
    &&& b == NEGATIVE_INFINITY_BITS || all.contains(b) && !is_nan_bits(b)
    &&& forall|i: int|
        0 <= i < all.len() && !is_nan_bits(all[i]) ==> rank_of(#[trigger] all[i]) <= rank_of(b)
}

/// The latitudes of places.
pub open spec fn lats(points: Seq<Point>) -> Seq<u64> {
    points.map_values(|p: Point| p.lat.bits)
}

/// The longitudes of places.
pub open spec fn lngs(points: Seq<Point>) -> Seq<u64> {
    points.map_values(|p: Point| p.lng.bits)
}

/// The lesser of a double and another, which is passed over where it is not a
/// number.
fn lesser(a: u64, b: u64) -> (r: u64)
    ensures
        r == (if !is_nan_bits(b) && rank_of(b) < rank_of(a) {
            b
        } else {
            a
        }),
{
    if !is_nan(b) && rank(b) < rank(a) {
        b
    } else {
        a
    }
}

/// The greater of a double and another, which is passed over where it is not a
/// number.
fn greater(a: u64, b: u64) -> (r: u64)
    ensures
        r == (if !is_nan_bits(b) && rank_of(a) < rank_of(b) {
            b
        } else {
            a
        }),
{
    if !is_nan(b) && rank(a) < rank(b) {
        b
    } else {
        a
    }
}

proof fn lemma_least_step(b: u64, all: Seq<u64>, x: u64)
    requires
        is_least(b, all),
    ensures
        is_least(
            if !is_nan_bits(x) && rank_of(x) < rank_of(b) {
                x
            } else {
                b
            },
            all.push(x),
        ),
{
    let after = all.push(x);
    assert(after[all.len() as int] == x);
    if all.contains(b) {
        let i = choose|i: int| 0 <= i < all.len() && all[i] == b;
        assert(after[i] == b);
    }
    assert forall|i: int| 0 <= i < after.len() && !is_nan_bits(after[i]) implies rank_of(
        if !is_nan_bits(x) && rank_of(x) < rank_of(b) {
            x
        } else {
            b
        },
    ) <= rank_of(#[trigger] after[i]) by {
        if i < all.len() {
            assert(after[i] == all[i]);
        }
    }
}

proof fn lemma_greatest_step(b: u64, all: Seq<u64>, x: u64)
    requires
        is_greatest(b, all),
    ensures
        is_greatest(
            if !is_nan_bits(x) && rank_of(b) < rank_of(x) {
                x
            } else {
                b
            },
            all.push(x),
        ),
{
    let after = all.push(x);
    assert(after[all.len() as int] == x);
    if all.contains(b) {
        let i = choose|i: int| 0 <= i < all.len() && all[i] == b;
        assert(after[i] == b);
    }
    assert forall|i: int| 0 <= i < after.len() && !is_nan_bits(after[i]) implies rank_of(
        #[trigger] after[i],
    ) <= rank_of(
        if !is_nan_bits(x) && rank_of(b) < rank_of(x) {
            x
        } else {
            b
        },
    ) by {
        if i < all.len() {
            assert(after[i] == all[i]);
        }
    }
}

/// The extent of some places; none where there are no places.
pub fn extent(points: &Vec<Point>) -> (r: Option<Extent>)
    ensures
        match r {
            None => points@.len() == 0,
            Some(x) => {
                &&& points@.len() > 0
                &&& is_least(x.lat_min, lats(points@))
                &&& is_greatest(x.lat_max, lats(points@))
                &&& is_least(x.lng_min, lngs(points@))
                &&& is_greatest(x.lng_max, lngs(points@))
            },
        },
{
    if points.len() == 0 {
        return None;
    }
    let mut x = Extent {
        lat_min: INFINITY_BITS,
        lat_max: NEGATIVE_INFINITY_BITS,
        lng_min: INFINITY_BITS,
        lng_max: NEGATIVE_INFINITY_BITS,
    };
    for i in 0..points.len()
        invariant
            is_least(x.lat_min, lats(points@).take(i as int)),
            is_greatest(x.lat_max, lats(points@).take(i as int)),
            is_least(x.lng_min, lngs(points@).take(i as int)),
            is_greatest(x.lng_max, lngs(points@).take(i as int)),
    {
        let lat: u64 = points[i].lat.bits;
        let lng: u64 = points[i].lng.bits;
        proof {
            assert(lats(points@).take(i as int).push(lat) =~= lats(points@).take(i + 1));
            assert(lngs(points@).take(i as int).push(lng) =~= lngs(points@).take(i + 1));
            lemma_least_step(x.lat_min, lats(points@).take(i as int), lat);
            lemma_greatest_step(x.lat_max, lats(points@).take(i as int), lat);
            lemma_least_step(x.lng_min, lngs(points@).take(i as int), lng);
            lemma_greatest_step(x.lng_max, lngs(points@).take(i as int), lng);
        }
        x = Extent {
            lat_min: lesser(x.lat_min, lat),
            lat_max: greater(x.lat_max, lat),
            lng_min: lesser(x.lng_min, lng),
            lng_max: greater(x.lng_max, lng),
        };
    }
    assert(lats(points@).take(points@.len() as int) =~= lats(points@));
    assert(lngs(points@).take(points@.len() as int) =~= lngs(points@));
    Some(x)
}

/// All places that an image is to show: the listings and the work point.
pub open spec fn pinned(listings: Seq<Point>, work_point: Option<Point>) -> Seq<Point> {
    match work_point {
        Some(p) => listings.push(p),
        None => listings,
    }
}

/// All places that an image is to show: the listings and the work point.
pub fn all_pins(listings: &Vec<Point>, work_point: Option<&Point>) -> (r: Vec<Point>)
    ensures
        r@ == pinned(
            listings@,
            match work_point {
                Some(p) => Some(*p),
                None => None,
            },
        ),
{
    let mut all: Vec<Point> = Vec::new();
    for i in 0..listings.len()
        invariant
            all@ == listings@.take(i as int),
    {
        all.push(listings[i].clone());
        assert(all@ =~= listings@.take(i + 1));
    }
    assert(listings@.take(listings@.len() as int) =~= listings@);
    match work_point {
        Some(p) => {
            all.push(p.clone());
        },
        None => {},
    }
    all
}

/// The zoom at which a span of degrees fits the image.
pub open spec fn zoom_of(span: u64) -> u8 {
    let k = rank_of(span);
    if is_nan_bits(span) {
        15
    } else if k > ONE {
        8
    } else if k > HALF {
        9
    } else if k > TWO_TENTHS {
        10
    } else if k > ONE_TENTH {
        11
    } else if k > FIVE_HUNDREDTHS {
        12
    } else if k > TWO_HUNDREDTHS {
        13
    } else if k > ONE_HUNDREDTH {
        14
    } else {
        15
    }
}

/// The zoom at which a span of degrees, given by its bit pattern, fits the
/// image.
pub fn zoom_for(span: u64) -> (r: u8)
    ensures
        r == zoom_of(span),
{
    let k: i64 = rank(span);
    if is_nan(span) {
        15
    } else if k > ONE {
        8
    } else if k > HALF {
        9
    } else if k > TWO_TENTHS {
        10
    } else if k > ONE_TENTH {
        11
    } else if k > FIVE_HUNDREDTHS {
        12
    } else if k > TWO_HUNDREDTHS {
        13
    } else if k > ONE_HUNDREDTH {
        14
    } else {
        15
    }
}

/// A wider span never gets a closer zoom.
pub proof fn law_zoom_falls_with_span(a: u64, b: u64)
    requires
        !is_nan_bits(a),
        !is_nan_bits(b),
        rank_of(a) <= rank_of(b),
    ensures
        zoom_of(b) <= zoom_of(a),
        8 <= zoom_of(a) <= 15,
{
}

/// What an image shows: the texts of the coordinates of its centre, and its
/// zoom.
#[derive(Debug)]
pub struct MapView {
    pub lat: String,
    pub lng: String,
    pub zoom: u8,
}

impl MapView {
    /// All of Ireland, where there is nothing to fit.
    pub fn ireland() -> (r: MapView)
        ensures
            r.lat@ == "53.35"@,
            r.lng@ == "-6.26"@,
            r.zoom == 7,
    {
        MapView { lat: copy_of("53.35"), lng: copy_of("-6.26"), zoom: 7 }
    }
}

/// The pins of the first places, up to the limit.
pub open spec fn pins_text(points: Seq<Point>) -> Seq<char>
    decreases points.len(),
{
    if points.len() == 0 {
        Seq::empty()
    } else if points.len() > MAX_MARKERS {
        pins_text(points.drop_last())
    } else {
        pins_text(points.drop_last()) + "|"@ + points.last().lat.text@ + ","@
            + points.last().lng.text@
    }
}

/// The address of an image: what it shows, its size in pixels, a small red pin
/// for each listing, a blue one for the work point, and the key.
pub open spec fn map_text(
    listings: Seq<Point>,
    work_point: Option<Point>,
    view: MapView,
    width: int,
    height: int,
    api_key: Seq<char>,
) -> Seq<char> {
    let red = "https://maps.googleapis.com/maps/api/staticmap?center="@ + view.lat@ + ","@
        + view.lng@ + "&zoom="@ + decimal_text(view.zoom as int) + "&size="@ + decimal_text(width)
        + "x"@ + decimal_text(height) + "&maptype=roadmap&markers=color:red|size:small"@
        + pins_text(listings);
    let blue = match work_point {
        Some(p) => red + "&markers=color:blue|label:W|"@ + p.lat.text@ + ","@ + p.lng.text@,
        None => red,
    };
    blue + "&key="@ + api_key
}

/// The pins of the first places, up to the limit.
fn pins(points: &Vec<Point>) -> (r: String)
    ensures
        r@ == pins_text(points@),
{
    let mut out = String::new();
    for i in 0..points.len()
        invariant
            out@ == pins_text(points@.take(i as int)),
    {
        proof {
            assert(points@.take(i + 1).drop_last() =~= points@.take(i as int));
        }
        if i < MAX_MARKERS {
            out.append("|");
            out.append(points[i].lat.text.as_str());
            out.append(",");
            out.append(points[i].lng.text.as_str());
        }
    }
    assert(points@.take(points@.len() as int) =~= points@);
    out
}

/// The address of an image of the listings and the work point; none where there
/// is no key, which the service asks for.
pub fn build_url(
    listings: &Vec<Point>,
    work_point: Option<&Point>,
    view: &MapView,
    width: u32,
    height: u32,
    api_key: &str,
) -> (r: Option<String>)
    ensures
        match r {
            Some(url) => api_key@.len() > 0 && url@ == map_text(
                listings@,
                match work_point {
                    Some(p) => Some(*p),
                    None => None,
                },
                *view,
                width as int,
                height as int,
                api_key@,
            ),
            None => api_key@.len() == 0,
        },
{
    if api_key.is_empty() {
        return None;
    }
    let mut url = String::new();
    url.append("https://maps.googleapis.com/maps/api/staticmap?center=");
    assert(url@ =~= "https://maps.googleapis.com/maps/api/staticmap?center="@);
    url.append(view.lat.as_str());
    url.append(",");
    url.append(view.lng.as_str());
    url.append("&zoom=");
    push_decimal(&mut url, view.zoom as u64);
    url.append("&size=");
    push_decimal(&mut url, width as u64);
    url.append("x");
    push_decimal(&mut url, height as u64);
    url.append("&maptype=roadmap&markers=color:red|size:small");
    url.append(pins(listings).as_str());
    match work_point {
        Some(p) => {
            url.append("&markers=color:blue|label:W|");
            url.append(p.lat.text.as_str());
            url.append(",");
            url.append(p.lng.text.as_str());
        },
        None => {},
    }
    url.append("&key=");
    url.append(api_key);
    Some(url)
}

/// Listings beyond the limit get no pin.
pub proof fn law_pins_are_limited(points: Seq<Point>)
    requires
        points.len() > MAX_MARKERS,
    ensures
        pins_text(points) == pins_text(points.take(MAX_MARKERS as int)),
    decreases points.len(),
{
    let front = points.drop_last();
    if front.len() > MAX_MARKERS {
        law_pins_are_limited(front);
        assert(front.take(MAX_MARKERS as int) =~= points.take(MAX_MARKERS as int));
    } else {
        assert(front =~= points.take(MAX_MARKERS as int));
    }
}

/// The pins of places, up to the limit, are those of each place one after another.
pub proof fn law_pins_go_place_by_place(points: Seq<Point>, p: Point)
    requires
        points.len() < 50,
    ensures
        pins_text(points.push(p)) == pins_text(points) + "|"@ + p.lat.text@ + ","@ + p.lng.text@,
        pins_text(Seq::empty()) == Seq::<char>::empty(),
{
    assert(points.push(p).drop_last() =~= points);
}

proof fn lemma_five_as_two(a: Seq<char>, b: Seq<char>, c: Seq<char>, d: Seq<char>, e: Seq<char>)
    ensures
        a + b + c + d + e == a + (b + c + d + e),
{
    assert(a + b + c + d + e =~= a + (b + c + d + e));
}

proof fn lemma_pin_is_there(points: Seq<Point>, i: int)
    requires
        0 <= i < points.len(),
        i < MAX_MARKERS,
    ensures
        has(pins_text(points), "|"@ + points[i].lat.text@ + ","@ + points[i].lng.text@),
    decreases points.len(),
{
    let q = "|"@ + points[i].lat.text@ + ","@ + points[i].lng.text@;
    let front = points.drop_last();
    let last = "|"@ + points.last().lat.text@ + ","@ + points.last().lng.text@;
    lemma_five_as_two(
        pins_text(front),
        "|"@,
        points.last().lat.text@,
        ","@,
        points.last().lng.text@,
    );
    if i < points.len() - 1 {
        lemma_pin_is_there(front, i);
    }
    lemma_has_itself(last);
    if points.len() <= MAX_MARKERS {
        lemma_has_either(pins_text(front), last, q);
    }
}

proof fn lemma_map_parts(
    listings: Seq<Point>,
    work_point: Option<Point>,
    view: MapView,
    width: int,
    height: int,
    api_key: Seq<char>,
    head: Seq<char>,
    work: Seq<char>,
)
    requires
        head == "https://maps.googleapis.com/maps/api/staticmap?center="@ + view.lat@ + ","@
            + view.lng@ + "&zoom="@ + decimal_text(view.zoom as int) + "&size="@ + decimal_text(
            width,
        ) + "x"@ + decimal_text(height) + "&maptype=roadmap&markers=color:red|size:small"@,
        work_point matches Some(p) ==> work == "&markers=color:blue|label:W|"@ + p.lat.text@ + ","@
            + p.lng.text@,
        work_point is None ==> work == Seq::<char>::empty(),
    ensures
        map_text(listings, work_point, view, width, height, api_key) == head + pins_text(listings)
            + work + ("&key="@ + api_key),
{
    let red = head + pins_text(listings);
    match work_point {
        Some(p) => {
            lemma_five_as_two(
                red,
                "&markers=color:blue|label:W|"@,
                p.lat.text@,
                ","@,
                p.lng.text@,
            );
        },
        None => {
            lemma_nothing_added(red);
        },
    }
    lemma_three_as_two(red + work, "&key="@, api_key);
}

proof fn lemma_nothing_added(a: Seq<char>)
    ensures
        a + Seq::<char>::empty() == a,
{
    assert(a + Seq::<char>::empty() =~= a);
}

proof fn lemma_three_as_two(a: Seq<char>, b: Seq<char>, c: Seq<char>)
    ensures
        a + b + c == a + (b + c),
{
    assert(a + b + c =~= a + (b + c));
}

proof fn lemma_begins_with_first(a: Seq<char>, b: Seq<char>, c: Seq<char>, d: Seq<char>)
    ensures
        begins(a + b + c + d, a),
{
    let none = Seq::<char>::empty();
    law_has_is_being_made_of(none, a, none, b + c + d);
    assert(a + b + c + d =~= a + (b + c + d));
}

/// A map is centred and zoomed as its view says, of the size that was asked for,
/// and ends with the key.
pub proof fn law_map_shows_its_view(
    listings: Seq<Point>,
    work_point: Option<Point>,
    view: MapView,
    width: int,
    height: int,
    api_key: Seq<char>,
)
    ensures
        begins(
            map_text(listings, work_point, view, width, height, api_key),
            "https://maps.googleapis.com/maps/api/staticmap?center="@ + view.lat@ + ","@ + view.lng@
                + "&zoom="@ + decimal_text(view.zoom as int) + "&size="@ + decimal_text(width)
                + "x"@ + decimal_text(height) + "&maptype=roadmap&markers=color:red|size:small"@,
        ),
        exists|a: Seq<char>|
            map_text(listings, work_point, view, width, height, api_key) == #[trigger] (a + ("&key="@
                + api_key)),
{
    let head = "https://maps.googleapis.com/maps/api/staticmap?center="@ + view.lat@ + ","@
        + view.lng@ + "&zoom="@ + decimal_text(view.zoom as int) + "&size="@ + decimal_text(width)
        + "x"@ + decimal_text(height) + "&maptype=roadmap&markers=color:red|size:small"@;
    let work = match work_point {
        Some(p) => "&markers=color:blue|label:W|"@ + p.lat.text@ + ","@ + p.lng.text@,
        None => Seq::empty(),
    };
    lemma_map_parts(listings, work_point, view, width, height, api_key, head, work);
    lemma_begins_with_first(head, pins_text(listings), work, "&key="@ + api_key);
}

/// A map has a red pin for each of the first fifty listings.
pub proof fn law_map_shows_its_listings(
    listings: Seq<Point>,
    work_point: Option<Point>,
    view: MapView,
    width: int,
    height: int,
    api_key: Seq<char>,
    i: int,
)
    requires
        0 <= i < listings.len(),
        i < 50,
    ensures
        has(
            map_text(listings, work_point, view, width, height, api_key),
            "|"@ + listings[i].lat.text@ + ","@ + listings[i].lng.text@,
        ),
{
    let head = "https://maps.googleapis.com/maps/api/staticmap?center="@ + view.lat@ + ","@
        + view.lng@ + "&zoom="@ + decimal_text(view.zoom as int) + "&size="@ + decimal_text(width)
        + "x"@ + decimal_text(height) + "&maptype=roadmap&markers=color:red|size:small"@;
    let work = match work_point {
        Some(p) => "&markers=color:blue|label:W|"@ + p.lat.text@ + ","@ + p.lng.text@,
        None => Seq::empty(),
    };
    let q = "|"@ + listings[i].lat.text@ + ","@ + listings[i].lng.text@;
    lemma_map_parts(listings, work_point, view, width, height, api_key, head, work);
    lemma_pin_is_there(listings, i);
    lemma_has_either(head, pins_text(listings), q);
    lemma_has_either(head + pins_text(listings), work, q);
    lemma_has_either(head + pins_text(listings) + work, "&key="@ + api_key, q);
}

/// A map has a blue pin for the work point where there is one.
pub proof fn law_map_shows_the_work_point(
    listings: Seq<Point>,
    p: Point,
    view: MapView,
    width: int,
    height: int,
    api_key: Seq<char>,
)
    ensures
        has(
            map_text(listings, Some(p), view, width, height, api_key),
            "&markers=color:blue|label:W|"@ + p.lat.text@ + ","@ + p.lng.text@,
        ),
{
    let head = "https://maps.googleapis.com/maps/api/staticmap?center="@ + view.lat@ + ","@
        + view.lng@ + "&zoom="@ + decimal_text(view.zoom as int) + "&size="@ + decimal_text(width)
        + "x"@ + decimal_text(height) + "&maptype=roadmap&markers=color:red|size:small"@;
    let work = "&markers=color:blue|label:W|"@ + p.lat.text@ + ","@ + p.lng.text@;
    lemma_map_parts(listings, Some(p), view, width, height, api_key, head, work);
    lemma_has_itself(work);
    lemma_has_either(head + pins_text(listings), work, work);
    lemma_has_either(head + pins_text(listings) + work, "&key="@ + api_key, work);
}

/// All places that a map is to show are the listings, in their order, and then
/// the work point.
pub proof fn law_work_point_is_framed(listings: Seq<Point>, p: Point)
    ensures
        pinned(listings, Some(p)).len() == listings.len() + 1,
        pinned(listings, Some(p)).last() == p,
        pinned(listings, Some(p)).drop_last() == listings,
        pinned(listings, None) == listings,
{
    assert(pinned(listings, Some(p)).drop_last() =~= listings);
}

/// The zoom at which a span fits is one closer for each of the spans of 1, 0.5,
/// 0.2, 0.1, 0.05, 0.02 and 0.01 degrees that it does not exceed, beginning with 8.
pub proof fn law_zoom_by_span(span: u64)
    requires
        !is_nan_bits(span),
    ensures
        ({
            let k = rank_of(span);
            zoom_of(span) == 8 + (if k <= 0x3ff0_0000_0000_0000 {
                1int
            } else {
                0
            }) + (if k <= 0x3fe0_0000_0000_0000 {
                1int
            } else {
                0
            }) + (if k <= 0x3fc9_9999_9999_999a {
                1int
            } else {
                0
            }) + (if k <= 0x3fb9_9999_9999_999a {
                1int
            } else {
                0
            }) + (if k <= 0x3fa9_9999_9999_999a {
                1int
            } else {
                0
            }) + (if k <= 0x3f94_7ae1_47ae_147b {
                1int
            } else {
                0
            }) + (if k <= 0x3f84_7ae1_47ae_147b {
                1int
            } else {
                0
            })
        }),
{
}

/// The least and the greatest coordinates of some places, of which each is a
/// number, have every place between them, and each of them is that of a place.
pub proof fn law_extent_holds_every_place(x: Extent, points: Seq<Point>, i: int)
    requires
        is_least(x.lat_min, lats(points)),
        is_greatest(x.lat_max, lats(points)),
        is_least(x.lng_min, lngs(points)),
        is_greatest(x.lng_max, lngs(points)),
        0 <= i < points.len(),
        forall|j: int|
            0 <= j < points.len() ==> !is_nan_bits((#[trigger] points[j]).lat.bits)
                && !is_nan_bits(points[j].lng.bits),
    ensures
        rank_of(x.lat_min) <= rank_of(points[i].lat.bits) <= rank_of(x.lat_max),
        rank_of(x.lng_min) <= rank_of(points[i].lng.bits) <= rank_of(x.lng_max),
        rank_of(points[i].lat.bits) < 0x7ff0_0000_0000_0000 ==> exists|j: int|
            0 <= j < points.len() && (#[trigger] points[j]).lat.bits == x.lat_min,
        rank_of(points[i].lng.bits) < 0x7ff0_0000_0000_0000 ==> exists|j: int|
            0 <= j < points.len() && (#[trigger] points[j]).lng.bits == x.lng_min,
        rank_of(points[i].lat.bits) > -0x7ff0_0000_0000_0000 ==> exists|j: int|
            0 <= j < points.len() && (#[trigger] points[j]).lat.bits == x.lat_max,
        rank_of(points[i].lng.bits) > -0x7ff0_0000_0000_0000 ==> exists|j: int|
            0 <= j < points.len() && (#[trigger] points[j]).lng.bits == x.lng_max,
{
    let a = lats(points);
    let b = lngs(points);
    assert(a[i] == points[i].lat.bits && b[i] == points[i].lng.bits);
    assert(!is_nan_bits(a[i]) && !is_nan_bits(b[i]));
    lemma_infinity_ranks();
    if rank_of(a[i]) < 0x7ff0_0000_0000_0000 {
        let j = choose|j: int| 0 <= j < a.len() && a[j] == x.lat_min;
        assert(points[j].lat.bits == x.lat_min);
    }
    if rank_of(b[i]) < 0x7ff0_0000_0000_0000 {
        let j = choose|j: int| 0 <= j < b.len() && b[j] == x.lng_min;
        assert(points[j].lng.bits == x.lng_min);
    }
    if rank_of(a[i]) > -0x7ff0_0000_0000_0000 {
        let j = choose|j: int| 0 <= j < a.len() && a[j] == x.lat_max;
        assert(points[j].lat.bits == x.lat_max);
    }
    if rank_of(b[i]) > -0x7ff0_0000_0000_0000 {
        let j = choose|j: int| 0 <= j < b.len() && b[j] == x.lng_max;
        assert(points[j].lng.bits == x.lng_max);
    }
}

proof fn lemma_infinity_ranks()
    ensures
        rank_of(INFINITY_BITS) == 0x7ff0_0000_0000_0000,
        rank_of(NEGATIVE_INFINITY_BITS) == -0x7ff0_0000_0000_0000,
{
}

} // verus!
