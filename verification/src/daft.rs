//! Searches on daft.ie: the query that a search page's address stands for, what
//! is asked of the gateway, and the listings in its replies.

use vstd::prelude::*;

use crate::geo::Degrees;
use crate::json::{array_of, law_entry_is_the_first, object_of, Json, JsonView};
use crate::link::{split_url, url_parts, UrlParts};
use crate::number::{
    all_digits, decimal, decimal_text, is_ascii_digit, is_digit, law_decimal_text_writes_its_number,
    law_thousands_are_grouped, law_thousands_text_without_commas, parse_u32, thousands_text,
    value_up_to, without_commas,
};
use crate::text::{
    chars_of, contains, copy_of, has, lowercase, same, stands_at, to_lowercase, views,
};

verus! {

/// A search. `section` is the gateway's name of it, which is not always the one
/// in the address; `property_type` is the optional third segment of the path.
#[derive(Clone, Debug)]
pub struct DaftQuery {
    pub area_slug: String,
    pub section: String,
    pub property_type: Option<String>,
    pub rental_price_from: Option<u32>,
    pub rental_price_to: Option<u32>,
}

/// What a search holds.
#[verifier::ext_equal]
pub struct QueryView {
    pub area_slug: Seq<char>,
    pub section: Seq<char>,
    pub property_type: Option<Seq<char>>,
    pub rental_price_from: Option<u32>,
    pub rental_price_to: Option<u32>,
}

/// The characters of an optional string.
pub open spec fn opt_view(s: Option<String>) -> Option<Seq<char>> {
    match s {
        Some(t) => Some(t@),
        None => None,
    }
}

impl View for DaftQuery {
    type V = QueryView;

    open spec fn view(&self) -> QueryView {
        QueryView {
            area_slug: self.area_slug@,
            section: self.section@,
            property_type: opt_view(self.property_type),
            rental_price_from: self.rental_price_from,
            rental_price_to: self.rental_price_to,
        }
    }
}

/// Why an address stands for no search.
#[derive(Debug)]
pub enum UrlError {
    /// It is no web address.
    Invalid(url::ParseError),
    /// It names no section.
    EmptyPath,
    /// It names a section and no area.
    MissingArea,
}

impl UrlError {
    /// The message of this error.
    pub open spec fn text(self) -> Seq<char> {
        match self {
            UrlError::Invalid(_) => "invalid URL"@,
            UrlError::EmptyPath => "URL path is empty (expected /<section>/<area>)"@,
            UrlError::MissingArea => "URL path missing area slug"@,
        }
    }

    /// The message of this error.
    pub fn message(&self) -> (r: &'static str)
        ensures
            r@ == self.text(),
    {
        match self {
            UrlError::Invalid(_) => "invalid URL",
            UrlError::EmptyPath => "URL path is empty (expected /<section>/<area>)",
            UrlError::MissingArea => "URL path missing area slug",
        }
    }
}

/// The gateway's name of a section in an address; one that it does not rename
/// stays as it is.
pub open spec fn api_section(s: Seq<char>) -> Seq<char> {
    if s == "property-for-rent"@ {
        "residential-to-rent"@
    } else if s == "property-for-sale"@ {
        "residential-for-sale"@
    } else if s == "new-homes-for-sale"@ {
        "new-homes-for-sale"@
    } else if s == "commercial-property-for-rent"@ || s == "commercial-properties-for-rent"@ {
        "commercial-to-rent"@
    } else if s == "commercial-property-for-sale"@ || s == "commercial-properties-for-sale"@ {
        "commercial-for-sale"@
    } else if s == "student-accommodation"@ {
        "student-accommodation"@
    } else if s == "short-term-rentals"@ {
        "short-term"@
    } else {
        s
    }
}

/// The gateway's name of a section in an address; one that it does not rename
/// stays as it is.
pub fn map_url_section_to_api<'a>(url_section: &'a str) -> (r: &'a str)
    ensures
        r@ == api_section(url_section@),
{
    if same(url_section, "property-for-rent") {
        "residential-to-rent"
    } else if same(url_section, "property-for-sale") {
        "residential-for-sale"
    } else if same(url_section, "new-homes-for-sale") {
        "new-homes-for-sale"
    } else if same(url_section, "commercial-property-for-rent") || same(
        url_section,
        "commercial-properties-for-rent",
    ) {
        "commercial-to-rent"
    } else if same(url_section, "commercial-property-for-sale") || same(
        url_section,
        "commercial-properties-for-sale",
    ) {
        "commercial-for-sale"
    } else if same(url_section, "student-accommodation") {
        "student-accommodation"
    } else if same(url_section, "short-term-rentals") {
        "short-term"
    } else {
        url_section
    }
}

/// The segments that are not empty.
pub open spec fn named_segments(path: Option<Seq<Seq<char>>>) -> Seq<Seq<char>> {
    match path {
        Some(segments) => segments.filter(|s: Seq<char>| s.len() > 0),
        None => Seq::empty(),
    }
}

/// The value of the last pair with a key, as a price; none where there is no
/// such pair or its value is no price.
pub open spec fn price_param(pairs: Seq<(Seq<char>, Seq<char>)>, key: Seq<char>) -> Option<u32>
    decreases pairs.len(),
{
    if pairs.len() == 0 {
        None
    } else if pairs.last().0 == key {
        match value_up_to(pairs.last().1, u32::MAX as int) {
            Some(v) => Some(v as u32),
            None => None,
        }
    } else {
        price_param(pairs.drop_last(), key)
    }
}

/// The search that the parts of an address stand for: its section, its area and
/// optionally its kind of property from the path, its bounds from the query.
pub open spec fn search_of(
    path: Option<Seq<Seq<char>>>,
    pairs: Seq<(Seq<char>, Seq<char>)>,
) -> QueryView {
    let named = named_segments(path);
    QueryView {
        area_slug: named[1],
        section: api_section(named[0]),
        property_type: if named.len() > 2 {
            Some(named[2])
        } else {
            None
        },
        rental_price_from: price_param(pairs, "rentalPrice_from"@),
        rental_price_to: price_param(pairs, "rentalPrice_to"@),
    }
}

/// The message of the reason why an address stands for no search; none where it
/// stands for one.
pub open spec fn url_fault(url: Seq<char>) -> Option<Seq<char>> {
    match url_parts(url) {
        None => Some("invalid URL"@),
        Some((path, _)) => if named_segments(path).len() == 0 {
            Some("URL path is empty (expected /<section>/<area>)"@)
        } else if named_segments(path).len() == 1 {
            Some("URL path missing area slug"@)
        } else {
            None
        },
    }
}

proof fn lemma_filter_push<A>(s: Seq<A>, x: A, p: spec_fn(A) -> bool)
    ensures
        s.push(x).filter(p) == (if p(x) {
            s.filter(p).push(x)
        } else {
            s.filter(p)
        }),
{
    reveal(Seq::filter);
    assert(s.push(x).drop_last() =~= s);
}

impl DaftQuery {
    /// The search that the parts of an address stand for.
    pub fn from_parts(parts: &UrlParts) -> (r: Result<DaftQuery, UrlError>)
        ensures
            match r {
                Ok(q) => named_segments(parts.path()).len() >= 2 && q@ == search_of(
                    parts.path(),
                    parts.query(),
                ),
                Err(UrlError::Invalid(_)) => false,
                Err(UrlError::EmptyPath) => named_segments(parts.path()).len() == 0,
                Err(UrlError::MissingArea) => named_segments(parts.path()).len() == 1,
            },
    {
        let ghost p = |s: Seq<char>| s.len() > 0;
        let mut named: Vec<String> = Vec::new();
        match &parts.segments {
            Some(segments) => {
                assert(views(segments@).take(0).filter(p) =~= Seq::<Seq<char>>::empty()) by {
                    reveal(Seq::filter);
                }
                assert(views(named@) =~= views(segments@).take(0).filter(p));
                for i in 0..segments.len()
                    invariant
                        p == |s: Seq<char>| s.len() > 0,
                        views(named@) == views(segments@).take(i as int).filter(p),
                {
                    let ghost v = views(segments@);
                    proof {
                        lemma_filter_push(v.take(i as int), v[i as int], p);
                        assert(v.take(i as int).push(v[i as int]) =~= v.take(i + 1));
                    }
                    if !segments[i].as_str().is_empty() {
                        let ghost before = named@;
                        named.push(segments[i].clone());
                        assert(views(named@) =~= views(before).push(v[i as int]));
                    }
                }
                assert(views(segments@).take(segments@.len() as int) =~= views(segments@));
            },
            None => {},
        }
        assert(views(named@) =~= named_segments(parts.path()));
        assert(forall|i: int| 0 <= i < named@.len() ==> views(named@)[i] == named@[i]@);
        if named.len() == 0 {
            return Err(UrlError::EmptyPath);
        }
        if named.len() == 1 {
            return Err(UrlError::MissingArea);
        }
        let section = copy_of(map_url_section_to_api(named[0].as_str()));
        let area_slug = named[1].clone();
        let property_type = if named.len() > 2 {
            Some(named[2].clone())
        } else {
            None
        };
        let mut rental_price_from: Option<u32> = None;
        let mut rental_price_to: Option<u32> = None;
        for i in 0..parts.pairs.len()
            invariant
                rental_price_from == price_param(
                    parts.query().take(i as int),
                    "rentalPrice_from"@,
                ),
                rental_price_to == price_param(parts.query().take(i as int), "rentalPrice_to"@),
        {
            let ghost pre = parts.query().take(i + 1);
            assert(pre.drop_last() =~= parts.query().take(i as int));
            assert(pre.last() == (parts.pairs@[i as int].0@, parts.pairs@[i as int].1@));
            proof {
                lemma_price_names_differ();
            }
            if same(parts.pairs[i].0.as_str(), "rentalPrice_from") {
                rental_price_from = parse_u32(parts.pairs[i].1.as_str());
            } else if same(parts.pairs[i].0.as_str(), "rentalPrice_to") {
                rental_price_to = parse_u32(parts.pairs[i].1.as_str());
            }
        }
        assert(parts.query().take(parts.pairs@.len() as int) =~= parts.query());
        Ok(DaftQuery { area_slug, section, property_type, rental_price_from, rental_price_to })
    }

    /// The search that the address of a search page stands for.
    pub fn parse_url(url_str: &str) -> (r: Result<DaftQuery, UrlError>)
        ensures
            match url_parts(url_str@) {
                Some((path, pairs)) => match r {
                    Ok(q) => named_segments(path).len() >= 2 && q@ == search_of(path, pairs),
                    Err(UrlError::Invalid(_)) => false,
                    Err(UrlError::EmptyPath) => named_segments(path).len() == 0,
                    Err(UrlError::MissingArea) => named_segments(path).len() == 1,
                },
                None => r matches Err(UrlError::Invalid(_)),
            },
            url_fault(url_str@) == (match r {
                Ok(_) => None::<Seq<char>>,
                Err(e) => Some(e.text()),
            }),
    {
        match split_url(url_str) {
            Ok(parts) => DaftQuery::from_parts(&parts),
            Err(e) => Err(UrlError::Invalid(e)),
        }
    }
}

proof fn lemma_price_names_differ()
    ensures
        "rentalPrice_from"@ != "rentalPrice_to"@,
{
    reveal_strlit("rentalPrice_from");
    reveal_strlit("rentalPrice_to");
    assert("rentalPrice_from"@.len() != "rentalPrice_to"@.len());
}

/// A text from its first digit on.
pub open spec fn from_first_digit(s: Seq<char>) -> Seq<char>
    decreases s.len(),
{
    if s.len() == 0 || is_digit(s[0]) {
        s
    } else {
        from_first_digit(s.skip(1))
    }
}

/// The digits at the beginning of a text, over the commas among them.
pub open spec fn digits_over_commas(s: Seq<char>) -> Seq<char>
    decreases s.len(),
{
    if s.len() > 0 && is_digit(s[0]) {
        seq![s[0]] + digits_over_commas(s.skip(1))
    } else if s.len() > 0 && s[0] == ',' {
        digits_over_commas(s.skip(1))
    } else {
        Seq::empty()
    }
}

/// The first number in the text of a price; its thousands may be set off by
/// commas.
pub open spec fn price_number(price: Seq<char>) -> Option<int> {
    value_up_to(digits_over_commas(from_first_digit(price)), u32::MAX as int)
}

/// Whether the text of a price is about a week.
pub open spec fn is_weekly(price: Seq<char>) -> bool {
    has(lowercase(price), "week"@)
}

/// The price for a month: four times the number of a price for a week.
pub open spec fn monthly_price(price: Seq<char>) -> Option<int> {
    match price_number(price) {
        Some(n) => Some(
            if is_weekly(price) {
                n * 4
            } else {
                n
            },
        ),
        None => None,
    }
}

/// Whether the price for a month, where there is one, fits its type.
pub open spec fn monthly_price_fits(price: Seq<char>) -> bool {
    monthly_price(price) matches Some(n) ==> n <= u32::MAX
}

/// The first number in the text of a price.
fn parse_price_number(price: &str) -> (r: Option<u32>)
    ensures
        price_number(price@) == (match r {
            Some(n) => Some(n as int),
            None => None::<int>,
        }),
{
    let cs = chars_of(price);
    let n: usize = cs.len();
    let mut i: usize = 0;
    assert(cs@.skip(0) =~= cs@);
    while i < n && !is_ascii_digit(cs[i])
        invariant
            i <= n,
            n == cs@.len(),
            from_first_digit(cs@.skip(i as int)) == from_first_digit(cs@),
        decreases n - i,
    {
        assert(cs@.skip(i as int)[0] == cs@[i as int]);
        assert(cs@.skip(i as int).skip(1) =~= cs@.skip(i + 1));
        i = i + 1;
    }
    let ghost tail = cs@.skip(i as int);
    assert(from_first_digit(cs@) == tail) by {
        if i < n {
            assert(tail[0] == cs@[i as int]);
        }
    }
    let mut digits = String::new();
    assert(digits@ + digits_over_commas(tail) =~= digits_over_commas(tail));
    while i < n && (is_ascii_digit(cs[i]) || cs[i] == ',')
        invariant
            i <= n,
            n == cs@.len(),
            digits@ + digits_over_commas(cs@.skip(i as int)) == digits_over_commas(tail),
        decreases n - i,
    {
        let ghost rest = cs@.skip(i as int);
        let ghost before = digits@;
        assert(rest[0] == cs@[i as int]);
        assert(rest.skip(1) =~= cs@.skip(i + 1));
        if cs[i] != ',' {
            digits.push(cs[i]);
            assert(digits@ + digits_over_commas(rest.skip(1)) =~= before + digits_over_commas(
                rest,
            ));
        }
        i = i + 1;
    }
    proof {
        let rest = cs@.skip(i as int);
        if i < n {
            assert(rest[0] == cs@[i as int]);
        }
        assert(digits_over_commas(rest) =~= Seq::<char>::empty());
        assert(digits@ =~= digits_over_commas(tail));
    }
    parse_u32(digits.as_str())
}

/// The price for a month out of the number of a price and whether it is for a
/// week.
pub fn monthly_of(number: Option<u32>, weekly: bool) -> (r: Option<u32>)
    requires
        weekly && number is Some ==> number->0 * 4 <= u32::MAX,
    ensures
        r == (match number {
            Some(n) => Some(
                if weekly {
                    (n * 4) as u32
                } else {
                    n
                },
            ),
            None => None,
        }),
{
    match number {
        Some(n) => if weekly {
            Some(n * 4)
        } else {
            Some(n)
        },
        None => None,
    }
}

/// The price for a month that the text of a price gives.
pub fn parse_price_monthly(price: &str) -> (r: Option<u32>)
    requires
        monthly_price_fits(price@),
    ensures
        monthly_price(price@) == (match r {
            Some(n) => Some(n as int),
            None => None::<int>,
        }),
{
    let lower = to_lowercase(price);
    monthly_of(parse_price_number(price), contains(lower.as_str(), "week"))
}

/// Whether the price for a month, where there is one, fits its type.
pub fn price_is_in_range(price: &str) -> (r: bool)
    ensures
        r == monthly_price_fits(price@),
{
    match parse_price_number(price) {
        Some(n) => {
            let lower = to_lowercase(price);
            !contains(lower.as_str(), "week") || n <= u32::MAX / 4
        },
        None => true,
    }
}

/// A listing.
#[derive(Clone, Debug)]
pub struct Listing {
    pub id: u64,
    pub title: String,
    pub price: Option<String>,
    pub price_monthly: Option<u32>,
    pub bedrooms: Option<String>,
    pub property_type: Option<String>,
    pub category: Option<String>,
    pub ber_rating: Option<String>,
    pub publish_date: Option<i64>,
    pub seller_name: Option<String>,
    pub seller_phone: Option<String>,
    pub lat: Option<Degrees>,
    pub lng: Option<Degrees>,
    pub url: String,
    pub images: Vec<String>,
    pub facilities: Vec<String>,
}

/// A listing as the gateway sends it.
#[derive(Debug)]
pub struct ApiListing {
    pub id: u64,
    pub title: String,
    pub price: Option<String>,
    pub num_bedrooms: Option<String>,
    pub property_type: Option<String>,
    pub category: Option<String>,
    pub publish_date: Option<i64>,
    pub ber: Option<ApiBer>,
    pub seller: Option<ApiSeller>,
    pub point: Option<ApiPoint>,
    pub media: Option<ApiMedia>,
    pub seo_friendly_path: Option<String>,
    pub facilities: Vec<ApiFacility>,
}

#[derive(Debug)]
pub struct ApiFacility {
    pub name: String,
}

#[derive(Debug)]
pub struct ApiBer {
    pub rating: Option<String>,
}

#[derive(Debug)]
pub struct ApiSeller {
    pub name: Option<String>,
    pub phone: Option<String>,
}

/// A place: its longitude, then its latitude.
#[derive(Debug)]
pub struct ApiPoint {
    pub coordinates: Option<Vec<Degrees>>,
}

#[derive(Debug)]
pub struct ApiMedia {
    pub images: Vec<ApiImage>,
}

#[derive(Debug)]
pub struct ApiImage {
    pub size_720x480: Option<String>,
    pub size_600x600: Option<String>,
}

/// The latitude and the longitude of a listing, where both are given.
pub open spec fn place_of(point: Option<ApiPoint>) -> (Option<Degrees>, Option<Degrees>) {
    match point {
        Some(p) => match p.coordinates {
            Some(c) => if c@.len() >= 2 {
                (Some(c@[1]), Some(c@[0]))
            } else {
                (None, None)
            },
            None => (None, None),
        },
        None => (None, None),
    }
}

/// The address of an image: the larger one, or else the square one.
pub open spec fn image_of(image: ApiImage) -> Option<String> {
    match image.size_720x480 {
        Some(u) => Some(u),
        None => image.size_600x600,
    }
}

/// The addresses of images, over those that have none.
pub open spec fn images_of(images: Seq<ApiImage>) -> Seq<String>
    decreases images.len(),
{
    if images.len() == 0 {
        Seq::empty()
    } else {
        match image_of(images.last()) {
            Some(u) => images_of(images.drop_last()).push(u),
            None => images_of(images.drop_last()),
        }
    }
}

/// The address of a listing's page: by its path, or else by its number.
pub open spec fn page_of(path: Option<String>, id: u64) -> Seq<char> {
    match path {
        Some(p) => "https://www.daft.ie"@ + p@,
        None => "https://www.daft.ie/share/"@ + decimal_text(id as int),
    }
}

/// The price for a month that an optional text gives.
pub open spec fn opt_monthly_price(price: Option<String>) -> Option<int> {
    match price {
        Some(p) => monthly_price(p@),
        None => None,
    }
}

/// Whether the price for a month of a listing, where there is one, fits its
/// type.
pub open spec fn listing_fits(api: ApiListing) -> bool {
    api.price matches Some(p) ==> monthly_price_fits(p@)
}

/// Whether a listing is the one that the gateway sent.
pub open spec fn is_listing_of(l: Listing, api: ApiListing) -> bool {
    &&& l.id == api.id
    &&& l.title == api.title
    &&& l.price == api.price
    &&& opt_monthly_price(api.price) == (match l.price_monthly {
        Some(n) => Some(n as int),
        None => None::<int>,
    })
    &&& l.bedrooms == api.num_bedrooms
    &&& l.property_type == api.property_type
    &&& l.category == api.category
    &&& l.ber_rating == (match api.ber {
        Some(b) => b.rating,
        None => None,
    })
    &&& l.publish_date == api.publish_date
    &&& l.seller_name == (match api.seller {
        Some(s) => s.name,
        None => None,
    })
    &&& l.seller_phone == (match api.seller {
        Some(s) => s.phone,
        None => None,
    })
    &&& (l.lat, l.lng) == place_of(api.point)
    &&& l.url@ == page_of(api.seo_friendly_path, api.id)
    &&& l.images@ == (match api.media {
        Some(m) => images_of(m.images@),
        None => Seq::empty(),
    })
    &&& l.facilities@ == api.facilities@.map_values(|f: ApiFacility| f.name)
}

/// The addresses of images, over those that have none.
fn image_urls(images: &Vec<ApiImage>) -> (r: Vec<String>)
    ensures
        r@ == images_of(images@),
{
    let mut out: Vec<String> = Vec::new();
    for i in 0..images.len()
        invariant
            out@ == images_of(images@.take(i as int)),
    {
        proof {
            assert(images@.take(i + 1).drop_last() =~= images@.take(i as int));
        }
        match &images[i].size_720x480 {
            Some(u) => {
                out.push(u.clone());
            },
            None => match &images[i].size_600x600 {
                Some(u) => {
                    out.push(u.clone());
                },
                None => {},
            },
        }
    }
    assert(images@.take(images@.len() as int) =~= images@);
    out
}

/// The listing that the gateway sent.
pub fn convert(api: ApiListing) -> (r: Listing)
    requires
        listing_fits(api),
    ensures
        is_listing_of(r, api),
{
    let (lat, lng) = match &api.point {
        Some(p) => match &p.coordinates {
            Some(c) => if c.len() >= 2 {
                (Some(c[1].clone()), Some(c[0].clone()))
            } else {
                (None, None)
            },
            None => (None, None),
        },
        None => (None, None),
    };
    let images = match &api.media {
        Some(m) => image_urls(&m.images),
        None => Vec::new(),
    };
    let mut url = String::new();
    match &api.seo_friendly_path {
        Some(p) => {
            url.append("https://www.daft.ie");
            url.append(p.as_str());
            assert(url@ =~= "https://www.daft.ie"@ + p@);
        },
        None => {
            let id = decimal(api.id);
            url.append("https://www.daft.ie/share/");
            url.append(id.as_str());
            assert(url@ =~= "https://www.daft.ie/share/"@ + id@);
        },
    }
    let price_monthly = match &api.price {
        Some(p) => parse_price_monthly(p.as_str()),
        None => None,
    };
    let mut facilities: Vec<String> = Vec::new();
    for i in 0..api.facilities.len()
        invariant
            facilities@ == api.facilities@.take(i as int).map_values(|f: ApiFacility| f.name),
    {
        facilities.push(api.facilities[i].name.clone());
        assert(facilities@ =~= api.facilities@.take(i + 1).map_values(|f: ApiFacility| f.name));
    }
    assert(api.facilities@.take(api.facilities@.len() as int) =~= api.facilities@);
    let (seller_name, seller_phone) = match api.seller {
        Some(s) => (s.name, s.phone),
        None => (None, None),
    };
    let ber_rating = match api.ber {
        Some(b) => b.rating,
        None => None,
    };
    Listing {
        id: api.id,
        title: api.title,
        price: api.price,
        price_monthly,
        bedrooms: api.num_bedrooms,
        property_type: api.property_type,
        category: api.category,
        ber_rating,
        publish_date: api.publish_date,
        seller_name,
        seller_phone,
        lat,
        lng,
        url,
        images,
        facilities,
    }
}

/// How many pages of a search are fetched for a check or a map.
pub const MAX_PAGES: u32 = 10;

/// How many listings are asked for at a time.
pub const PAGE_SIZE: u32 = 20;

/// An entry of an object with a text.
pub open spec fn text_entry(key: Seq<char>, value: Seq<char>) -> (Seq<char>, JsonView) {
    (key, JsonView::Text(value))
}

/// A filter of the gateway: a name and the one value that it admits.
pub open spec fn filter_view(name: Seq<char>, value: Seq<char>) -> JsonView {
    JsonView::Object(
        seq![
            text_entry("name"@, name),
            ("values"@, JsonView::Array(seq![JsonView::Text(value)])),
        ],
    )
}

/// The filters of a search: published listings, and those of the kind of
/// property that it names.
pub open spec fn filters_view(query: QueryView) -> Seq<JsonView> {
    let published = seq![filter_view("adState"@, "published"@)];
    match query.property_type {
        Some(t) => published.push(filter_view("propertyType"@, t)),
        None => published,
    }
}

/// The body of the request for the listings of a search from a position on.
pub open spec fn request_view(query: QueryView, from: int) -> JsonView {
    JsonView::Object(
        seq![
            text_entry("section"@, query.section),
            ("filters"@, JsonView::Array(filters_view(query))),
            ("andFilters"@, JsonView::Array(Seq::empty())),
            ("ranges"@, JsonView::Array(Seq::empty())),
            (
                "paging"@,
                JsonView::Object(
                    seq![
                        text_entry("from"@, decimal_text(from)),
                        text_entry("pageSize"@, decimal_text(PAGE_SIZE as int)),
                    ],
                ),
            ),
            (
                "geoFilter"@,
                JsonView::Object(
                    seq![
                        ("storedShapeIds"@, JsonView::Array(Seq::empty())),
                        text_entry("geoSearchType"@, "STORED_SHAPES"@),
                    ],
                ),
            ),
            text_entry("terms"@, query.area_slug),
        ],
    )
}

/// A filter of the gateway: a name and the one value that it admits.
fn filter_json(name: &str, value: &str) -> (r: Json)
    ensures
        r@ == filter_view(name@, value@),
{
    let values = array_of(vec![Json::Text(copy_of(value))]);
    assert(values@->Array_0 =~= seq![JsonView::Text(value@)]);
    let r = object_of(
        vec![(copy_of("name"), Json::Text(copy_of(name))), (copy_of("values"), values)],
    );
    assert(r@->Object_0 =~= filter_view(name@, value@)->Object_0);
    r
}

/// The body of the request for the listings of a search from a position on.
pub fn page_request(query: &DaftQuery, from: u32) -> (r: Json)
    ensures
        r@ == request_view(query@, from as int),
{
    let published = filter_json("adState", "published");
    let filters = match &query.property_type {
        Some(t) => {
            let kind = filter_json("propertyType", t.as_str());
            array_of(vec![published, kind])
        },
        None => array_of(vec![published]),
    };
    assert(filters@->Array_0 =~= filters_view(query@));
    let none1 = array_of(Vec::new());
    assert(none1@->Array_0 =~= Seq::<JsonView>::empty());
    let none2 = array_of(Vec::new());
    assert(none2@->Array_0 =~= Seq::<JsonView>::empty());
    let none3 = array_of(Vec::new());
    assert(none3@->Array_0 =~= Seq::<JsonView>::empty());
    let paging = object_of(
        vec![
            (copy_of("from"), Json::Text(decimal(from as u64))),
            (copy_of("pageSize"), Json::Text(decimal(PAGE_SIZE as u64))),
        ],
    );
    assert(paging@->Object_0 =~= seq![
        text_entry("from"@, decimal_text(from as int)),
        text_entry("pageSize"@, decimal_text(PAGE_SIZE as int)),
    ]);
    let geo = object_of(
        vec![
            (copy_of("storedShapeIds"), none3),
            (copy_of("geoSearchType"), Json::Text(copy_of("STORED_SHAPES"))),
        ],
    );
    assert(geo@->Object_0 =~= seq![
        ("storedShapeIds"@, JsonView::Array(Seq::empty())),
        text_entry("geoSearchType"@, "STORED_SHAPES"@),
    ]);
    let r = object_of(
        vec![
            (copy_of("section"), Json::Text(copy_of(query.section.as_str()))),
            (copy_of("filters"), filters),
            (copy_of("andFilters"), none1),
            (copy_of("ranges"), none2),
            (copy_of("paging"), paging),
            (copy_of("geoFilter"), geo),
            (copy_of("terms"), Json::Text(copy_of(query.area_slug.as_str()))),
        ],
    );
    assert(r@->Object_0 =~= request_view(query@, from as int)->Object_0);
    r
}

/// Whether a price for a month is within the bounds of a search; one that is
/// not known is.
pub open spec fn within_bounds(query: QueryView, price: Option<int>) -> bool {
    match price {
        Some(p) => {
            &&& (query.rental_price_from matches Some(lo) ==> lo <= p)
            &&& (query.rental_price_to matches Some(hi) ==> p <= hi)
        },
        None => true,
    }
}

impl DaftQuery {
    /// Whether a price for a month is within the bounds of this search.
    pub fn admits(&self, price_monthly: Option<u32>) -> (r: bool)
        ensures
            r == within_bounds(
                self@,
                match price_monthly {
                    Some(p) => Some(p as int),
                    None => None,
                },
            ),
            r <==> {
                ||| price_monthly is None
                ||| {
                    &&& self.rental_price_from is None || self.rental_price_from->0
                        <= price_monthly->0
                    &&& self.rental_price_to is None || price_monthly->0 <= self.rental_price_to->0
                }
            },
    {
        match price_monthly {
            Some(p) => {
                let above = match self.rental_price_from {
                    Some(lo) => lo <= p,
                    None => true,
                };
                let below = match self.rental_price_to {
                    Some(hi) => p <= hi,
                    None => true,
                };
                above && below
            },
            None => true,
        }
    }
}

/// One reply of the gateway: some listings, how many there are in all, and
/// where the next ones begin.
#[derive(Debug)]
pub struct ApiPage {
    pub listings: Vec<ApiListing>,
    pub total_results: u32,
    pub next_from: u32,
}

/// A search under way: where the next page begins, how many pages have come,
/// and the listings kept of them.
#[derive(Debug)]
pub struct Paging {
    pub from: u32,
    pub pages: u32,
    pub all: Vec<Listing>,
}

/// What to do after a page.
#[derive(Debug, PartialEq, Eq, Structural)]
pub enum PageStep {
    /// Fetch the page that begins at this position.
    Fetch(u32),
    /// The search is over.
    Done,
    /// A number in the page is beyond what can be counted; nothing was taken
    /// of it.
    Overflow,
}

/// The listings that a search keeps.
pub open spec fn kept(query: QueryView, apis: Seq<ApiListing>) -> Seq<ApiListing> {
    apis.filter(|a: ApiListing| within_bounds(query, opt_monthly_price(a.price)))
}

/// Whether listings are those that the gateway sent, one by one.
pub open spec fn are_listings_of(ls: Seq<Listing>, apis: Seq<ApiListing>) -> bool {
    &&& ls.len() == apis.len()
    &&& forall|i: int| 0 <= i < ls.len() ==> is_listing_of(#[trigger] ls[i], apis[i])
}

impl Paging {
    /// Whether all that a page adds can be counted.
    pub open spec fn fits(self, page: ApiPage) -> bool {
        &&& self.from + page.listings@.len() <= u32::MAX
        &&& self.pages < u32::MAX
        &&& forall|i: int|
            0 <= i < page.listings@.len() ==> listing_fits(#[trigger] page.listings@[i])
    }

    /// Whether a page is the last one to fetch: it is empty, it reaches the
    /// end, or as many pages have come as were asked for.
    pub open spec fn is_last(self, max_pages: u32, page: ApiPage) -> bool {
        ||| page.listings@.len() == 0
        ||| self.from + page.listings@.len() >= page.total_results
        ||| max_pages > 0 && self.pages + 1 >= max_pages
    }

    /// Where the page after a page begins: where the gateway says, but never
    /// before the end of the page.
    pub open spec fn next_position(self, page: ApiPage) -> int {
        if page.next_from > self.from + page.listings@.len() {
            page.next_from as int
        } else {
            self.from + page.listings@.len()
        }
    }

    /// A search before its first page, which begins at position 0.
    pub fn new() -> (r: Paging)
        ensures
            r.from == 0,
            r.pages == 0,
            r.all@.len() == 0,
    {
        Paging { from: 0, pages: 0, all: Vec::new() }
    }

    /// Takes in the page that was fetched from `self.from` on: keeps its
    /// listings within the bounds, and tells what to do next. Of `max_pages`, 0
    /// sets no limit.
    pub fn take_page(&mut self, query: &DaftQuery, max_pages: u32, page: ApiPage) -> (r: PageStep)
        ensures
            !old(self).fits(page) ==> r == PageStep::Overflow && *final(self) == *old(self),
            old(self).fits(page) ==> {
                let n = old(self).all@.len() as int;
                &&& final(self).pages == old(self).pages + 1
                &&& final(self).all@.take(n) == old(self).all@
                &&& are_listings_of(final(self).all@.skip(n), kept(query@, page.listings@))
                &&& old(self).is_last(max_pages, page) ==> r == PageStep::Done
                    && final(self).from == old(self).from
                &&& !old(self).is_last(max_pages, page) ==> r == PageStep::Fetch(
                    final(self).from,
                ) && final(self).from == old(self).next_position(page)
            },
    {
        let got: usize = page.listings.len();
        if got > (u32::MAX - self.from) as usize || self.pages == u32::MAX {
            return PageStep::Overflow;
        }
        for i in 0..page.listings.len()
            invariant
                *self == *old(self),
                forall|j: int| 0 <= j < i ==> listing_fits(#[trigger] page.listings@[j]),
        {
            let in_range = match &page.listings[i].price {
                Some(p) => price_is_in_range(p.as_str()),
                None => true,
            };
            if !in_range {
                assert(!listing_fits(page.listings@[i as int]));
                return PageStep::Overflow;
            }
        }
        let got: u32 = got as u32;
        let ghost n = self.all@.len() as int;
        let ghost apis = page.listings@;
        let ghost p = |a: ApiListing| within_bounds(query@, opt_monthly_price(a.price));
        let total: u32 = page.total_results;
        let next_from: u32 = page.next_from;
        assert(apis.take(0).filter(p) =~= Seq::<ApiListing>::empty()) by {
            reveal(Seq::filter);
        }
        let mut all: Vec<Listing> = Vec::new();
        for api in it: page.listings
            invariant
                p == |a: ApiListing| within_bounds(query@, opt_monthly_price(a.price)),
                it.seq() == apis,
                forall|j: int| 0 <= j < apis.len() ==> listing_fits(#[trigger] apis[j]),
                are_listings_of(all@, apis.take(it.index()).filter(p)),
        {
            let ghost i = it.index();
            proof {
                lemma_filter_push(apis.take(i), apis[i], p);
                assert(apis.take(i).push(apis[i]) =~= apis.take(i + 1));
            }
            let l = convert(api);
            if query.admits(l.price_monthly) {
                all.push(l);
            }
        }
        assert(apis.take(apis.len() as int) =~= apis);
        let ghost fresh = all@;
        self.all.append(&mut all);
        assert(self.all@.take(n) =~= old(self).all@);
        assert(self.all@.skip(n) =~= fresh);
        self.pages = self.pages + 1;
        let so_far: u32 = self.from + got;
        if got == 0 || so_far >= total {
            return PageStep::Done;
        }
        if max_pages > 0 && self.pages >= max_pages {
            return PageStep::Done;
        }
        self.from = if next_from > so_far {
            next_from
        } else {
            so_far
        };
        PageStep::Fetch(self.from)
    }
}

/// A search that goes on moves forward, asks only for what lies before the end
/// that the last page told unless the gateway sends it beyond, and has not used
/// up its pages.
pub proof fn law_search_moves_forward(p: Paging, max_pages: u32, page: ApiPage)
    requires
        !p.is_last(max_pages, page),
    ensures
        p.next_position(page) > p.from,
        p.next_position(page) < page.total_results || p.next_position(page) == page.next_from,
        max_pages > 0 ==> p.pages + 1 < max_pages,
{
}

/// The listings kept of a page are exactly those within the bounds.
pub proof fn law_kept_is_within_bounds(query: QueryView, apis: Seq<ApiListing>, a: ApiListing)
    ensures
        kept(query, apis).contains(a) <==> apis.contains(a) && within_bounds(
            query,
            opt_monthly_price(a.price),
        ),
{
    let p = |a: ApiListing| within_bounds(query, opt_monthly_price(a.price));
    lemma_filter_contains(apis, a, p);
}

proof fn lemma_filter_contains<A>(s: Seq<A>, x: A, p: spec_fn(A) -> bool)
    ensures
        s.filter(p).contains(x) <==> s.contains(x) && p(x),
    decreases s.len(),
{
    reveal(Seq::filter);
    if s.len() > 0 {
        let t = s.drop_last();
        let y = s.last();
        lemma_filter_contains(t, x, p);
        assert(s =~= t.push(y));
        lemma_filter_push(t, y, p);
        assert(forall|u: Seq<A>| #[trigger] u.push(y).contains(x) <==> u.contains(x) || x == y) by {
            assert forall|u: Seq<A>| #[trigger] u.push(y).contains(x) <==> u.contains(x) || x
                == y by {
                if u.contains(x) {
                    let i = choose|i: int| 0 <= i < u.len() && u[i] == x;
                    assert(u.push(y)[i] == x);
                }
                if x == y {
                    assert(u.push(y)[u.len() as int] == x);
                }
                if u.push(y).contains(x) && x != y {
                    let i = choose|i: int| 0 <= i < u.push(y).len() && u.push(y)[i] == x;
                    assert(u[i] == x);
                }
            }
        }
    }
}

/// A price that is not known is within any bounds, and a search without bounds
/// keeps every price.
pub proof fn law_unknown_prices_pass(query: QueryView, price: Option<int>)
    ensures
        within_bounds(query, None),
        query.rental_price_from is None && query.rental_price_to is None ==> within_bounds(
            query,
            price,
        ),
{
}

/// Each bound of a search counts alone: a price below the lower one or above the
/// upper one is out, whatever the other is, and one that neither excludes is in.
pub proof fn law_each_bound_counts_alone(query: QueryView, p: int, lo: u32, hi: u32)
    ensures
        query.rental_price_from == Some(lo) && p < lo ==> !within_bounds(query, Some(p)),
        query.rental_price_to == Some(hi) && p > hi ==> !within_bounds(query, Some(p)),
        query.rental_price_from == Some(lo) && query.rental_price_to is None && p >= lo
            ==> within_bounds(query, Some(p)),
        query.rental_price_from is None && query.rental_price_to == Some(hi) && p <= hi
            ==> within_bounds(query, Some(p)),
        query.rental_price_from == Some(lo) && query.rental_price_to == Some(hi) && lo <= p <= hi
            ==> within_bounds(query, Some(p)),
{
}

/// Of the listings that are kept of a page, none has a known price below the
/// lower bound of the search, if it has one, and none has a known price above the
/// upper bound, if it has one.
pub proof fn law_kept_prices_are_in_bounds(
    query: QueryView,
    apis: Seq<ApiListing>,
    ls: Seq<Listing>,
    i: int,
    lo: u32,
    hi: u32,
    p: u32,
)
    requires
        are_listings_of(ls, kept(query, apis)),
        0 <= i < ls.len(),
        ls[i].price_monthly == Some(p),
    ensures
        query.rental_price_from == Some(lo) ==> p >= lo,
        query.rental_price_to == Some(hi) ==> p <= hi,
{
    let a = kept(query, apis)[i];
    assert(is_listing_of(ls[i], a));
    assert(kept(query, apis).contains(a));
    law_kept_is_within_bounds(query, apis, a);
    law_each_bound_counts_alone(query, p as int, lo, hi);
}

/// A listing of a page whose price is not known, or is neither below the lower
/// nor above the upper bound, is among those that are kept.
pub proof fn law_listings_in_bounds_are_kept(
    query: QueryView,
    apis: Seq<ApiListing>,
    ls: Seq<Listing>,
    j: int,
)
    requires
        are_listings_of(ls, kept(query, apis)),
        0 <= j < apis.len(),
        opt_monthly_price(apis[j].price) matches Some(p) ==> {
            &&& query.rental_price_from is None || query.rental_price_from->0 <= p
            &&& query.rental_price_to is None || p <= query.rental_price_to->0
        },
    ensures
        exists|i: int| 0 <= i < ls.len() && is_listing_of(#[trigger] ls[i], apis[j]),
{
    assert(apis.contains(apis[j]));
    law_kept_is_within_bounds(query, apis, apis[j]);
    let k = kept(query, apis);
    let i = choose|i: int| 0 <= i < k.len() && k[i] == apis[j];
    assert(is_listing_of(ls[i], apis[j]));
}

/// Keeping goes listing by listing, in their order: what is kept of two pages is
/// what is kept of the first, and then of the second.
pub proof fn law_kept_goes_in_order(query: QueryView, a: Seq<ApiListing>, b: Seq<ApiListing>)
    ensures
        kept(query, a + b) == kept(query, a) + kept(query, b),
        kept(query, a).len() <= a.len(),
{
    let p = |a: ApiListing| within_bounds(query, opt_monthly_price(a.price));
    Seq::filter_distributes_over_add(a, b, p);
    lemma_filter_is_no_longer(a, p);
}

proof fn lemma_filter_is_no_longer<A>(s: Seq<A>, p: spec_fn(A) -> bool)
    ensures
        s.filter(p).len() <= s.len(),
    decreases s.len(),
{
    reveal(Seq::filter);
    if s.len() > 0 {
        lemma_filter_is_no_longer(s.drop_last(), p);
    }
}

proof fn lemma_named(a: Seq<char>)
    ensures
        seq![a].filter(|s: Seq<char>| s.len() > 0) == (if a.len() > 0 {
            seq![a]
        } else {
            Seq::empty()
        }),
{
    let p = |s: Seq<char>| s.len() > 0;
    let none = Seq::<Seq<char>>::empty();
    assert(none.filter(p) =~= none) by {
        reveal(Seq::filter);
    }
    lemma_filter_push(none, a, p);
    assert(none.push(a) =~= seq![a]);
}

proof fn lemma_named_front(a: Seq<char>, rest: Seq<Seq<char>>)
    requires
        a.len() > 0,
    ensures
        named_segments(Some(seq![a] + rest)) == seq![a] + named_segments(Some(rest)),
{
    lemma_named(a);
    Seq::filter_distributes_over_add(seq![a], rest, |s: Seq<char>| s.len() > 0);
}

proof fn lemma_none_named()
    ensures
        named_segments(Some(Seq::empty())) == Seq::<Seq<char>>::empty(),
{
    reveal(Seq::filter);
}

/// A path of a section and an area, and nothing more, stands for the search in
/// that area, for every kind of property.
pub proof fn law_two_segments_name_no_kind(
    section: Seq<char>,
    area: Seq<char>,
    pairs: Seq<(Seq<char>, Seq<char>)>,
)
    requires
        section.len() > 0,
        area.len() > 0,
    ensures
        ({
            let q = search_of(Some(seq![section, area]), pairs);
            &&& q.section == api_section(section)
            &&& q.area_slug == area
            &&& q.property_type is None
        }),
{
    assert(named_segments(Some(seq![section, area])) == seq![section, area]) by {
        lemma_two_named(section, area);
    }
}

proof fn lemma_two_named(a: Seq<char>, b: Seq<char>)
    requires
        a.len() > 0,
        b.len() > 0,
    ensures
        named_segments(Some(seq![a, b])) == seq![a, b],
{
    lemma_named(b);
    lemma_named_front(a, seq![b]);
    assert(seq![a] + seq![b] =~= seq![a, b]);
}

/// The third segment of a path, where it is not empty, is the kind of property,
/// whatever comes after it.
pub proof fn law_third_segment_is_the_kind(
    section: Seq<char>,
    area: Seq<char>,
    kind: Seq<char>,
    rest: Seq<Seq<char>>,
    pairs: Seq<(Seq<char>, Seq<char>)>,
)
    requires
        section.len() > 0,
        area.len() > 0,
        kind.len() > 0,
    ensures
        ({
            let q = search_of(Some(seq![section, area, kind] + rest), pairs);
            &&& q.section == api_section(section)
            &&& q.area_slug == area
            &&& q.property_type == Some(kind)
        }),
        ({
            let q = search_of(Some(seq![section, area, kind]), pairs);
            &&& q.section == api_section(section)
            &&& q.area_slug == area
            &&& q.property_type == Some(kind)
        }),
{
    lemma_three_named(section, area, kind, rest);
    lemma_three_named(section, area, kind, Seq::empty());
    assert(seq![section, area, kind] + Seq::<Seq<char>>::empty() =~= seq![section, area, kind]);
}

proof fn lemma_three_named(a: Seq<char>, b: Seq<char>, c: Seq<char>, rest: Seq<Seq<char>>)
    requires
        a.len() > 0,
        b.len() > 0,
        c.len() > 0,
    ensures
        named_segments(Some(seq![a, b, c] + rest)) == seq![a, b, c] + named_segments(Some(rest)),
{
    lemma_named_front(c, rest);
    lemma_named_front(b, seq![c] + rest);
    lemma_named_front(a, seq![b] + (seq![c] + rest));
    assert(seq![a] + (seq![b] + (seq![c] + rest)) =~= seq![a, b, c] + rest);
    let n = named_segments(Some(rest));
    assert(seq![a] + (seq![b] + (seq![c] + n)) =~= seq![a, b, c] + n);
}

/// The kind of property is none exactly where a path has two segments that are
/// not empty.
pub proof fn law_kind_is_none_for_two_segments(
    path: Option<Seq<Seq<char>>>,
    pairs: Seq<(Seq<char>, Seq<char>)>,
)
    requires
        named_segments(path).len() >= 2,
    ensures
        search_of(path, pairs).property_type is None <==> named_segments(path).len() == 2,
{
}

/// An empty segment of a path does not count.
pub proof fn law_empty_segments_do_not_count(
    before: Seq<Seq<char>>,
    after: Seq<Seq<char>>,
    pairs: Seq<(Seq<char>, Seq<char>)>,
)
    ensures
        search_of(Some(before + seq![Seq::empty()] + after), pairs) == search_of(
            Some(before + after),
            pairs,
        ),
{
    let p = |s: Seq<char>| s.len() > 0;
    let none = Seq::<char>::empty();
    lemma_named(none);
    Seq::filter_distributes_over_add(before + seq![none], after, p);
    Seq::filter_distributes_over_add(before, seq![none], p);
    Seq::filter_distributes_over_add(before, after, p);
    assert(before.filter(p) + Seq::<Seq<char>>::empty() =~= before.filter(p));
}

/// An address stands for a search exactly where it has two segments that are not
/// empty; with one the area is missing, and with none the section.
pub proof fn law_address_needs_section_and_area(
    url: Seq<char>,
    section: Seq<char>,
    area: Seq<char>,
    rest: Seq<Seq<char>>,
    pairs: Seq<(Seq<char>, Seq<char>)>,
)
    requires
        section.len() > 0,
        area.len() > 0,
    ensures
        url_parts(url) == Some((Some(seq![section, area] + rest), pairs)) ==> url_fault(url) is None,
        url_parts(url) == Some((Some(seq![section]), pairs)) ==> url_fault(url) == Some(
            "URL path missing area slug"@,
        ),
        url_parts(url) == Some((Some(Seq::<Seq<char>>::empty()), pairs)) ==> url_fault(url) == Some(
            "URL path is empty (expected /<section>/<area>)"@,
        ),
        url_parts(url) == Some((None::<Seq<Seq<char>>>, pairs)) ==> url_fault(url) == Some(
            "URL path is empty (expected /<section>/<area>)"@,
        ),
        url_parts(url) is None ==> url_fault(url) == Some("invalid URL"@),
{
    lemma_none_named();
    lemma_named_front(section, Seq::empty());
    assert(seq![section] + Seq::<Seq<char>>::empty() =~= seq![section]);
    lemma_named_front(area, rest);
    lemma_named_front(section, seq![area] + rest);
    assert(seq![section] + (seq![area] + rest) =~= seq![section, area] + rest);
}

/// A section that has no other name at the gateway goes by its own.
pub proof fn law_other_sections_keep_their_names(s: Seq<char>)
    requires
        s != "property-for-rent"@,
        s != "property-for-sale"@,
        s != "commercial-property-for-rent"@,
        s != "commercial-properties-for-rent"@,
        s != "commercial-property-for-sale"@,
        s != "commercial-properties-for-sale"@,
        s != "short-term-rentals"@,
    ensures
        api_section(s) == s,
{
}

/// The last price in an address counts, as the number that it writes; a parameter
/// with another name changes no bound.
pub proof fn law_last_price_parameter_counts(
    path: Option<Seq<Seq<char>>>,
    pairs: Seq<(Seq<char>, Seq<char>)>,
    key: Seq<char>,
    value: Seq<char>,
    n: u32,
)
    ensures
        ({
            let before = search_of(path, pairs);
            let from = search_of(path, pairs.push(("rentalPrice_from"@, decimal_text(n as int))));
            let to = search_of(path, pairs.push(("rentalPrice_to"@, decimal_text(n as int))));
            let other = search_of(path, pairs.push((key, value)));
            &&& from == (QueryView { rental_price_from: Some(n), ..before })
            &&& to == (QueryView { rental_price_to: Some(n), ..before })
            &&& key != "rentalPrice_from"@ && key != "rentalPrice_to"@ ==> other == before
        }),
        search_of(path, Seq::empty()).rental_price_from is None,
        search_of(path, Seq::empty()).rental_price_to is None,
{
    lemma_price_names_differ();
    law_decimal_text_writes_its_number(n as int);
    let f = pairs.push(("rentalPrice_from"@, decimal_text(n as int)));
    let t = pairs.push(("rentalPrice_to"@, decimal_text(n as int)));
    let o = pairs.push((key, value));
    assert(f.drop_last() =~= pairs);
    assert(t.drop_last() =~= pairs);
    assert(o.drop_last() =~= pairs);
    assert(value_up_to(decimal_text(n as int), u32::MAX as int) == Some(n as int));
    assert(price_param(f, "rentalPrice_from"@) == Some(n));
    assert(price_param(t, "rentalPrice_to"@) == Some(n));
}

/// A price parameter that writes no number sets no bound, also where an earlier
/// one did.
pub proof fn law_bad_price_parameter_sets_no_bound(
    path: Option<Seq<Seq<char>>>,
    pairs: Seq<(Seq<char>, Seq<char>)>,
    value: Seq<char>,
)
    requires
        value_up_to(value, u32::MAX as int) is None,
    ensures
        search_of(path, pairs.push(("rentalPrice_from"@, value))).rental_price_from is None,
        search_of(path, pairs.push(("rentalPrice_to"@, value))).rental_price_to is None,
{
}

proof fn lemma_first_digit(prefix: Seq<char>, rest: Seq<char>)
    requires
        forall|i: int| 0 <= i < prefix.len() ==> !is_digit(#[trigger] prefix[i]),
        rest.len() > 0 ==> is_digit(rest[0]),
    ensures
        from_first_digit(prefix + rest) == rest,
    decreases prefix.len(),
{
    let s = prefix + rest;
    if prefix.len() == 0 {
        assert(s =~= rest);
    } else {
        assert(s[0] == prefix[0]);
        assert(s.skip(1) =~= prefix.skip(1) + rest);
        assert forall|i: int| 0 <= i < prefix.skip(1).len() implies !is_digit(
            #[trigger] prefix.skip(1)[i],
        ) by {
            assert(prefix.skip(1)[i] == prefix[i + 1]);
        }
        lemma_first_digit(prefix.skip(1), rest);
    }
}

proof fn lemma_digits_over_commas(t: Seq<char>, rest: Seq<char>)
    requires
        forall|i: int| 0 <= i < t.len() ==> is_digit(#[trigger] t[i]) || t[i] == ',',
        rest.len() > 0 ==> !is_digit(rest[0]) && rest[0] != ',',
    ensures
        digits_over_commas(t + rest) == without_commas(t),
    decreases t.len(),
{
    let p = |c: char| c != ',';
    let s = t + rest;
    if t.len() == 0 {
        assert(s =~= rest);
        assert(without_commas(t) =~= Seq::<char>::empty()) by {
            reveal(Seq::filter);
        }
    } else {
        let u = t.skip(1);
        assert(s[0] == t[0]);
        assert(s.skip(1) =~= u + rest);
        assert forall|i: int| 0 <= i < u.len() implies is_digit(#[trigger] u[i]) || u[i] == ',' by {
            assert(u[i] == t[i + 1]);
        }
        lemma_digits_over_commas(u, rest);
        assert(t =~= seq![t[0]] + u);
        Seq::filter_distributes_over_add(seq![t[0]], u, p);
        let none = Seq::<char>::empty();
        assert(none.filter(p) =~= none) by {
            reveal(Seq::filter);
        }
        lemma_filter_push(none, t[0], p);
        assert(none.push(t[0]) =~= seq![t[0]]);
        assert(none + u.filter(p) =~= u.filter(p));
    }
}

proof fn lemma_price_in_text(before: Seq<char>, t: Seq<char>, after: Seq<char>, n: int)
    requires
        0 <= n <= u32::MAX,
        forall|i: int| 0 <= i < before.len() ==> !is_digit(#[trigger] before[i]),
        after.len() > 0 ==> !is_digit(after[0]) && after[0] != ',',
        t.len() > 0 && is_digit(t[0]),
        forall|i: int| 0 <= i < t.len() ==> is_digit(#[trigger] t[i]) || t[i] == ',',
        without_commas(t) == decimal_text(n),
    ensures
        price_number(before + t + after) == Some(n),
{
    law_decimal_text_writes_its_number(n);
    assert(before + t + after =~= before + (t + after));
    assert((t + after)[0] == t[0]);
    lemma_first_digit(before, t + after);
    lemma_digits_over_commas(t, after);
}

/// The number in the text of a price is read whatever stands before it, short of
/// another digit, and after it, whether or not its thousands are set off by
/// commas.
pub proof fn law_price_number_is_read(before: Seq<char>, n: u32, after: Seq<char>)
    requires
        forall|i: int| 0 <= i < before.len() ==> !is_digit(#[trigger] before[i]),
        after.len() > 0 ==> !is_digit(after[0]) && after[0] != ',',
    ensures
        price_number(before + thousands_text(n as int) + after) == Some(n as int),
        price_number(before + decimal_text(n as int) + after) == Some(n as int),
{
    let d = decimal_text(n as int);
    assert(price_number(before + thousands_text(n as int) + after) == Some(n as int)) by {
        law_thousands_are_grouped(n as int);
        law_thousands_text_without_commas(n as int);
        lemma_price_in_text(before, thousands_text(n as int), after, n as int);
    }
    assert(price_number(before + d + after) == Some(n as int)) by {
        law_decimal_text_writes_its_number(n as int);
        lemma_no_comma_to_drop(d);
        assert(is_digit(d[0]));
        lemma_price_in_text(before, d, after, n as int);
    }
}

proof fn lemma_no_comma_to_drop(s: Seq<char>)
    requires
        all_digits(s),
    ensures
        without_commas(s) == s,
    decreases s.len(),
{
    reveal(Seq::filter);
    if s.len() > 0 {
        let t = s.drop_last();
        assert forall|i: int| 0 <= i < t.len() implies is_digit(#[trigger] t[i]) by {
            assert(is_digit(s[i]));
        }
        lemma_no_comma_to_drop(t);
        assert(is_digit(s[s.len() - 1]));
        assert(s =~= t.push(s.last()));
    } else {
        assert(without_commas(s) =~= s);
    }
}

/// A text without a digit gives no price, and one that speaks of a week gives four
/// times its number, any other its number.
pub proof fn law_weekly_prices_count_four_times(price: Seq<char>, i: int, n: int)
    ensures
        (forall|k: int| 0 <= k < price.len() ==> !is_digit(#[trigger] price[k])) ==> monthly_price(
            price,
        ) is None,
        price_number(price) == Some(n) && stands_at(lowercase(price), "week"@, i) ==> monthly_price(
            price,
        ) == Some(4 * n),
        price_number(price) == Some(n) && (forall|k: int|
            !(#[trigger] stands_at(lowercase(price), "week"@, k))) ==> monthly_price(price)
            == Some(n),
{
    if forall|k: int| 0 <= k < price.len() ==> !is_digit(#[trigger] price[k]) {
        lemma_first_digit(price, Seq::empty());
        assert(price + Seq::<char>::empty() =~= price);
    }
}

/// A listing is the one that the gateway sent, entry by entry; its place is given
/// by the longitude and then the latitude.
pub proof fn law_listing_is_what_was_sent(l: Listing, api: ApiListing)
    requires
        is_listing_of(l, api),
    ensures
        l.id == api.id,
        l.title == api.title,
        l.price == api.price,
        l.bedrooms == api.num_bedrooms,
        l.property_type == api.property_type,
        l.category == api.category,
        l.publish_date == api.publish_date,
        api.ber matches Some(b) ==> l.ber_rating == b.rating,
        api.ber is None ==> l.ber_rating is None,
        api.seller matches Some(s) ==> l.seller_name == s.name && l.seller_phone == s.phone,
        api.seller is None ==> l.seller_name is None && l.seller_phone is None,
        api.point matches Some(ApiPoint { coordinates: Some(c) }) ==> if c@.len() >= 2 {
            l.lng == Some(c@[0]) && l.lat == Some(c@[1])
        } else {
            l.lng is None && l.lat is None
        },
        api.point matches Some(ApiPoint { coordinates: None }) ==> l.lng is None && l.lat is None,
        api.point is None ==> l.lng is None && l.lat is None,
        api.seo_friendly_path matches Some(p) ==> l.url@ == "https://www.daft.ie"@ + p@,
        api.seo_friendly_path is None ==> l.url@ == "https://www.daft.ie/share/"@ + decimal_text(
            api.id as int,
        ),
        api.media is None ==> l.images@.len() == 0,
        l.facilities@.len() == api.facilities@.len(),
        forall|i: int|
            0 <= i < l.facilities@.len() ==> #[trigger] l.facilities@[i] == api.facilities@[i].name,
        api.price is None ==> l.price_monthly is None,
        api.price is Some && l.price_monthly is Some ==> monthly_price(
            api.price->0@,
        ) == Some(l.price_monthly->0 as int),
        api.price is Some && l.price_monthly is None ==> monthly_price(api.price->0@) is None,
{
}

/// Each image of a listing gives one address, the larger one where there is one
/// and else the square one, or none; the addresses stand in the order of the
/// images.
pub proof fn law_images_keep_their_order(a: Seq<ApiImage>, b: Seq<ApiImage>, image: ApiImage)
    ensures
        images_of(a + b) == images_of(a) + images_of(b),
        images_of(seq![image]) == (if image.size_720x480 is Some {
            seq![image.size_720x480->0]
        } else if image.size_600x600 is Some {
            seq![image.size_600x600->0]
        } else {
            Seq::empty()
        }),
        images_of(Seq::empty()) == Seq::<String>::empty(),
    decreases b.len(),
{
    let one = seq![image];
    assert(one.drop_last() =~= Seq::<ApiImage>::empty());
    assert(images_of(one.drop_last()) =~= Seq::<String>::empty());
    assert(images_of(one) =~= (if image.size_720x480 is Some {
        seq![image.size_720x480->0]
    } else if image.size_600x600 is Some {
        seq![image.size_600x600->0]
    } else {
        Seq::<String>::empty()
    }));
    if b.len() == 0 {
        assert(a + b =~= a);
        assert(images_of(a) + images_of(b) =~= images_of(a));
    } else {
        assert((a + b).drop_last() =~= a + b.drop_last());
        law_images_keep_their_order(a, b.drop_last(), image);
        assert(images_of(a + b) =~= images_of(a) + images_of(b));
    }
}

/// What is asked of the gateway names the section, the area, the position and the
/// number of listings, and asks for published listings, and for those of the kind
/// of property where the search names one.
pub proof fn law_request_names_the_search(query: QueryView, from: int)
    ensures
        ({
            let r = request_view(query, from);
            let filters = r.get("filters"@)->0->Array_0;
            &&& r.get("section"@) == Some(JsonView::Text(query.section))
            &&& r.get("terms"@) == Some(JsonView::Text(query.area_slug))
            &&& r.get("paging"@) matches Some(paging)
            &&& paging.get("from"@) == Some(JsonView::Text(decimal_text(from)))
            &&& paging.get("pageSize"@) == Some(JsonView::Text(decimal_text(20)))
            &&& r.get("filters"@) == Some(JsonView::Array(filters))
            &&& filters.len() == (if query.property_type is Some {
                2int
            } else {
                1
            })
            &&& filters[0].get("name"@) == Some(JsonView::Text("adState"@))
            &&& filters[0].get("values"@) == Some(
                JsonView::Array(seq![JsonView::Text("published"@)]),
            )
            &&& query.property_type matches Some(kind) ==> {
                &&& filters[1].get("name"@) == Some(JsonView::Text("propertyType"@))
                &&& filters[1].get("values"@) == Some(JsonView::Array(seq![JsonView::Text(kind)]))
            }
            &&& r.get("geoFilter"@) matches Some(geo)
            &&& geo.get("geoSearchType"@) == Some(JsonView::Text("STORED_SHAPES"@))
            &&& geo.get("storedShapeIds"@) == Some(JsonView::Array(Seq::<JsonView>::empty()))
            &&& r.get("andFilters"@) == Some(JsonView::Array(Seq::<JsonView>::empty()))
            &&& r.get("ranges"@) == Some(JsonView::Array(Seq::<JsonView>::empty()))
        }),
{
    reveal_strlit("section");
    reveal_strlit("filters");
    reveal_strlit("andFilters");
    reveal_strlit("ranges");
    reveal_strlit("paging");
    reveal_strlit("geoFilter");
    reveal_strlit("terms");
    let e = request_view(query, from)->Object_0;
    assert("section"@[0] == 's' && "filters"@[0] == 'f' && "andFilters"@[0] == 'a');
    assert("ranges"@[0] == 'r' && "paging"@[0] == 'p' && "geoFilter"@[0] == 'g');
    assert("terms"@[0] == 't');
    law_entry_is_the_first(e, "section"@, 0);
    law_entry_is_the_first(e, "filters"@, 1);
    law_entry_is_the_first(e, "andFilters"@, 2);
    law_entry_is_the_first(e, "ranges"@, 3);
    law_entry_is_the_first(e, "paging"@, 4);
    law_entry_is_the_first(e, "geoFilter"@, 5);
    law_entry_is_the_first(e, "terms"@, 6);
    let paging = e[4].1->Object_0;
    reveal_strlit("from");
    reveal_strlit("pageSize");
    assert("from"@[0] == 'f' && "pageSize"@[0] == 'p');
    law_entry_is_the_first(paging, "from"@, 0);
    law_entry_is_the_first(paging, "pageSize"@, 1);
    let geo = e[5].1->Object_0;
    reveal_strlit("storedShapeIds");
    reveal_strlit("geoSearchType");
    assert("storedShapeIds"@[0] == 's' && "geoSearchType"@[0] == 'g');
    law_entry_is_the_first(geo, "storedShapeIds"@, 0);
    law_entry_is_the_first(geo, "geoSearchType"@, 1);
    lemma_filter_entries("adState"@, "published"@);
    match query.property_type {
        Some(kind) => {
            lemma_filter_entries("propertyType"@, kind);
        },
        None => {},
    }
}

proof fn lemma_filter_entries(name: Seq<char>, value: Seq<char>)
    ensures
        filter_view(name, value).get("name"@) == Some(JsonView::Text(name)),
        filter_view(name, value).get("values"@) == Some(
            JsonView::Array(seq![JsonView::Text(value)]),
        ),
{
    reveal_strlit("name");
    reveal_strlit("values");
    assert("name"@[0] == 'n' && "values"@[0] == 'v');
    let e = filter_view(name, value)->Object_0;
    law_entry_is_the_first(e, "name"@, 0);
    law_entry_is_the_first(e, "values"@, 1);
}

/// A search goes on exactly while its pages bring listings, there are more than
/// have come, and it has not fetched as many pages as it may; it then goes on at
/// the end of the page or where the gateway says, whichever lies further.
pub proof fn law_search_goes_on_while_there_is_more(p: Paging, max_pages: u32, page: ApiPage)
    ensures
        !p.is_last(max_pages, page) <==> {
            &&& page.listings@.len() > 0
            &&& p.from + page.listings@.len() < page.total_results
            &&& max_pages == 0 || p.pages + 1 < max_pages
        },
        p.next_position(page) >= p.from + page.listings@.len(),
        p.next_position(page) >= page.next_from,
        p.next_position(page) == page.next_from || p.next_position(page) == p.from
            + page.listings@.len(),
{
}

/// A section that has another name at the gateway goes by that.
pub proof fn law_sections_are_renamed(s: Seq<char>)
    ensures
        s == "property-for-rent"@ ==> api_section(s) == "residential-to-rent"@,
        s == "property-for-sale"@ ==> api_section(s) == "residential-for-sale"@,
        s == "commercial-property-for-rent"@ || s == "commercial-properties-for-rent"@
            ==> api_section(s) == "commercial-to-rent"@,
        s == "commercial-property-for-sale"@ || s == "commercial-properties-for-sale"@
            ==> api_section(s) == "commercial-for-sale"@,
        s == "short-term-rentals"@ ==> api_section(s) == "short-term"@,
{
    reveal_strlit("property-for-rent");
    reveal_strlit("property-for-sale");
    reveal_strlit("new-homes-for-sale");
    reveal_strlit("commercial-property-for-rent");
    reveal_strlit("commercial-properties-for-rent");
    reveal_strlit("commercial-property-for-sale");
    reveal_strlit("commercial-properties-for-sale");
    reveal_strlit("student-accommodation");
    reveal_strlit("short-term-rentals");
    assert("property-for-rent"@[13] == 'r' && "property-for-sale"@[13] == 's');
    assert("commercial-property-for-rent"@[24] == 'r' && "commercial-property-for-sale"@[24] == 's');
    assert("commercial-properties-for-rent"@[26] == 'r' && "commercial-properties-for-sale"@[26]
        == 's');
    assert("short-term-rentals"@[0] == 's' && "new-homes-for-sale"@[0] == 'n');
}

/// Each reason why an address stands for no search has its message.
pub proof fn law_address_errors_have_messages(e: UrlError)
    ensures
        e is Invalid ==> e.text() == "invalid URL"@,
        e is EmptyPath ==> e.text() == "URL path is empty (expected /<section>/<area>)"@,
        e is MissingArea ==> e.text() == "URL path missing area slug"@,
{
}

/// A comma among the digits of a price does not count, wherever it stands.
pub proof fn law_commas_in_a_price_do_not_count(
    before: Seq<char>,
    t: Seq<char>,
    rest: Seq<char>,
)
    requires
        forall|i: int| 0 <= i < before.len() ==> !is_digit(#[trigger] before[i]),
        t.len() > 0 && is_digit(t[0]),
        forall|i: int| 0 <= i < t.len() ==> is_digit(#[trigger] t[i]) || t[i] == ',',
    ensures
        price_number(before + t + seq![','] + rest) == price_number(before + t + rest),
{
    let comma = seq![','];
    assert(before + t + comma + rest =~= before + (t + (comma + rest)));
    assert(before + t + rest =~= before + (t + rest));
    assert((t + (comma + rest))[0] == t[0]);
    assert((t + rest)[0] == t[0]);
    lemma_first_digit(before, t + (comma + rest));
    lemma_first_digit(before, t + rest);
    lemma_number_goes_on(t, comma + rest);
    lemma_number_goes_on(t, rest);
    assert((comma + rest)[0] == ',');
    assert((comma + rest).skip(1) =~= rest);
}

proof fn lemma_number_goes_on(t: Seq<char>, rest: Seq<char>)
    requires
        forall|i: int| 0 <= i < t.len() ==> is_digit(#[trigger] t[i]) || t[i] == ',',
    ensures
        digits_over_commas(t + rest) == digits_over_commas(t) + digits_over_commas(rest),
    decreases t.len(),
{
    let s = t + rest;
    if t.len() == 0 {
        assert(s =~= rest);
        assert(digits_over_commas(t) + digits_over_commas(rest) =~= digits_over_commas(rest));
    } else {
        let u = t.skip(1);
        assert(s[0] == t[0]);
        assert(s.skip(1) =~= u + rest);
        assert forall|i: int| 0 <= i < u.len() implies is_digit(#[trigger] u[i]) || u[i] == ',' by {
            assert(u[i] == t[i + 1]);
        }
        lemma_number_goes_on(u, rest);
        assert(digits_over_commas(s) =~= digits_over_commas(t) + digits_over_commas(rest));
    }
}

} // verus!
