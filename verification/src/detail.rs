//! What the page of a listing tells beyond the search: it carries its data as
//! JSON inside a script element.

use vstd::prelude::*;

use crate::json::{json_value, parse_json, Json, JsonView};
use crate::text::{
    chars_of, copy_of, find, find_from, law_find_is_first, lemma_find_is, lemma_stands_between,
    stands_at, string_of,
};

verus! {

/// One line of a listing's overview.
#[derive(Clone, Debug)]
pub struct OverviewItem {
    pub label: String,
    pub text: String,
}

/// What the page of a listing tells and a search does not: when it was first
/// published, in milliseconds since 1970, how often it was viewed, its
/// description, and its overview.
#[derive(Clone, Debug)]
pub struct DetailExtras {
    pub date_listed_ms: Option<i64>,
    pub views: Option<u64>,
    pub description: Option<String>,
    pub property_overview: Vec<OverviewItem>,
}

impl Default for DetailExtras {
    fn default() -> (r: Self)
        ensures
            r.date_listed_ms is None,
            r.views is None,
            r.description is None,
            r.property_overview@.len() == 0,
    {
        DetailExtras {
            date_listed_ms: None,
            views: None,
            description: None,
            property_overview: Vec::new(),
        }
    }
}

/// Why a page tells nothing.
#[derive(Clone, Copy, Debug, PartialEq, Eq, Structural)]
pub enum DetailError {
    NoTag,
    MalformedTag,
    NoClosingTag,
    BadJson,
    NoListing,
}

impl DetailError {
    /// The message of this error.
    pub open spec fn text(self) -> Seq<char> {
        match self {
            DetailError::NoTag => "__NEXT_DATA__ tag not found in HTML"@,
            DetailError::MalformedTag => "malformed __NEXT_DATA__ open tag"@,
            DetailError::NoClosingTag => "__NEXT_DATA__ closing tag not found"@,
            DetailError::BadJson => "parsing __NEXT_DATA__ JSON"@,
            DetailError::NoListing => "no listing in __NEXT_DATA__"@,
        }
    }

    /// The message of this error.
    pub fn message(&self) -> (r: &'static str)
        ensures
            r@ == self.text(),
    {
        match self {
            DetailError::NoTag => "__NEXT_DATA__ tag not found in HTML",
            DetailError::MalformedTag => "malformed __NEXT_DATA__ open tag",
            DetailError::NoClosingTag => "__NEXT_DATA__ closing tag not found",
            DetailError::BadJson => "parsing __NEXT_DATA__ JSON",
            DetailError::NoListing => "no listing in __NEXT_DATA__",
        }
    }
}

/// The text of the first script element with the id `__NEXT_DATA__`: what
/// stands between the `>` after the id and the next `</script>`.
pub open spec fn next_data(html: Seq<char>) -> Result<Seq<char>, DetailError> {
    match find_from(html, "id=\"__NEXT_DATA__\""@, 0) {
        None => Err(DetailError::NoTag),
        Some(id) => match find_from(html, ">"@, id) {
            None => Err(DetailError::MalformedTag),
            Some(gt) => match find_from(html, "</script>"@, gt + 1) {
                None => Err(DetailError::NoClosingTag),
                Some(end) => Ok(html.subrange(gt + 1, end)),
            },
        },
    }
}

/// The text of the first script element with the id `__NEXT_DATA__`.
pub fn extract_next_data(html: &str) -> (r: Result<String, DetailError>)
    ensures
        next_data(html@) == (match r {
            Ok(t) => Ok(t@),
            Err(e) => Err::<Seq<char>, DetailError>(e),
        }),
{
    let cs = chars_of(html);
    let needle = chars_of("id=\"__NEXT_DATA__\"");
    let id: usize = match find(&cs, &needle, 0) {
        Some(i) => i,
        None => {
            return Err(DetailError::NoTag);
        },
    };
    proof {
        reveal_strlit(">");
        law_find_is_first(html@, ">"@, id as int);
    }
    let close = chars_of(">");
    let gt: usize = match find(&cs, &close, id) {
        Some(i) => i,
        None => {
            return Err(DetailError::MalformedTag);
        },
    };
    let n: usize = cs.len();
    assert(gt < n);
    let start: usize = gt + 1;
    let end_tag = chars_of("</script>");
    proof {
        law_find_is_first(html@, "</script>"@, start as int);
    }
    match find(&cs, &end_tag, start) {
        Some(end) => Ok(string_of(&cs, start, end)),
        None => Err(DetailError::NoClosingTag),
    }
}

/// The listing in the data of a page.
pub open spec fn listing_in(v: JsonView) -> Option<JsonView> {
    match v.get("props"@) {
        Some(props) => match props.get("pageProps"@) {
            Some(page) => page.get("listing"@),
            None => None,
        },
        None => None,
    }
}

/// When a listing was first published; where that is not told, when it was
/// published.
pub open spec fn date_of(listing: JsonView) -> Option<i64> {
    match signed_in(listing, "firstPublishDate"@) {
        Some(ms) => Some(ms),
        None => signed_in(listing, "publishDate"@),
    }
}

/// The signed integer in an entry.
pub open spec fn signed_in(v: JsonView, key: Seq<char>) -> Option<i64> {
    match v.get(key) {
        Some(x) => x.as_i64(),
        None => None,
    }
}

/// The unsigned integer in an entry.
pub open spec fn unsigned_in(v: JsonView, key: Seq<char>) -> Option<u64> {
    match v.get(key) {
        Some(x) => x.as_u64(),
        None => None,
    }
}

/// The text in an entry.
pub open spec fn text_in(v: JsonView, key: Seq<char>) -> Option<Seq<char>> {
    match v.get(key) {
        Some(x) => x.as_str(),
        None => None,
    }
}

/// The label and the text of each item that has both.
pub open spec fn overview_of(items: Seq<JsonView>) -> Seq<(Seq<char>, Seq<char>)>
    decreases items.len(),
{
    if items.len() == 0 {
        Seq::empty()
    } else {
        let rest = overview_of(items.drop_last());
        match (text_in(items.last(), "label"@), text_in(items.last(), "text"@)) {
            (Some(label), Some(text)) => rest.push((label, text)),
            _ => rest,
        }
    }
}

/// The overview of a listing.
pub open spec fn overview_in(listing: JsonView) -> Seq<(Seq<char>, Seq<char>)> {
    match listing.get("propertyOverview"@) {
        Some(x) => match x.as_array() {
            Some(items) => overview_of(items),
            None => Seq::empty(),
        },
        None => Seq::empty(),
    }
}

/// The labels and the texts of overview items.
pub open spec fn overview_views(items: Seq<OverviewItem>) -> Seq<(Seq<char>, Seq<char>)> {
    items.map_values(|i: OverviewItem| (i.label@, i.text@))
}

/// Whether extras are what the listing in a page's data tells.
pub open spec fn are_extras_of(x: DetailExtras, listing: JsonView) -> bool {
    &&& x.date_listed_ms == date_of(listing)
    &&& x.views == unsigned_in(listing, "listingViews"@)
    &&& text_in(listing, "description"@) == (match x.description {
        Some(d) => Some(d@),
        None => None::<Seq<char>>,
    })
    &&& overview_views(x.property_overview@) == overview_in(listing)
}

/// The signed integer in an entry.
fn get_i64(v: &Json, key: &str) -> (r: Option<i64>)
    ensures
        r == signed_in(v@, key@),
{
    match v.get(key) {
        Some(x) => x.as_i64(),
        None => None,
    }
}

/// The text in an entry.
fn get_str<'a>(v: &'a Json, key: &str) -> (r: Option<&'a str>)
    ensures
        text_in(v@, key@) == (match r {
            Some(s) => Some(s@),
            None => None::<Seq<char>>,
        }),
{
    match v.get(key) {
        Some(x) => x.as_str(),
        None => None,
    }
}

/// The overview of a listing.
fn read_overview(listing: &Json) -> (r: Vec<OverviewItem>)
    ensures
        overview_views(r@) == overview_in(listing@),
{
    let mut out: Vec<OverviewItem> = Vec::new();
    let found = match listing.get("propertyOverview") {
        Some(x) => x.as_array(),
        None => None,
    };
    match found {
        Some(items) => {
            let ghost all = listing@.get("propertyOverview"@)->0.as_array()->0;
            assert(overview_views(out@) =~= overview_of(all.take(0)));
            for i in 0..items.len()
                invariant
                    all.len() == items@.len(),
                    forall|j: int| 0 <= j < items@.len() ==> all[j] == (#[trigger] items@[j])@,
                    overview_views(out@) == overview_of(all.take(i as int)),
            {
                proof {
                    assert(all.take(i + 1).drop_last() =~= all.take(i as int));
                    assert(all.take(i + 1).last() == items@[i as int]@);
                }
                let ghost before = out@;
                match get_str(&items[i], "label") {
                    Some(label) => match get_str(&items[i], "text") {
                        Some(text) => {
                            out.push(OverviewItem { label: copy_of(label), text: copy_of(text) });
                            assert(overview_views(out@) =~= overview_views(before).push(
                                (label@, text@),
                            ));
                        },
                        None => {},
                    },
                    None => {},
                }
            }
            assert(all.take(all.len() as int) =~= all);
        },
        None => {
            assert(overview_views(out@) =~= Seq::<(Seq<char>, Seq<char>)>::empty());
        },
    }
    out
}

/// What the data of a page tells of its listing.
pub fn extras_from_json(v: &Json) -> (r: Result<DetailExtras, DetailError>)
    ensures
        match listing_in(v@) {
            Some(listing) => r matches Ok(x) && are_extras_of(x, listing),
            None => r == Err::<DetailExtras, DetailError>(DetailError::NoListing),
        },
{
    let listing = match v.get("props") {
        Some(props) => match props.get("pageProps") {
            Some(page) => page.get("listing"),
            None => None,
        },
        None => None,
    };
    match listing {
        Some(listing) => {
            let date_listed_ms = match get_i64(listing, "firstPublishDate") {
                Some(ms) => Some(ms),
                None => get_i64(listing, "publishDate"),
            };
            let views = match listing.get("listingViews") {
                Some(x) => x.as_u64(),
                None => None,
            };
            let description = match get_str(listing, "description") {
                Some(d) => Some(copy_of(d)),
                None => None,
            };
            let property_overview = read_overview(listing);
            Ok(DetailExtras { date_listed_ms, views, description, property_overview })
        },
        None => Err(DetailError::NoListing),
    }
}

/// What the page of a listing tells of it.
pub fn read_detail(html: &str) -> (r: Result<DetailExtras, DetailError>)
    ensures
        match next_data(html@) {
            Err(e) => r == Err::<DetailExtras, DetailError>(e),
            Ok(data) => match json_value(data) {
                None => r == Err::<DetailExtras, DetailError>(DetailError::BadJson),
                Some(v) => match listing_in(v) {
                    None => r == Err::<DetailExtras, DetailError>(DetailError::NoListing),
                    Some(listing) => r matches Ok(x) && are_extras_of(x, listing),
                },
            },
        },
{
    match extract_next_data(html) {
        Err(e) => Err(e),
        Ok(data) => match parse_json(data.as_str()) {
            Err(_) => Err(DetailError::BadJson),
            Ok(v) => extras_from_json(&v),
        },
    }
}

/// The data between the tags of the first such element comes out unchanged,
/// whatever stands around it.
pub proof fn law_next_data_is_between_the_tags(
    before: Seq<char>,
    attributes: Seq<char>,
    data: Seq<char>,
    after: Seq<char>,
)
    requires
        forall|i: int|
            0 <= i < before.len() ==> !stands_at(
                before + "id=\"__NEXT_DATA__\""@ + attributes + ">"@ + data + "</script>"@ + after,
                "id=\"__NEXT_DATA__\""@,
                i,
            ),
        forall|i: int| 0 <= i < attributes.len() ==> attributes[i] != '>',
        forall|i: int|
            0 <= i < data.len() ==> !stands_at(data + "</script>"@ + after, "</script>"@, i),
    ensures
        next_data(
            before + "id=\"__NEXT_DATA__\""@ + attributes + ">"@ + data + "</script>"@ + after,
        ) == Ok::<Seq<char>, DetailError>(data),
{
    let id = "id=\"__NEXT_DATA__\""@;
    let end = "</script>"@;
    assert(">"@ =~= seq!['>']) by {
        reveal_strlit(">");
    }
    assert forall|i: int| 0 <= i < id.len() implies id[i] != '>' by {
        reveal_strlit("id=\"__NEXT_DATA__\"");
    }
    lemma_finds(before, id, attributes, data, end, after);
    let html = before + id + attributes + ">"@ + data + end + after;
    let d = before.len() as int + id.len() + attributes.len() + 1;
    assert(html.subrange(d, d + data.len()) =~= data);
}

/// Where the three searches end.
proof fn lemma_finds(
    before: Seq<char>,
    id: Seq<char>,
    attributes: Seq<char>,
    data: Seq<char>,
    end: Seq<char>,
    after: Seq<char>,
)
    requires
        forall|i: int| 0 <= i < id.len() ==> id[i] != '>',
        forall|i: int| 0 <= i < attributes.len() ==> attributes[i] != '>',
        forall|i: int|
            0 <= i < before.len() ==> !stands_at(
                before + id + attributes + seq!['>'] + data + end + after,
                id,
                i,
            ),
        forall|i: int| 0 <= i < data.len() ==> !stands_at(data + end + after, end, i),
    ensures
        ({
            let html = before + id + attributes + seq!['>'] + data + end + after;
            let g = before.len() as int + id.len() + attributes.len();
            &&& find_from(html, id, 0) == Some(before.len() as int)
            &&& find_from(html, seq!['>'], before.len() as int) == Some(g)
            &&& find_from(html, end, g + 1) == Some(g + 1 + data.len())
        }),
{
    let html = before + id + attributes + seq!['>'] + data + end + after;
    let b = before.len() as int;
    let g = b + id.len() + attributes.len();
    let d = g + 1;
    let e = d + data.len();
    let gt = seq!['>'];
    assert(find_from(html, id, 0) == Some(b)) by {
        assert(html =~= before + id + (attributes + gt + data + end + after));
        lemma_stands_between(before, id, attributes + gt + data + end + after);
        lemma_find_is(html, id, 0, b);
    }
    assert(find_from(html, gt, b) == Some(g)) by {
        assert(html =~= (before + id + attributes) + gt + (data + end + after));
        lemma_stands_between(before + id + attributes, gt, data + end + after);
        assert forall|i: int| b <= i < g implies !stands_at(html, gt, i) by {
            if stands_at(html, gt, i) {
                assert(html.subrange(i, i + 1)[0] == html[i]);
                if i < b + id.len() {
                    assert(html[i] == id[i - b]);
                } else {
                    assert(html[i] == attributes[i - b - id.len()]);
                }
            }
        }
        lemma_find_is(html, gt, b, g);
    }
    assert(find_from(html, end, d) == Some(e)) by {
        let head = before + id + attributes + gt;
        let tail = data + end + after;
        assert(html =~= head + tail);
        assert(html =~= (head + data) + end + after);
        lemma_stands_between(head + data, end, after);
        assert forall|i: int| d <= i < e implies !stands_at(html, end, i) by {
            if stands_at(html, end, i) {
                assert(tail.subrange(i - d, i - d + end.len()) =~= html.subrange(i, i + end.len()));
                assert(stands_at(tail, end, i - d));
            }
        }
        lemma_find_is(html, end, d, e);
    }
}

/// The date listed is the first date of publication where the listing tells one,
/// whatever the other date is; else it is the other date.
pub proof fn law_first_date_counts(x: DetailExtras, listing: JsonView, ms: i64)
    requires
        are_extras_of(x, listing),
    ensures
        listing.get("firstPublishDate"@) matches Some(d) && d.as_i64() == Some(ms)
            ==> x.date_listed_ms == Some(ms),
        (listing.get("firstPublishDate"@) is None || listing.get("firstPublishDate"@)->0.as_i64()
            is None) && (listing.get("publishDate"@) matches Some(d) && d.as_i64() == Some(ms))
            ==> x.date_listed_ms == Some(ms),
        listing.get("firstPublishDate"@) is None && listing.get("publishDate"@) is None
            ==> x.date_listed_ms is None,
{
}

/// The views and the description are those that the listing tells; a number that
/// is no unsigned integer, or what is no text, is none.
pub proof fn law_views_and_description_are_told(x: DetailExtras, listing: JsonView)
    requires
        are_extras_of(x, listing),
    ensures
        listing.get("listingViews"@) matches Some(v) ==> x.views == v.as_u64(),
        listing.get("listingViews"@) is None ==> x.views is None,
        listing.get("description"@) matches Some(d) ==> (d.as_str() matches Some(t)
            ==> x.description is Some && x.description->0@ == t),
        listing.get("description"@) is None ==> x.description is None,
        listing.get("description"@) matches Some(d) && d.as_str() is None ==> x.description is None,
{
}

/// What a value is read as, by its kind.
pub proof fn law_values_are_read_by_kind(
    signed: Option<i64>,
    unsigned: Option<u64>,
    text: Seq<char>,
    items: Seq<JsonView>,
    b: bool,
)
    ensures
        JsonView::Number(signed, unsigned).as_i64() == signed,
        JsonView::Number(signed, unsigned).as_u64() == unsigned,
        JsonView::Text(text).as_str() == Some(text),
        JsonView::Array(items).as_array() == Some(items),
        JsonView::Text(text).as_i64() is None && JsonView::Text(text).as_u64() is None,
        JsonView::Number(signed, unsigned).as_str() is None,
        JsonView::Null.as_i64() is None && JsonView::Null.as_u64() is None && JsonView::Null.as_str()
            is None && JsonView::Null.as_array() is None,
        JsonView::Bool(b).as_i64() is None && JsonView::Bool(b).as_str() is None,
{
}

/// The overview holds one line for each item that has a label and a text, in the
/// order of the items.
pub proof fn law_overview_keeps_its_order(a: Seq<JsonView>, b: Seq<JsonView>, item: JsonView)
    ensures
        overview_of(a + b) == overview_of(a) + overview_of(b),
        item.get("label"@) is Some && item.get("text"@) is Some && item.get("label"@)->0.as_str()
            is Some && item.get("text"@)->0.as_str() is Some ==> overview_of(seq![item]) == seq![
            (item.get("label"@)->0.as_str()->0, item.get("text"@)->0.as_str()->0),
        ],
        item.get("label"@) is None || item.get("text"@) is None || item.get("label"@)->0.as_str()
            is None || item.get("text"@)->0.as_str() is None ==> overview_of(seq![item]).len() == 0,
        overview_of(Seq::empty()).len() == 0,
    decreases b.len(),
{
    let one = seq![item];
    assert(one.drop_last() =~= Seq::<JsonView>::empty());
    assert(overview_of(one.drop_last()) =~= Seq::<(Seq<char>, Seq<char>)>::empty());
    match (text_in(item, "label"@), text_in(item, "text"@)) {
        (Some(label), Some(text)) => {
            assert(overview_of(one) =~= seq![(label, text)]);
        },
        _ => {},
    }
    if b.len() == 0 {
        assert(a + b =~= a);
        assert(overview_of(a) + overview_of(b) =~= overview_of(a));
    } else {
        assert((a + b).drop_last() =~= a + b.drop_last());
        law_overview_keeps_its_order(a, b.drop_last(), item);
        assert(overview_of(a + b) =~= overview_of(a) + overview_of(b));
    }
}

/// The overview of a listing is that under its name, one line for one line; there
/// is none where nothing, or no array, stands there.
pub proof fn law_overview_is_told(x: DetailExtras, listing: JsonView)
    requires
        are_extras_of(x, listing),
    ensures
        listing.get("propertyOverview"@) is None ==> x.property_overview@.len() == 0,
        listing.get("propertyOverview"@) matches Some(v) && v.as_array() is None
            ==> x.property_overview@.len() == 0,
        listing.get("propertyOverview"@) is Some && listing.get("propertyOverview"@)->0.as_array()
            is Some ==> {
            let items = listing.get("propertyOverview"@)->0.as_array()->0;
            &&& x.property_overview@.len() == overview_of(items).len()
            &&& forall|i: int|
                0 <= i < x.property_overview@.len() ==> (#[trigger] x.property_overview@[i]).label@
                    == overview_of(items)[i].0 && x.property_overview@[i].text@ == overview_of(
                    items,
                )[i].1
        },
{
    let v = overview_views(x.property_overview@);
    assert(v.len() == x.property_overview@.len());
    assert(forall|i: int|
        0 <= i < v.len() ==> v[i] == (
            (#[trigger] x.property_overview@[i]).label@,
            x.property_overview@[i].text@,
        ));
}

/// The listing in a page's data stands under `props`, `pageProps` and `listing`,
/// and nowhere else.
pub proof fn law_listing_stands_under_its_path(v: JsonView)
    ensures
        v.get("props"@) is Some && v.get("props"@)->0.get("pageProps"@) is Some ==> listing_in(v)
            == v.get("props"@)->0.get("pageProps"@)->0.get("listing"@),
        v.get("props"@) is None ==> listing_in(v) is None,
        v.get("props"@) matches Some(props) && props.get("pageProps"@) is None ==> listing_in(v)
            is None,
{
}

/// A page without the tag's id, without an end of the tag after it, or without
/// the closing tag after that tells nothing, each for its own reason.
pub proof fn law_incomplete_pages_tell_nothing(html: Seq<char>)
    ensures
        next_data(html) == Err::<Seq<char>, DetailError>(DetailError::NoTag) <==> forall|i: int|
            0 <= i ==> !(#[trigger] stands_at(html, "id=\"__NEXT_DATA__\""@, i)),
        next_data(html) == Err::<Seq<char>, DetailError>(DetailError::MalformedTag) ==> exists|
            i: int,
        |
            0 <= i && #[trigger] stands_at(html, "id=\"__NEXT_DATA__\""@, i) && forall|j: int|
                i <= j ==> !(#[trigger] stands_at(html, ">"@, j)),
        next_data(html) == Err::<Seq<char>, DetailError>(DetailError::NoClosingTag) ==> exists|
            j: int,
        |
            0 <= j && #[trigger] stands_at(html, ">"@, j) && forall|k: int|
                j < k ==> !(#[trigger] stands_at(html, "</script>"@, k)),
        next_data(html) != Err::<Seq<char>, DetailError>(DetailError::BadJson),
        next_data(html) != Err::<Seq<char>, DetailError>(DetailError::NoListing),
{
    let id = "id=\"__NEXT_DATA__\""@;
    law_find_is_first(html, id, 0);
    match find_from(html, id, 0) {
        Some(i) => {
            law_find_is_first(html, ">"@, i);
            match find_from(html, ">"@, i) {
                Some(j) => {
                    law_find_is_first(html, "</script>"@, j + 1);
                },
                None => {},
            }
        },
        None => {},
    }
}

/// Each reason why a page tells nothing has its message.
pub proof fn law_page_errors_have_messages(e: DetailError)
    ensures
        e is NoTag ==> e.text() == "__NEXT_DATA__ tag not found in HTML"@,
        e is MalformedTag ==> e.text() == "malformed __NEXT_DATA__ open tag"@,
        e is NoClosingTag ==> e.text() == "__NEXT_DATA__ closing tag not found"@,
        e is BadJson ==> e.text() == "parsing __NEXT_DATA__ JSON"@,
        e is NoListing ==> e.text() == "no listing in __NEXT_DATA__"@,
{
}

} // verus!
