//! The map of the listings of all watches of a chat.

use vstd::prelude::*;

use crate::daft::Listing;
use crate::geo::Point;
use crate::number::{decimal_text, push_decimal};
use crate::state::{ChatState, State, WatchView};
use crate::staticmap::{build_url, map_text, MapView, MAX_MARKERS};
use crate::text::{begins, copy_of, views};

verus! {

/// The width of the map in pixels.
pub const WIDTH: u32 = 800;

/// The height of the map in pixels.
pub const HEIGHT: u32 = 600;

/// How a map begins.
#[derive(Debug)]
pub enum MapStart {
    /// There is no map; this says why.
    Refused(String),
    /// The listings of these addresses are to be fetched, after this notice.
    Fetch { notice: String, urls: Vec<String>, work_point: Option<Point> },
}

/// The addresses of some watches.
pub open spec fn urls_of(watches: Seq<WatchView>) -> Seq<Seq<char>> {
    watches.map_values(|w: WatchView| w.url)
}

/// The addresses of the watches of a chat.
fn watched(c: &ChatState) -> (r: Vec<String>)
    ensures
        views(r@) == urls_of(c@.watches),
{
    let mut urls: Vec<String> = Vec::new();
    assert(views(urls@) =~= urls_of(c@.watches).take(0));
    for i in 0..c.watches.len()
        invariant
            views(urls@) == urls_of(c@.watches).take(i as int),
    {
        let ghost before = urls@;
        assert(c@.watches[i as int] == c.watches@[i as int]@);
        urls.push(c.watches[i].url.clone());
        assert(views(urls@) =~= views(before).push(urls_of(c@.watches)[i as int]));
        assert(views(urls@) =~= urls_of(c@.watches).take(i + 1));
    }
    assert(urls_of(c@.watches).take(c.watches@.len() as int) =~= urls_of(c@.watches));
    urls
}

/// What is said where there is no key.
pub open spec fn no_key_text() -> Seq<char> {
    "/map needs GOOGLE_MAPS_API_KEY in .env (Maps Static API must be enabled on it)."@
}

/// What is said where there is no key.
fn no_key() -> (r: String)
    ensures
        r@ == no_key_text(),
{
    copy_of("/map needs GOOGLE_MAPS_API_KEY in .env (Maps Static API must be enabled on it).")
}

/// What is said where nothing is watched.
pub open spec fn no_watches_text() -> Seq<char> {
    "No watches yet. Send me a daft.ie URL first."@
}

/// What is said before `n` watches are fetched.
pub open spec fn notice_text(n: int) -> Seq<char> {
    "Fetching "@ + decimal_text(n) + " watch(es)…"@
}

/// Begins a map for a chat: it takes a key and a watch.
pub fn start_map(state: &State, chat_id: i64, has_key: bool) -> (r: MapStart)
    ensures
        ({
            let chat = state@.chat_or_fresh(chat_id);
            match r {
                MapStart::Refused(text) => if has_key {
                    chat.watches.len() == 0 && text@ == no_watches_text()
                } else {
                    text@ == no_key_text()
                },
                MapStart::Fetch { notice, urls, work_point } => {
                    &&& has_key
                    &&& chat.watches.len() > 0
                    &&& notice@ == notice_text(chat.watches.len() as int)
                    &&& views(urls@) == urls_of(chat.watches)
                    &&& work_point == chat.work_point
                },
            }
        }),
{
    if !has_key {
        return MapStart::Refused(no_key());
    }
    match state.chat_get(chat_id) {
        Some(c) => {
            if c.watches.len() > 0 {
                let urls = watched(c);
                assert(urls@.len() == urls_of(c@.watches).len());
                let mut notice = copy_of("Fetching ");
                push_decimal(&mut notice, urls.len() as u64);
                notice.append(" watch(es)…");
                let work_point = match &c.work_point {
                    Some(p) => Some(p.clone()),
                    None => None,
                };
                return MapStart::Fetch { notice, urls, work_point };
            }
        },
        None => {},
    }
    MapStart::Refused(copy_of("No watches yet. Send me a daft.ie URL first."))
}

/// The places of the listings that have both coordinates.
pub open spec fn places_of(listings: Seq<Listing>) -> Seq<Point>
    decreases listings.len(),
{
    if listings.len() == 0 {
        Seq::empty()
    } else {
        let front = places_of(listings.drop_last());
        match (listings.last().lat, listings.last().lng) {
            (Some(lat), Some(lng)) => front.push(Point { lat, lng }),
            _ => front,
        }
    }
}

/// Appends the places of the listings that have both coordinates.
pub fn collect_points(points: &mut Vec<Point>, listings: &Vec<Listing>)
    ensures
        final(points)@ == old(points)@ + places_of(listings@),
{
    assert(points@ =~= old(points)@ + places_of(listings@.take(0)));
    for i in 0..listings.len()
        invariant
            points@ == old(points)@ + places_of(listings@.take(i as int)),
    {
        assert(listings@.take(i + 1).drop_last() =~= listings@.take(i as int));
        let l = &listings[i];
        match &l.lat {
            Some(lat) => match &l.lng {
                Some(lng) => {
                    points.push(Point { lat: lat.clone(), lng: lng.clone() });
                },
                None => {},
            },
            None => {},
        }
        assert(points@ =~= old(points)@ + places_of(listings@.take(i + 1)));
    }
    assert(listings@.take(listings@.len() as int) =~= listings@);
}

/// What answers the request for a map.
#[derive(Debug)]
pub enum MapReply {
    /// There is no map; this says why.
    Text(String),
    /// The address of the image and the caption, which is no HTML.
    Photo { url: String, caption: String },
}

/// What is said where there is nothing to show.
pub open spec fn no_points_text() -> Seq<char> {
    "No listings with coordinates were returned."@
}

/// The caption of a map of `n` listings.
pub open spec fn map_caption(n: int, with_work: bool) -> Seq<char> {
    let shown = if n > MAX_MARKERS {
        MAX_MARKERS as int
    } else {
        n
    };
    let count = decimal_text(shown) + " of "@ + decimal_text(n) + " listing(s) on map"@;
    if with_work {
        count + " · blue pin (W) = your work point"@
    } else {
        count
    }
}

/// Answers the request for a map with an image of the places that were found.
pub fn map_reply(
    points: &Vec<Point>,
    work_point: Option<&Point>,
    view: &MapView,
    api_key: &str,
) -> (r: MapReply)
    ensures
        match r {
            MapReply::Text(text) => if points@.len() == 0 {
                text@ == no_points_text()
            } else {
                api_key@.len() == 0 && text@ == no_key_text()
            },
            MapReply::Photo { url, caption } => {
                &&& points@.len() > 0
                &&& api_key@.len() > 0
                &&& caption@ == map_caption(points@.len() as int, work_point is Some)
                &&& url@ == map_text(
                    points@,
                    match work_point {
                        Some(p) => Some(*p),
                        None => None,
                    },
                    *view,
                    800,
                    600,
                    api_key@,
                )
            },
        },
{
    let n: usize = points.len();
    if n == 0 {
        return MapReply::Text(copy_of("No listings with coordinates were returned."));
    }
    let shown: usize = if n > MAX_MARKERS {
        MAX_MARKERS
    } else {
        n
    };
    let mut caption = String::new();
    push_decimal(&mut caption, shown as u64);
    assert(caption@ =~= decimal_text(shown as int));
    caption.append(" of ");
    push_decimal(&mut caption, n as u64);
    caption.append(" listing(s) on map");
    if work_point.is_some() {
        caption.append(" · blue pin (W) = your work point");
    }
    match build_url(points, work_point, view, WIDTH, HEIGHT, api_key) {
        Some(url) => MapReply::Photo { url, caption },
        None => MapReply::Text(no_key()),
    }
}

/// What is said where sending the image failed with an error.
pub fn map_failure(e: &str) -> (r: String)
    ensures
        r@ == "Map service failed: "@ + e@
            + "\n(Is 'Maps Static API' enabled + allowed on your API key?)"@,
{
    let mut text = copy_of("Map service failed: ");
    text.append(e);
    text.append("\n(Is 'Maps Static API' enabled + allowed on your API key?)");
    text
}

/// What is said where the address of the image could not be read.
pub fn bad_map_url(e: &str) -> (r: String)
    ensures
        r@ == "Internal: bad map URL: "@ + e@,
{
    let mut text = copy_of("Internal: bad map URL: ");
    text.append(e);
    text
}

/// A listing is on the map where, and only where, it has both coordinates.
pub proof fn law_places_are_of_listings(listings: Seq<Listing>, p: Point)
    ensures
        places_of(listings).contains(p) <==> exists|i: int|
            0 <= i < listings.len() && (#[trigger] listings[i]).lat == Some(p.lat)
                && listings[i].lng == Some(p.lng),
    decreases listings.len(),
{
    if listings.len() > 0 {
        let front = listings.drop_last();
        law_places_are_of_listings(front, p);
        let places = places_of(listings);
        let before = places_of(front);
        if places.contains(p) {
            let k = choose|k: int| 0 <= k < places.len() && places[k] == p;
            if k < before.len() {
                assert(before[k] == p);
                let i = choose|i: int|
                    0 <= i < front.len() && (#[trigger] front[i]).lat == Some(p.lat)
                        && front[i].lng == Some(p.lng);
                assert(listings[i].lat == Some(p.lat));
            } else {
                assert(listings[listings.len() - 1].lat == Some(p.lat));
            }
        }
        if exists|i: int|
            0 <= i < listings.len() && (#[trigger] listings[i]).lat == Some(p.lat)
                && listings[i].lng == Some(p.lng) {
            let i = choose|i: int|
                0 <= i < listings.len() && (#[trigger] listings[i]).lat == Some(p.lat)
                    && listings[i].lng == Some(p.lng);
            if i < front.len() {
                assert(front[i].lat == Some(p.lat));
                let k = choose|k: int| 0 <= k < before.len() && before[k] == p;
                assert(places[k] == p);
            } else {
                assert(places[places.len() - 1] == p);
            }
        }
    }
}

/// The places stand in the order of the listings.
pub proof fn law_places_keep_their_order(a: Seq<Listing>, b: Seq<Listing>, l: Listing)
    ensures
        places_of(a + b) == places_of(a) + places_of(b),
        l.lat is Some && l.lng is Some ==> places_of(seq![l]) == seq![
            (Point { lat: l.lat->0, lng: l.lng->0 }),
        ],
        l.lat is None || l.lng is None ==> places_of(seq![l]).len() == 0,
    decreases b.len(),
{
    assert(seq![l].drop_last() =~= Seq::<Listing>::empty());
    assert(places_of(seq![l].drop_last()) =~= Seq::<Point>::empty());
    if l.lat is Some && l.lng is Some {
        assert(places_of(seq![l]) =~= seq![(Point { lat: l.lat->0, lng: l.lng->0 })]);
    }
    if b.len() == 0 {
        assert(a + b =~= a);
        assert(places_of(a) + places_of(b) =~= places_of(a));
    } else {
        assert((a + b).drop_last() =~= a + b.drop_last());
        law_places_keep_their_order(a, b.drop_last(), l);
        assert(places_of(a + b) =~= places_of(a) + places_of(b));
    }
}

/// The caption of a map tells how many listings are shown, which are all of them
/// up to fifty and fifty of more, and how many there are; it tells of the work
/// point where there is one.
pub proof fn law_map_caption_counts(n: int, shown: int)
    requires
        0 <= n,
        shown <= n && shown <= 50 && (shown == n || shown == 50),
    ensures
        map_caption(n, false) == decimal_text(shown) + " of "@ + decimal_text(n)
            + " listing(s) on map"@,
        map_caption(n, true) == map_caption(n, false) + " · blue pin (W) = your work point"@,
{
}

/// The addresses to be fetched for a map are those of the watches, in their order.
pub proof fn law_map_covers_every_watch(watches: Seq<WatchView>, i: int)
    requires
        0 <= i < watches.len(),
    ensures
        urls_of(watches).len() == watches.len(),
        urls_of(watches)[i] == watches[i].url,
{
}

/// What is said around a map: how many watches are fetched, or that there is no
/// key, no watch or no place.
pub proof fn law_map_replies_tell_why(n: int)
    ensures
        notice_text(n) == "Fetching "@ + decimal_text(n) + " watch(es)…"@,
        begins(no_key_text(), "/map needs GOOGLE_MAPS_API_KEY"@),
        begins(no_watches_text(), "No watches yet."@),
        begins(no_points_text(), "No listings with coordinates"@),
{
    reveal_strlit("/map needs GOOGLE_MAPS_API_KEY");
    reveal_strlit("/map needs GOOGLE_MAPS_API_KEY in .env (Maps Static API must be enabled on it).");
    assert(no_key_text().subrange(0, 30) =~= "/map needs GOOGLE_MAPS_API_KEY"@);
    reveal_strlit("No watches yet.");
    reveal_strlit("No watches yet. Send me a daft.ie URL first.");
    assert(no_watches_text().subrange(0, 15) =~= "No watches yet."@);
    reveal_strlit("No listings with coordinates");
    reveal_strlit("No listings with coordinates were returned.");
    assert(no_points_text().subrange(0, 28) =~= "No listings with coordinates"@);
}

} // verus!
