use daftie::caption::{
    format_caption, has_phone, preferences_emojis, render_overview_line, CAPTION_LIMIT,
};
use daftie::clock::TimeOfDay;
use daftie::daft::Listing;
use daftie::detail::{DetailExtras, OverviewItem};
use daftie::geo::{Degrees, Point};
use daftie::post::{post_of, post_with, Post};
use daftie::routing::CommuteTimes;
use daftie::plan::Step;
use daftie::state::State;
use daftie::sweep::{end_check, start_check, CheckStart, Sweep};

fn value(x: f64) -> Degrees {
    Degrees { bits: x.to_bits(), text: format!("{x}"), fixed: format!("{x:.5}") }
}

fn listing(id: u64) -> Listing {
    Listing {
        id,
        title: "Main St".to_string(),
        price: None,
        price_monthly: None,
        bedrooms: None,
        property_type: None,
        category: None,
        ber_rating: None,
        publish_date: None,
        seller_name: None,
        seller_phone: None,
        lat: None,
        lng: None,
        url: "https://d/1".to_string(),
        images: vec![],
        facilities: vec![],
    }
}

fn item(label: &str, text: &str) -> OverviewItem {
    OverviewItem { label: label.to_string(), text: text.to_string() }
}

fn full_listing() -> Listing {
    Listing {
        price: Some("€800 & up".to_string()),
        bedrooms: Some("2 Bed".to_string()),
        property_type: Some("House".to_string()),
        ber_rating: Some("B2".to_string()),
        seller_name: Some("Ann".to_string()),
        seller_phone: Some(" 087 ".to_string()),
        lat: Some(value(51.5)),
        lng: Some(value(-8.25)),
        facilities: vec!["Parking".to_string(), "Wi<Fi".to_string()],
        ..listing(1)
    }
}

#[test]
fn a_caption_tells_everything_known() {
    let extras = DetailExtras {
        date_listed_ms: Some(1700000000000),
        views: Some(12345),
        description: Some("A fine room".to_string()),
        property_overview: vec![
            item("Bedrooms Available", "1"), item("Preferences", "Female / Couples"),
            item("Preferences", "Any"),
        ],
    };
    let times = CommuteTimes { driving: Some(1500), walking: None, bicycling: Some(5520), transit: Some(7200) };
    assert_eq!(
        format_caption(&full_listing(), Some(&extras), Some(&times)),
        "<b>€800 &amp; up</b> — 2 Bed\n🏠 House • BER B2\n📍 Main St\n👤 Ann\n📞 <code>087</code>\n🛏 Beds: <b>1</b>\n👱🏻\u{200d}♀\u{fe0f} Couples\nPreferences: <b>Any</b>\n🗓 <b>14/11/2023</b>\n👁 <b>12,345</b>\n✨ Parking, Wi&lt;Fi\n🚗 25 min\n🚴 1h 32m\n🚌 2h\n<a href=\"https://d/1\">View on daft.ie</a> · <a href=\"https://www.google.com/maps?q=51.5,-8.25&amp;z=13\">Google Maps</a>"
    );
}

#[test]
fn a_caption_leaves_out_what_is_unknown() {
    let mut l = listing(1);
    l.ber_rating = Some("A1".to_string());
    l.seller_phone = Some("  ".to_string());
    l.lat = Some(value(1.0));
    assert_eq!(
        format_caption(&l, None, None),
        "<b>price unknown</b>\n📍 Main St\n<a href=\"https://d/1\">View on daft.ie</a>"
    );
    assert_eq!(
        format_caption(&l, Some(&DetailExtras::default()), Some(&CommuteTimes::default())),
        format_caption(&l, None, None)
    );
    let far = DetailExtras { date_listed_ms: Some(i64::MAX), ..DetailExtras::default() };
    assert_eq!(format_caption(&l, Some(&far), None), format_caption(&l, None, None));
}

#[test]
fn captions_keep_to_the_limit() {
    let mut l = listing(1);
    l.title = "é".repeat(2000);
    let c = format_caption(&l, None, None);
    assert_eq!(c.chars().count(), CAPTION_LIMIT);
    assert!(c.ends_with("éé…"));
    let rest = format_caption(&listing(1), None, None).chars().count() - "Main St".len();
    l.title = "x".repeat(CAPTION_LIMIT - rest);
    assert!(format_caption(&l, None, None).ends_with("</a>"));
    l.title.push('x');
    assert!(format_caption(&l, None, None).ends_with("</…"));
}

#[test]
fn overview_lines_have_styles() {
    let lines = [
        ("Bedrooms Available", "🛏 Beds: <b>a&amp;b</b>\n"),
        ("Available From", "📅 <b>a&amp;b</b>\n"),
        ("Available For", "📆 <b>a&amp;b</b>\n"),
        ("Sharing with", "Sharing: <b>a&amp;b</b>\n"),
        ("Owner Occupied", "Owner: <b>a&amp;b</b>\n"),
        ("A<", "A&lt;: <b>a&amp;b</b>\n"),
    ];
    for (label, line) in lines {
        assert_eq!(render_overview_line(label, "a&b"), line);
    }
}

#[test]
fn preferences_show_genders_as_emojis() {
    let (f, m) = ("👱🏻\u{200d}♀\u{fe0f}", "👱🏻\u{200d}♂\u{fe0f}");
    assert_eq!(preferences_emojis("Male / FEMALE"), Some(format!("{m} {f}")));
    assert_eq!(preferences_emojis("female//+1 Person/"), Some(format!("{f} +1 Person")));
    assert_eq!(preferences_emojis("Couples"), None);
    assert_eq!(preferences_emojis(""), None);
}

#[test]
fn a_phone_number_is_more_than_white_space() {
    assert!(has_phone(&full_listing()));
    assert!(!has_phone(&listing(1)));
    assert!(!has_phone(&Listing { seller_phone: Some(" \t".to_string()), ..listing(1) }));
}

fn pictures(urls: &[&str]) -> Vec<String> {
    urls.iter().map(|u| u.to_string()).collect()
}

fn posted(urls: &[&str]) -> String {
    match post_with(&pictures(urls), "C".to_string()) {
        Post::Text { caption } => format!("text {caption}"),
        Post::Photo { url, caption } => format!("photo {url} {caption}"),
        Post::Album { photos } => photos
            .iter()
            .map(|p| format!("{}={}", p.url, p.caption.as_deref().unwrap_or("")))
            .collect::<Vec<_>>()
            .join(" "),
    }
}

#[test]
fn listings_are_sent_with_their_pictures() {
    assert_eq!(posted(&[]), "text C");
    assert_eq!(posted(&["nope"]), "text C");
    assert_eq!(posted(&["http://a"]), "photo http://a C");
    assert_eq!(posted(&["http://a", "nope"]), "photo http://a C");
    assert_eq!(posted(&["http://a", "http://b"]), "http://a=C http://b=");
    assert_eq!(
        posted(&["http://a", "http://b", "http://c", "http://d"]),
        "http://a=C http://b= http://c="
    );
}

#[test]
fn the_caption_belongs_to_the_first_picture() {
    assert_eq!(posted(&["nope", "http://b"]), "text C");
    assert_eq!(posted(&["nope", "http://b", "http://c"]), "http://b= http://c=");
    assert_eq!(posted(&["nope", "no", "never", "http://d"]), "text C");
}

#[test]
fn posts_carry_the_caption_of_their_listing() {
    let l = Listing { images: pictures(&["https://x/1.jpg"]), ..listing(1) };
    match post_of(&l, None, None) {
        Post::Photo { url, caption } => {
            assert_eq!(url, "https://x/1.jpg");
            assert_eq!(caption, format_caption(&l, None, None));
        }
        other => panic!("{other:?}"),
    }
}

#[test]
fn a_check_begins_with_a_search() {
    let mut s = State::default();
    let noon = TimeOfDay { secs: 12 * 3600, nanos: 0 };
    match start_check(&s, 1, "https://daft.ie/sharing/cork", noon) {
        CheckStart::Fetch(q) => assert_eq!(q.area_slug, "cork"),
        other => panic!("{other:?}"),
    }
    match start_check(&s, 1, "https://daft.ie/sharing", noon) {
        CheckStart::BadUrl(e) => assert_eq!(e.message(), "URL path missing area slug"),
        other => panic!("{other:?}"),
    }
    s.chat_mut(1).sleep = Some("12-13".to_string());
    assert!(matches!(
        start_check(&s, 1, "https://daft.ie/sharing/cork", noon),
        CheckStart::Asleep
    ));
}

fn sweep_all(s: &mut State, listings: Vec<Listing>, fails: &[u64]) -> (Vec<u64>, Sweep) {
    let mut w = Sweep::new(s, 1, listings);
    let mut ids = vec![];
    while w.advance(s) {
        let id = w.current().unwrap().id;
        let ok = !fails.contains(&id);
        if ok {
            ids.push(id);
        }
        w.report(s, ok);
    }
    (ids, w)
}

fn some_listings() -> Vec<Listing> {
    let phone = |l: Listing| Listing { seller_phone: Some("1".to_string()), ..l };
    vec![phone(listing(1)), listing(2), phone(listing(3)), phone(listing(1)), listing(4)]
}

#[test]
fn new_listings_are_sent_once() {
    let mut s = State::default();
    s.mark_seen(4);
    let (ids, w) = sweep_all(&mut s, some_listings(), &[]);
    assert_eq!(ids, vec![1, 2, 3]);
    assert_eq!((w.sent, w.skipped, w.filtered, w.failed), (3, 2, 0, 0));
    assert!(s.is_seen(1) && s.is_seen(2) && s.is_seen(3));
    assert!(w.current().is_none());
}

#[test]
fn a_second_check_is_quiet() {
    let mut s = State::default();
    sweep_all(&mut s, some_listings(), &[]);
    let (ids, w) = sweep_all(&mut s, some_listings(), &[]);
    assert!(ids.is_empty());
    assert_eq!((w.sent, w.skipped), (0, 5));
}

#[test]
fn what_the_filter_holds_back_is_not_lost() {
    let mut s = State::default();
    s.chat_mut(1).filter_phone = true;
    let (ids, w) = sweep_all(&mut s, some_listings(), &[]);
    assert_eq!(ids, vec![1, 3]);
    assert_eq!((w.sent, w.skipped, w.filtered, w.failed), (2, 1, 2, 0));
    assert!(!s.is_seen(2) && !s.is_seen(4));
    s.chat_mut(1).filter_phone = false;
    let (ids, _) = sweep_all(&mut s, some_listings(), &[]);
    assert_eq!(ids, vec![2, 4]);
}

#[test]
fn what_failed_is_tried_again() {
    let mut s = State::default();
    let (ids, w) = sweep_all(&mut s, some_listings(), &[1]);
    assert_eq!(ids, vec![2, 3, 4]);
    assert_eq!((w.sent, w.skipped, w.filtered, w.failed), (3, 0, 0, 2));
    assert!(!s.is_seen(1));
    let (ids, _) = sweep_all(&mut s, some_listings(), &[]);
    assert_eq!(ids, vec![1]);
}

#[test]
fn a_cleared_history_is_sent_again() {
    let mut s = State::default();
    sweep_all(&mut s, some_listings(), &[]);
    s.clear_seen();
    let (ids, _) = sweep_all(&mut s, some_listings(), &[]);
    assert_eq!(ids, vec![1, 2, 3, 4]);
}

#[test]
fn the_way_to_work_needs_both_ends_and_a_key() {
    let mut s = State::default();
    let here = || vec![Listing { lat: Some(value(1.0)), lng: Some(value(2.0)), ..listing(1) }];
    assert!(Sweep::new(&s, 1, here()).commute(true).is_none());
    s.chat_mut(1).work_point = Some(Point { lat: value(3.0), lng: value(4.0) });
    let w = Sweep::new(&s, 1, here());
    let (from, to) = w.commute(true).unwrap();
    assert_eq!((from.lat.text.as_str(), from.lng.text.as_str()), ("1", "2"));
    assert_eq!((to.lat.text.as_str(), to.lng.text.as_str()), ("3", "4"));
    assert!(w.commute(false).is_none());
    assert!(Sweep::new(&s, 1, vec![listing(1)]).commute(true).is_none());
    assert!(Sweep::new(&s, 1, vec![]).commute(true).is_none());
    assert!(Sweep::new(&s, 2, here()).commute(true).is_none());
}

#[test]
fn a_listing_found_twice_may_fail_and_then_be_sent() {
    let mut s = State::default();
    let mut w = Sweep::new(&s, 1, vec![listing(1), listing(2), listing(1), listing(1)]);
    let mut ids = vec![];
    while w.advance(&s) {
        let ok = w.position != 0;
        if ok {
            ids.push(w.current().unwrap().id);
        }
        w.report(&mut s, ok);
    }
    assert_eq!(ids, vec![2, 1]);
    assert_eq!((w.sent, w.skipped, w.filtered, w.failed), (2, 1, 0, 1));
    assert!(s.is_seen(1));
}

#[test]
fn listings_are_cloned() {
    let l = full_listing();
    let c = l.clone();
    assert_eq!(format_caption(&c, None, None), format_caption(&l, None, None));
    let x = DetailExtras {
        views: Some(2),
        property_overview: vec![item("A", "b")],
        ..DetailExtras::default()
    };
    assert_eq!(x.clone().property_overview[0].clone().text, "b");
}

#[test]
fn the_state_is_written_after_a_send_and_at_the_end() {
    let mut s = State::default();
    s.add_watch(1, "u".to_string());
    let mut w = Sweep::new(&s, 1, vec![listing(1), listing(2)]);
    assert!(w.advance(&s));
    assert!(w.report(&mut s, false).is_empty());
    assert!(!s.is_seen(1));
    assert!(w.advance(&s));
    let steps = w.report(&mut s, true);
    assert!(steps.len() == 1 && matches!(steps[0], Step::Save));
    assert!(s.is_seen(2));
    let steps = end_check(&mut s, 1, "u", 77);
    assert!(steps.len() == 1 && matches!(steps[0], Step::Save));
    assert_eq!(s.chat_get(1).unwrap().watches[0].last_check, 77);
}
