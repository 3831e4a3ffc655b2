use daftie::geo::{is_nan, rank, Degrees, Point, INFINITY_RANK, NINETY, ONE_EIGHTY};
use daftie::mapping::{
    bad_map_url, collect_points, map_failure, map_reply, start_map, MapReply, MapStart,
};
use daftie::daft::Listing;
use daftie::routing::{
    format_duration, request_url, travel_seconds, ApiElement, ApiResp, ApiRow, CommuteTimes, Mode,
};
use daftie::state::State;
use daftie::staticmap::{
    all_pins, build_url, extent, zoom_for, MapView, FIVE_HUNDREDTHS, HALF, INFINITY_BITS,
    MAX_MARKERS, NEGATIVE_INFINITY_BITS, ONE, ONE_HUNDREDTH, ONE_TENTH, TWO_HUNDREDTHS,
    TWO_TENTHS,
};

fn deg(x: f64) -> Degrees {
    Degrees { bits: x.to_bits(), text: format!("{x}"), fixed: format!("{x:.5}") }
}

fn place(lat: f64, lng: f64) -> Point {
    Point { lat: deg(lat), lng: deg(lng) }
}

#[test]
fn ranks_order_doubles() {
    let xs = [f64::NEG_INFINITY, -1e300, -2.0, -0.1, 0.0, 1e-310, 0.1, 90.0, f64::INFINITY];
    for a in xs {
        for b in xs {
            assert_eq!(rank(a.to_bits()) < rank(b.to_bits()), a < b);
        }
    }
    assert_eq!(rank((-0.0f64).to_bits()), rank(0.0f64.to_bits()));
    assert!(is_nan(f64::NAN.to_bits()));
    assert!(is_nan((-f64::NAN).to_bits()));
    assert!(!is_nan(f64::INFINITY.to_bits()));
}

#[test]
fn named_bit_patterns_are_those_of_the_numbers() {
    let named = [
        (INFINITY_RANK, f64::INFINITY), (NINETY, 90.0), (ONE_EIGHTY, 180.0), (ONE, 1.0),
        (HALF, 0.5), (TWO_TENTHS, 0.2), (ONE_TENTH, 0.1), (FIVE_HUNDREDTHS, 0.05),
        (TWO_HUNDREDTHS, 0.02), (ONE_HUNDREDTH, 0.01),
    ];
    for (bits, x) in named {
        assert_eq!(bits as u64, x.to_bits());
    }
    assert_eq!(INFINITY_BITS, f64::INFINITY.to_bits());
    assert_eq!(NEGATIVE_INFINITY_BITS, f64::NEG_INFINITY.to_bits());
}

#[test]
fn only_places_on_the_globe_are_in_range() {
    assert!(place(90.0, -180.0).is_on_globe());
    assert!(place(-90.0, 180.0).is_on_globe());
    assert!(place(51.9, -8.5).is_on_globe());
    assert!(!place(90.00001, 0.0).is_on_globe());
    assert!(!place(0.0, -180.5).is_on_globe());
    assert!(!place(f64::NAN, 0.0).is_on_globe());
    assert!(!place(0.0, f64::INFINITY).is_on_globe());
}

#[test]
fn the_extent_is_that_of_the_numbers() {
    assert!(extent(&vec![]).is_none());
    let x = extent(&vec![place(51.0, -8.0), place(53.5, -9.25), place(f64::NAN, -6.0)]).unwrap();
    assert_eq!(x.lat_min, 51.0f64.to_bits());
    assert_eq!(x.lat_max, 53.5f64.to_bits());
    assert_eq!(x.lng_min, (-9.25f64).to_bits());
    assert_eq!(x.lng_max, (-6.0f64).to_bits());
}

#[test]
fn the_zoom_falls_as_the_span_grows() {
    let expected = [
        (1.5, 8), (1.0, 9), (0.6, 9), (0.5, 10), (0.3, 10), (0.2, 11), (0.15, 11), (0.1, 12),
        (0.07, 12), (0.05, 13), (0.03, 13), (0.02, 14), (0.015, 14), (0.01, 15), (0.0, 15),
    ];
    for (span, zoom) in expected {
        let span: f64 = span;
        assert_eq!(zoom_for(span.to_bits()), zoom, "{span}");
    }
    assert_eq!(zoom_for(f64::NAN.to_bits()), 15);
    assert_eq!(zoom_for(f64::INFINITY.to_bits()), 8);
}

#[test]
fn a_map_address_names_its_pins() {
    let view = MapView { lat: "52".to_string(), lng: "-8".to_string(), zoom: 9 };
    let url = build_url(
        &vec![place(51.5, -8.5), place(52.0, -7.0)], Some(&place(51.9, -8.47)), &view, 800, 600,
        "KEY",
    );
    assert_eq!(
        url.as_deref(),
        Some("https://maps.googleapis.com/maps/api/staticmap?center=52,-8&zoom=9&size=800x600&maptype=roadmap&markers=color:red|size:small|51.5,-8.5|52,-7&markers=color:blue|label:W|51.9,-8.47&key=KEY")
    );
    let bare = build_url(&vec![], None, &MapView::ireland(), 1, 2, "K");
    assert_eq!(
        bare.as_deref(),
        Some("https://maps.googleapis.com/maps/api/staticmap?center=53.35,-6.26&zoom=7&size=1x2&maptype=roadmap&markers=color:red|size:small&key=K")
    );
}

#[test]
fn there_is_no_map_address_without_a_key() {
    assert_eq!(build_url(&vec![place(1.0, 2.0)], None, &MapView::ireland(), 1, 2, ""), None);
}

#[test]
fn pins_are_limited() {
    let many: Vec<Point> = (0..60).map(|i| place(i as f64, 0.0)).collect();
    let fifty: Vec<Point> = (0..50).map(|i| place(i as f64, 0.0)).collect();
    assert_eq!(MAX_MARKERS, 50);
    let view = MapView::ireland();
    let a = build_url(&many, None, &view, 8, 6, "k");
    assert_eq!(a, build_url(&fifty, None, &view, 8, 6, "k"));
    assert!(a.unwrap().contains("|49,0&"));
}

#[test]
fn the_work_point_is_framed_with_the_listings() {
    let work = place(10.0, 20.0);
    let all = all_pins(&vec![place(1.0, 2.0)], Some(&work));
    assert_eq!(all.len(), 2);
    assert_eq!(all[1].lat.text, "10");
    assert_eq!(all_pins(&vec![place(1.0, 2.0)], None).len(), 1);
}

fn found(lat: Option<f64>, lng: Option<f64>) -> Listing {
    Listing {
        id: 1,
        title: "t".to_string(),
        price: None,
        price_monthly: None,
        bedrooms: None,
        property_type: None,
        category: None,
        ber_rating: None,
        publish_date: None,
        seller_name: None,
        seller_phone: None,
        lat: lat.map(deg),
        lng: lng.map(deg),
        url: "u".to_string(),
        images: vec![],
        facilities: vec![],
    }
}

#[test]
fn a_map_takes_a_key_and_a_watch() {
    let mut s = State::default();
    match start_map(&s, 5, false) {
        MapStart::Refused(t) => assert_eq!(
            t,
            "/map needs GOOGLE_MAPS_API_KEY in .env (Maps Static API must be enabled on it)."
        ),
        other => panic!("{other:?}"),
    }
    match start_map(&s, 5, true) {
        MapStart::Refused(t) => assert_eq!(t, "No watches yet. Send me a daft.ie URL first."),
        other => panic!("{other:?}"),
    }
    s.add_watch(5, "https://a".to_string());
    s.add_watch(5, "https://b".to_string());
    s.chat_mut(5).work_point = Some(place(1.0, 2.0));
    match start_map(&s, 5, true) {
        MapStart::Fetch { notice, urls, work_point } => {
            assert_eq!(notice, "Fetching 2 watch(es)…");
            assert_eq!(urls, vec!["https://a".to_string(), "https://b".to_string()]);
            assert_eq!(work_point.unwrap().lng.text, "2");
        }
        other => panic!("{other:?}"),
    }
}

#[test]
fn only_listings_with_both_coordinates_are_on_the_map() {
    let mut points = vec![place(0.0, 0.0)];
    collect_points(
        &mut points,
        &vec![
            found(Some(1.0), Some(2.0)), found(None, Some(3.0)), found(Some(4.0), None),
            found(Some(5.0), Some(6.0)),
        ],
    );
    let texts: Vec<String> = points.iter().map(|p| format!("{}/{}", p.lat.text, p.lng.text)).collect();
    assert_eq!(texts, vec!["0/0", "1/2", "5/6"]);
}

#[test]
fn a_map_is_captioned_with_what_it_shows() {
    let view = MapView::ireland();
    match map_reply(&vec![], None, &view, "k") {
        MapReply::Text(t) => assert_eq!(t, "No listings with coordinates were returned."),
        other => panic!("{other:?}"),
    }
    let many: Vec<Point> = (0..60).map(|i| place(i as f64, 0.0)).collect();
    match map_reply(&many, Some(&place(1.0, 1.0)), &view, "k") {
        MapReply::Photo { url, caption } => {
            assert_eq!(caption, "50 of 60 listing(s) on map · blue pin (W) = your work point");
            assert!(url.contains("&size=800x600&"));
        }
        other => panic!("{other:?}"),
    }
    match map_reply(&vec![place(1.0, 1.0)], None, &view, "k") {
        MapReply::Photo { caption, .. } => assert_eq!(caption, "1 of 1 listing(s) on map"),
        other => panic!("{other:?}"),
    }
    assert!(matches!(map_reply(&many, None, &view, ""), MapReply::Text(_)));
}

#[test]
fn map_failures_are_told() {
    assert_eq!(
        map_failure("boom"),
        "Map service failed: boom\n(Is 'Maps Static API' enabled + allowed on your API key?)"
    );
    assert_eq!(bad_map_url("x"), "Internal: bad map URL: x");
}

#[test]
fn travel_requests_name_both_ends() {
    assert_eq!(
        request_url(&place(51.5, -8.5), &place(51.9, -8.0), Mode::Bicycling, "K"),
        "https://maps.googleapis.com/maps/api/distancematrix/json?origins=51.5,-8.5&destinations=51.9,-8&mode=bicycling&key=K"
    );
    assert_eq!(Mode::Driving.as_str(), "driving");
    assert_eq!(Mode::Walking.as_str(), "walking");
    assert_eq!(Mode::Transit.as_str(), "transit");
    assert_eq!(Mode::Driving.emoji(), "🚗");
    assert_eq!(Mode::Walking.emoji(), "🚶");
    assert_eq!(Mode::Bicycling.emoji(), "🚴");
    assert_eq!(Mode::Transit.emoji(), "🚌");
}

fn reply(status: &str, rows: Vec<Vec<(&str, Option<u32>)>>, error: Option<&str>) -> ApiResp {
    ApiResp {
        status: status.to_string(),
        rows: rows
            .into_iter()
            .map(|es| ApiRow {
                elements: es
                    .into_iter()
                    .map(|(s, d)| ApiElement { status: s.to_string(), duration: d })
                    .collect(),
            })
            .collect(),
        error_message: error.map(String::from),
    }
}

#[test]
fn travel_replies_give_seconds_or_an_error() {
    assert_eq!(travel_seconds(&reply("OK", vec![vec![("OK", Some(90))]], None)), Ok(90));
    let wrong = [
        (reply("DENIED", vec![], Some("no")), "API status DENIED: no"),
        (reply("DENIED", vec![], None), "API status DENIED: "),
        (reply("OK", vec![], None), "no row in response"),
        (reply("OK", vec![vec![]], None), "no element in row"),
        (reply("OK", vec![vec![("ZERO_RESULTS", None)]], None), "element status: ZERO_RESULTS"),
        (reply("OK", vec![vec![("OK", None)]], None), "element has no duration"),
    ];
    for (r, e) in wrong {
        assert_eq!(travel_seconds(&r), Err(e.to_string()));
    }
}

#[test]
fn a_mode_that_failed_has_no_time() {
    let e = || Err("x".to_string());
    let t = CommuteTimes::from_outcomes(Ok(1), e(), Ok(3), e());
    assert_eq!((t.driving, t.walking, t.bicycling, t.transit), (Some(1), None, Some(3), None));
    assert!(t.any());
    assert!(t.if_any().is_some());
    assert!(!CommuteTimes::default().any());
    assert!(CommuteTimes::from_outcomes(e(), e(), e(), e()).if_any().is_none());
}

#[test]
fn durations_are_rounded_to_minutes() {
    assert_eq!(format_duration(1500), "25 min");
    assert_eq!(format_duration(5520), "1h 32m");
    assert_eq!(format_duration(7200), "2h");
    assert_eq!(format_duration(29), "0 min");
    assert_eq!(format_duration(30), "1 min");
    assert_eq!(format_duration(3570), "1h");
    assert_eq!(format_duration(u32::MAX), "1193046h 28m");
    for s in (0..20000).chain(u32::MAX - 200..=u32::MAX) {
        let mins = (s as f64 / 60.0).round() as u32;
        let expected = if mins < 60 {
            format!("{mins} min")
        } else if mins % 60 == 0 {
            format!("{}h", mins / 60)
        } else {
            format!("{}h {}m", mins / 60, mins % 60)
        };
        assert_eq!(format_duration(s), expected);
    }
}
