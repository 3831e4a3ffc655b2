use daftie::daft::{
    convert, map_url_section_to_api, monthly_of, page_request, parse_price_monthly,
    price_is_in_range, MAX_PAGES, ApiBer, ApiFacility, ApiImage, ApiListing, ApiMedia, ApiPage, ApiPoint,
    ApiSeller, DaftQuery, PageStep, Paging, UrlError,
};
use daftie::detail::{extract_next_data, extras_from_json, read_detail, DetailError, DetailExtras};
use daftie::geo::Degrees;
use daftie::json::Json;
use daftie::link::{is_url, UrlParts};

fn search(section: &str, from: Option<u32>, to: Option<u32>) -> DaftQuery {
    DaftQuery {
        area_slug: "cork".to_string(),
        section: section.to_string(),
        property_type: None,
        rental_price_from: from,
        rental_price_to: to,
    }
}

#[test]
fn addresses_are_read_as_searches() {
    let q = DaftQuery::parse_url("https://www.daft.ie/sharing/midleton-cork?radius=3000").unwrap();
    assert_eq!(q.section, "sharing");
    assert_eq!(q.area_slug, "midleton-cork");
    assert_eq!(q.property_type, None);
    assert_eq!((q.rental_price_from, q.rental_price_to), (None, None));

    let q = DaftQuery::parse_url(
        "https://www.daft.ie//property-for-rent/dublin-city/houses/x?rentalPrice_from=500&rentalPrice_to=1200",
    )
    .unwrap();
    assert_eq!(q.section, "residential-to-rent");
    assert_eq!(q.area_slug, "dublin-city");
    assert_eq!(q.property_type.as_deref(), Some("houses"));
    assert_eq!((q.rental_price_from, q.rental_price_to), (Some(500), Some(1200)));
}

#[test]
fn the_last_price_parameter_counts() {
    let q = DaftQuery::parse_url(
        "https://d/a/b?rentalPrice_from=1&rentalPrice_from=x&rentalPrice_to=y&rentalPrice_to=%37",
    )
    .unwrap();
    assert_eq!((q.rental_price_from, q.rental_price_to), (None, Some(7)));
}

#[test]
fn addresses_without_a_search_are_refused() {
    let bad = DaftQuery::parse_url("no address").unwrap_err();
    assert!(matches!(bad, UrlError::Invalid(_)));
    assert_eq!(bad.message(), "invalid URL");
    let empty = DaftQuery::parse_url("https://www.daft.ie/").unwrap_err();
    assert!(matches!(empty, UrlError::EmptyPath));
    assert_eq!(empty.message(), "URL path is empty (expected /<section>/<area>)");
    let area = DaftQuery::parse_url("https://www.daft.ie/sharing/").unwrap_err();
    assert!(matches!(area, UrlError::MissingArea));
    assert_eq!(area.message(), "URL path missing area slug");
    assert!(matches!(DaftQuery::parse_url("mailto:a@b"), Err(UrlError::EmptyPath)));
}

#[test]
fn parts_of_addresses_make_searches() {
    let parts = UrlParts {
        segments: Some(vec!["".to_string(), "a".to_string(), "".to_string(), "b".to_string()]),
        pairs: vec![("rentalPrice_to".to_string(), "9".to_string())],
    };
    let q = DaftQuery::from_parts(&parts).unwrap();
    assert_eq!((q.section.as_str(), q.area_slug.as_str()), ("a", "b"));
    assert_eq!(q.rental_price_to, Some(9));
    assert!(is_url("https://x"));
    assert!(!is_url("x"));
}

#[test]
fn sections_have_gateway_names() {
    let names = [
        ("property-for-rent", "residential-to-rent"),
        ("property-for-sale", "residential-for-sale"),
        ("new-homes-for-sale", "new-homes-for-sale"),
        ("commercial-property-for-rent", "commercial-to-rent"),
        ("commercial-properties-for-rent", "commercial-to-rent"),
        ("commercial-property-for-sale", "commercial-for-sale"),
        ("commercial-properties-for-sale", "commercial-for-sale"),
        ("student-accommodation", "student-accommodation"),
        ("short-term-rentals", "short-term"),
        ("sharing", "sharing"),
    ];
    for (url, api) in names {
        assert_eq!(map_url_section_to_api(url), api);
    }
}

#[test]
fn prices_are_for_a_month() {
    assert_eq!(parse_price_monthly("€1,250 per month"), Some(1250));
    assert_eq!(parse_price_monthly("€150 per WEEK"), Some(600));
    assert_eq!(parse_price_monthly("from €1,2,3.50"), Some(123));
    assert_eq!(parse_price_monthly("Price on Application"), None);
    assert_eq!(parse_price_monthly("€99999999999 per month"), None);
    assert_eq!(parse_price_monthly(""), None);
    assert_eq!(monthly_of(Some(10), true), Some(40));
    assert_eq!(monthly_of(Some(10), false), Some(10));
    assert_eq!(monthly_of(None, true), None);
}

#[test]
fn prices_beyond_counting_are_found_out() {
    assert!(price_is_in_range("€4,294,967,295 per month"));
    assert!(price_is_in_range("€1,073,741,823 per week"));
    assert!(!price_is_in_range("€1,073,741,824 per week"));
    assert!(price_is_in_range("€9,999,999,999 per week"));
}

fn degrees(x: f64) -> Degrees {
    Degrees { bits: x.to_bits(), text: format!("{x}"), fixed: format!("{x:.5}") }
}

fn sent(id: u64, price: Option<&str>) -> ApiListing {
    ApiListing {
        id,
        title: format!("listing {id}"),
        price: price.map(String::from),
        num_bedrooms: None,
        property_type: None,
        category: None,
        publish_date: None,
        ber: None,
        seller: None,
        point: None,
        media: None,
        seo_friendly_path: None,
        facilities: vec![],
    }
}

#[test]
fn listings_are_converted() {
    let l = convert(ApiListing {
        num_bedrooms: Some("2 bed".to_string()),
        property_type: Some("House".to_string()),
        category: Some("Rent".to_string()),
        publish_date: Some(5),
        ber: Some(ApiBer { rating: Some("B1".to_string()) }),
        seller: Some(ApiSeller { name: Some("N".to_string()), phone: Some("1".to_string()) }),
        point: Some(ApiPoint { coordinates: Some(vec![degrees(-8.5), degrees(51.9)]) }),
        media: Some(ApiMedia {
            images: vec![
                ApiImage { size_720x480: Some("a".to_string()), size_600x600: Some("b".to_string()) },
                ApiImage { size_720x480: None, size_600x600: None },
                ApiImage { size_720x480: None, size_600x600: Some("c".to_string()) },
            ],
        }),
        seo_friendly_path: Some("/share/x".to_string()),
        facilities: vec![ApiFacility { name: "Parking".to_string() }],
        ..sent(7, Some("€100 per week"))
    });
    assert_eq!((l.id, l.title.as_str()), (7, "listing 7"));
    assert_eq!(l.price_monthly, Some(400));
    assert_eq!(l.price.as_deref(), Some("€100 per week"));
    assert_eq!(l.bedrooms.as_deref(), Some("2 bed"));
    assert_eq!(l.property_type.as_deref(), Some("House"));
    assert_eq!(l.category.as_deref(), Some("Rent"));
    assert_eq!(l.ber_rating.as_deref(), Some("B1"));
    assert_eq!(l.publish_date, Some(5));
    assert_eq!(l.seller_name.as_deref(), Some("N"));
    assert_eq!(l.seller_phone.as_deref(), Some("1"));
    assert_eq!(l.lat.unwrap().text, "51.9");
    assert_eq!(l.lng.unwrap().text, "-8.5");
    assert_eq!(l.url, "https://www.daft.ie/share/x");
    assert_eq!(l.images, vec!["a".to_string(), "c".to_string()]);
    assert_eq!(l.facilities, vec!["Parking".to_string()]);
}

#[test]
fn listings_may_lack_much() {
    let l = convert(ApiListing {
        point: Some(ApiPoint { coordinates: Some(vec![degrees(1.0)]) }),
        ..sent(8, None)
    });
    assert_eq!(l.url, "https://www.daft.ie/share/8");
    assert!(l.lat.is_none() && l.lng.is_none());
    assert!(l.images.is_empty() && l.facilities.is_empty());
    assert_eq!(l.price_monthly, None);
    assert!(l.seller_name.is_none() && l.seller_phone.is_none());
}

#[test]
fn the_bounds_of_a_search_are_inclusive() {
    let q = search("s", Some(500), Some(1000));
    assert!(q.admits(Some(500)));
    assert!(q.admits(Some(1000)));
    assert!(!q.admits(Some(499)));
    assert!(!q.admits(Some(1001)));
    assert!(q.admits(None));
    assert!(search("s", None, None).admits(Some(0)));
    assert!(!search("s", None, Some(1)).admits(Some(2)));
}

fn page(ids: Vec<u64>, total_results: u32, next_from: u32) -> ApiPage {
    ApiPage {
        listings: ids.into_iter().map(|id| sent(id, None)).collect(),
        total_results,
        next_from,
    }
}

#[test]
fn pages_are_fetched_until_all_came() {
    let q = search("s", None, None);
    let mut p = Paging::new();
    assert_eq!(p.take_page(&q, 0, page(vec![1, 2], 5, 2)), PageStep::Fetch(2));
    assert_eq!(p.take_page(&q, 0, page(vec![3, 4], 5, 0)), PageStep::Fetch(4));
    assert_eq!(p.take_page(&q, 0, page(vec![5], 5, 9)), PageStep::Done);
    let ids: Vec<u64> = p.all.iter().map(|l| l.id).collect();
    assert_eq!(ids, vec![1, 2, 3, 4, 5]);
    assert_eq!(p.pages, 3);
}

#[test]
fn searches_move_forward() {
    let q = search("s", None, None);
    let mut p = Paging::new();
    assert_eq!(p.take_page(&q, 0, page(vec![1], 100, 40)), PageStep::Fetch(40));
    assert_eq!(p.take_page(&q, 0, page(vec![2], 100, 3)), PageStep::Fetch(41));
}

#[test]
fn empty_pages_and_limits_end_a_search() {
    let q = search("s", None, None);
    let mut p = Paging::new();
    assert_eq!(p.take_page(&q, 0, page(vec![], 100, 20)), PageStep::Done);
    let mut p = Paging::new();
    assert_eq!(p.take_page(&q, 2, page(vec![1], 100, 1)), PageStep::Fetch(1));
    assert_eq!(p.take_page(&q, 2, page(vec![2], 100, 2)), PageStep::Done);
    assert_eq!(p.all.len(), 2);
}

#[test]
fn listings_out_of_bounds_are_left_out() {
    let q = search("s", Some(500), Some(1000));
    let mut p = Paging::new();
    let listings = vec![
        sent(1, Some("€400 per month")), sent(2, Some("€200 per week")), sent(3, None),
        sent(4, Some("€1,200 per month")), sent(5, Some("ask")), sent(6, Some("€1,000")),
    ];
    let step = p.take_page(&q, 1, ApiPage { listings, total_results: 6, next_from: 6 });
    assert_eq!(step, PageStep::Done);
    let ids: Vec<u64> = p.all.iter().map(|l| l.id).collect();
    assert_eq!(ids, vec![2, 3, 5, 6]);
}

#[test]
fn numbers_beyond_counting_stop_a_search() {
    let q = search("s", None, None);
    let mut p = Paging::new();
    assert_eq!(p.take_page(&q, 0, page(vec![1], u32::MAX, u32::MAX)), PageStep::Fetch(u32::MAX));
    assert_eq!(p.take_page(&q, 0, page(vec![2], u32::MAX, 0)), PageStep::Overflow);
    assert_eq!(p.all.len(), 1);
    let mut p = Paging::new();
    let listings = vec![sent(1, Some("€4,000,000,000 per week"))];
    let step = p.take_page(&q, 0, ApiPage { listings, total_results: 1, next_from: 0 });
    assert_eq!(step, PageStep::Overflow);
    assert!(p.all.is_empty());
}

fn shown(v: &Json) -> String {
    match v {
        Json::Null => "null".to_string(),
        Json::Bool(b) => format!("{b}"),
        Json::Number { signed, unsigned } => format!("{signed:?}{unsigned:?}"),
        Json::Text(s) => format!("{s:?}"),
        Json::Array(a) => format!("[{}]", a.iter().map(shown).collect::<Vec<_>>().join(",")),
        Json::Object(o) => format!(
            "{{{}}}",
            o.iter().map(|(k, v)| format!("{k:?}:{}", shown(v))).collect::<Vec<_>>().join(",")
        ),
    }
}

#[test]
fn requests_name_the_search() {
    let mut q = search("sharing", None, None);
    assert_eq!(
        shown(&page_request(&q, 40)),
        "{\"section\":\"sharing\",\"filters\":[{\"name\":\"adState\",\"values\":[\"published\"]}],\"andFilters\":[],\"ranges\":[],\"paging\":{\"from\":\"40\",\"pageSize\":\"20\"},\"geoFilter\":{\"storedShapeIds\":[],\"geoSearchType\":\"STORED_SHAPES\"},\"terms\":\"cork\"}"
    );
    q.property_type = Some("houses".to_string());
    assert!(shown(&page_request(&q, 0)).contains(
        "\"filters\":[{\"name\":\"adState\",\"values\":[\"published\"]},{\"name\":\"propertyType\",\"values\":[\"houses\"]}]"
    ));
}

fn html(json: &str) -> String {
    format!("<html><script id=\"__NEXT_DATA__\" type=\"x\">{json}</script></html>")
}

#[test]
fn page_data_stands_between_the_tags() {
    assert_eq!(extract_next_data(&html("{\"é\":1}")), Ok("{\"é\":1}".to_string()));
    assert_eq!(
        extract_next_data("<a></script><b id=\"__NEXT_DATA__\">x</script>y</script>"),
        Ok("x".to_string())
    );
}

#[test]
fn pages_without_data_are_refused() {
    assert_eq!(extract_next_data("<html>"), Err(DetailError::NoTag));
    assert_eq!(extract_next_data("x id=\"__NEXT_DATA__\""), Err(DetailError::MalformedTag));
    assert_eq!(extract_next_data("x id=\"__NEXT_DATA__\">y"), Err(DetailError::NoClosingTag));
    assert_eq!(read_detail(&html("{")).unwrap_err(), DetailError::BadJson);
    assert_eq!(read_detail(&html("{\"props\":{}}")).unwrap_err(), DetailError::NoListing);
    assert_eq!(DetailError::NoTag.message(), "__NEXT_DATA__ tag not found in HTML");
    assert_eq!(DetailError::MalformedTag.message(), "malformed __NEXT_DATA__ open tag");
    assert_eq!(DetailError::NoClosingTag.message(), "__NEXT_DATA__ closing tag not found");
    assert_eq!(DetailError::BadJson.message(), "parsing __NEXT_DATA__ JSON");
    assert_eq!(DetailError::NoListing.message(), "no listing in __NEXT_DATA__");
}

#[test]
fn pages_tell_date_views_and_overview() {
    let x = read_detail(&html(
        "{\"props\":{\"pageProps\":{\"listing\":{\"firstPublishDate\":1700000000000,\"publishDate\":1,\"listingViews\":1234,\"description\":\"A room.\\nNear town.\",\"propertyOverview\":[{\"label\":\"A\",\"text\":\"b\"},{\"label\":\"no text\"},{\"label\":1,\"text\":\"c\"},{\"label\":\"D\",\"text\":\"e \\u00e9\"}]}}}}",
    ))
    .unwrap();
    assert_eq!(x.date_listed_ms, Some(1700000000000));
    assert_eq!(x.views, Some(1234));
    assert_eq!(x.description.as_deref(), Some("A room.\nNear town."));
    let items: Vec<(&str, &str)> =
        x.property_overview.iter().map(|i| (i.label.as_str(), i.text.as_str())).collect();
    assert_eq!(items, vec![("A", "b"), ("D", "e é")]);
}

#[test]
fn the_second_date_stands_in_for_the_first() {
    let x = read_detail(&html(
        "{\"props\":{\"pageProps\":{\"listing\":{\"firstPublishDate\":1.5,\"publishDate\":-4,\"listingViews\":-1,\"description\":5}}}}",
    ))
    .unwrap();
    assert_eq!(x.date_listed_ms, Some(-4));
    assert_eq!(x.views, None);
    assert_eq!(x.description, None);
    assert!(x.property_overview.is_empty());
    let none = DetailExtras::default();
    assert!(none.date_listed_ms.is_none() && none.views.is_none());
    assert!(none.description.is_none());
    assert!(none.property_overview.is_empty());
}

#[test]
fn extras_are_read_out_of_a_value() {
    let listing = Json::Object(vec![(
        "listingViews".to_string(),
        Json::Number { signed: Some(3), unsigned: Some(3) },
    )]);
    let page = Json::Object(vec![("listing".to_string(), listing)]);
    let props = Json::Object(vec![("pageProps".to_string(), page)]);
    let v = Json::Object(vec![("props".to_string(), props)]);
    assert_eq!(extras_from_json(&v).unwrap().views, Some(3));
    assert_eq!(extras_from_json(&Json::Null).unwrap_err(), DetailError::NoListing);
}

#[test]
fn values_give_what_they_hold() {
    let v = Json::Object(vec![
        ("a".to_string(), Json::Array(vec![Json::Bool(true), Json::Text("t".to_string())])),
        ("n".to_string(), Json::Number { signed: Some(-2), unsigned: None }),
    ]);
    assert_eq!(v.get("a").unwrap().as_array().unwrap().len(), 2);
    assert_eq!(v.get("a").unwrap().as_array().unwrap()[1].as_str(), Some("t"));
    assert_eq!(v.get("n").unwrap().as_i64(), Some(-2));
    assert_eq!(v.get("n").unwrap().as_u64(), None);
    assert!(v.get("z").is_none());
    assert!(Json::Null.get("a").is_none());
    assert!(Json::Null.as_str().is_none() && Json::Null.as_array().is_none());
    assert!(Json::Null.as_i64().is_none() && Json::Null.as_u64().is_none());
}

#[test]
fn searches_are_cloned() {
    let q = search("sharing", Some(1), None);
    let c = q.clone();
    assert_eq!(shown(&page_request(&c, 0)), shown(&page_request(&q, 0)));
    assert_eq!(c.rental_price_from, Some(1));
}

#[test]
fn a_check_fetches_a_few_pages() {
    let q = search("s", None, None);
    let mut p = Paging::new();
    let mut pages = 0;
    loop {
        pages += 1;
        let at = p.from as u64;
        if p.take_page(&q, MAX_PAGES, page(vec![at], 1000, 0)) == PageStep::Done {
            break;
        }
    }
    assert_eq!((pages, p.all.len()), (10, 10));
}
