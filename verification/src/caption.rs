//! The caption under which a listing is sent, in the HTML of Telegram.

use vstd::prelude::*;

use crate::clock::{date_text, format_date_ms};
use crate::daft::Listing;
use crate::detail::{DetailExtras, OverviewItem};
use crate::geo::Degrees;
use crate::html::{escaped, html_escape, law_plain_text_is_not_escaped};
use crate::number::{format_thousands, thousands_text};
use crate::routing::{
    duration_text, format_duration, law_durations_are_plain, CommuteTimes, Mode,
};
use crate::text::{
    begins, chars_of, has, is_white, join, joined, law_blank_is_all_white, law_has_is_being_made_of,
    law_joined_holds_each, lemma_has_either, lemma_has_itself, lemma_has_left, lemma_has_part,
    lemma_has_right, lowercase, same, split, split_char, string_of, to_lowercase, trim, trimmed,
    views,
};

verus! {

/// How many characters a caption may have. (Telegram takes 1024.)
pub const CAPTION_LIMIT: usize = 1000;

/// The phone number of a listing, without white space around it; none where
/// nothing is left.
pub open spec fn phone_of(phone: Option<String>) -> Option<Seq<char>> {
    match phone {
        Some(p) => if trimmed(p@).len() > 0 {
            Some(trimmed(p@))
        } else {
            None
        },
        None => None,
    }
}

/// The phone number of a listing, without white space around it; none where
/// nothing is left.
fn clean_phone(phone: &Option<String>) -> (r: Option<String>)
    ensures
        phone_of(*phone) == (match r {
            Some(p) => Some(p@),
            None => None::<Seq<char>>,
        }),
{
    match phone {
        Some(p) => {
            let t = trim(p.as_str());
            if t.as_str().is_empty() {
                None
            } else {
                Some(t)
            }
        },
        None => None,
    }
}

/// Whether a listing has a phone number.
pub fn has_phone(l: &Listing) -> (r: bool)
    ensures
        r == phone_of(l.seller_phone) is Some,
{
    clean_phone(&l.seller_phone).is_some()
}

/// The line of the price and the bedrooms.
pub open spec fn price_line(l: Listing) -> Seq<char> {
    let price = "<b>"@ + escaped(
        match l.price {
            Some(p) => p@,
            None => "price unknown"@,
        },
    ) + "</b>"@;
    let beds = match l.bedrooms {
        Some(b) => price + " — "@ + escaped(b@),
        None => price,
    };
    beds.push('\n')
}

/// The line of the kind of property and its energy rating.
pub open spec fn type_line(l: Listing) -> Seq<char> {
    match l.property_type {
        Some(t) => {
            let kind = "🏠 "@ + escaped(t@);
            let ber = match l.ber_rating {
                Some(b) => kind + " • BER "@ + escaped(b@),
                None => kind,
            };
            ber.push('\n')
        },
        None => Seq::empty(),
    }
}

/// The line of the title.
pub open spec fn title_line(l: Listing) -> Seq<char> {
    "📍 "@ + escaped(l.title@) + "\n"@
}

/// The line of the seller's name.
pub open spec fn seller_line(l: Listing) -> Seq<char> {
    match l.seller_name {
        Some(n) => "👤 "@ + escaped(n@) + "\n"@,
        None => Seq::empty(),
    }
}

/// The line of the seller's phone number.
pub open spec fn phone_line(l: Listing) -> Seq<char> {
    match phone_of(l.seller_phone) {
        Some(p) => "📞 <code>"@ + escaped(p) + "</code>\n"@,
        None => Seq::empty(),
    }
}

/// A line of the overview; its style depends on its label.
pub open spec fn overview_line(label: Seq<char>, value: Seq<char>) -> Seq<char> {
    let v = escaped(value);
    if label == "Bedrooms Available"@ {
        "🛏 Beds: <b>"@ + v + "</b>\n"@
    } else if label == "Available From"@ {
        "📅 <b>"@ + v + "</b>\n"@
    } else if label == "Available For"@ {
        "📆 <b>"@ + v + "</b>\n"@
    } else if label == "Sharing with"@ {
        "Sharing: <b>"@ + v + "</b>\n"@
    } else if label == "Owner Occupied"@ {
        "Owner: <b>"@ + v + "</b>\n"@
    } else {
        escaped(label) + ": <b>"@ + v + "</b>\n"@
    }
}

/// A line of the overview; its style depends on its label.
pub fn render_overview_line(orig_label: &str, value: &str) -> (r: String)
    ensures
        r@ == overview_line(orig_label@, value@),
{
    let v = html_escape(value);
    let mut out = String::new();
    if same(orig_label, "Bedrooms Available") {
        out.append("🛏 Beds: <b>");
        assert(out@ =~= "🛏 Beds: <b>"@);
    } else if same(orig_label, "Available From") {
        out.append("📅 <b>");
        assert(out@ =~= "📅 <b>"@);
    } else if same(orig_label, "Available For") {
        out.append("📆 <b>");
        assert(out@ =~= "📆 <b>"@);
    } else if same(orig_label, "Sharing with") {
        out.append("Sharing: <b>");
        assert(out@ =~= "Sharing: <b>"@);
    } else if same(orig_label, "Owner Occupied") {
        out.append("Owner: <b>");
        assert(out@ =~= "Owner: <b>"@);
    } else {
        out.append(html_escape(orig_label).as_str());
        assert(out@ =~= escaped(orig_label@));
        out.append(": <b>");
    }
    out.append(v.as_str());
    out.append("</b>\n");
    out
}

/// The words of a list of preferences, which `/` separates.
pub open spec fn preference_words(text: Seq<char>) -> Seq<Seq<char>> {
    split(text, '/').map_values(|p: Seq<char>| trimmed(p)).filter(|w: Seq<char>| w.len() > 0)
}

/// Whether a preference names a gender.
pub open spec fn is_gender(word: Seq<char>) -> bool {
    lowercase(word) == "female"@ || lowercase(word) == "male"@
}

/// A preference in the HTML of the caption: a gender as an emoji, any other
/// escaped, so that it is shown as it is.
pub open spec fn preference_text(word: Seq<char>) -> Seq<char> {
    if lowercase(word) == "female"@ {
        "👱🏻\u{200d}♀\u{fe0f}"@
    } else if lowercase(word) == "male"@ {
        "👱🏻\u{200d}♂\u{fe0f}"@
    } else {
        escaped(word)
    }
}

/// The preferences as they are shown; none where none of them names a gender.
pub open spec fn preferences_text(text: Seq<char>) -> Option<Seq<char>> {
    let words = preference_words(text);
    if exists|i: int| 0 <= i < words.len() && is_gender(#[trigger] words[i]) {
        Some(joined(words.map_values(|w: Seq<char>| preference_text(w)), " "@))
    } else {
        None
    }
}

/// The preferences as they are shown; none where none of them names a gender.
pub fn preferences_emojis(text: &str) -> (r: Option<String>)
    ensures
        preferences_text(text@) == (match r {
            Some(t) => Some(t@),
            None => None::<Seq<char>>,
        }),
{
    let pieces = split_char(text, '/');
    let ghost p = |w: Seq<char>| w.len() > 0;
    let ghost f = |w: Seq<char>| preference_text(w);
    let ghost raw = split(text@, '/').map_values(|p: Seq<char>| trimmed(p));
    let ghost words = raw.take(0).filter(p);
    let mut parts: Vec<String> = Vec::new();
    let mut has_gender: bool = false;
    assert(raw.take(0).filter(p) =~= Seq::<Seq<char>>::empty()) by {
        reveal(Seq::filter);
    }
    assert(views(parts@) =~= words.map_values(f));
    for i in 0..pieces.len()
        invariant
            views(pieces@) == split(text@, '/'),
            p == |w: Seq<char>| w.len() > 0,
            f == |w: Seq<char>| preference_text(w),
            raw == split(text@, '/').map_values(|p: Seq<char>| trimmed(p)),
            words == raw.take(i as int).filter(p),
            views(parts@) == words.map_values(f),
            has_gender == exists|k: int| 0 <= k < words.len() && is_gender(#[trigger] words[k]),
    {
        let w = trim(pieces[i].as_str());
        let ghost old_words = words;
        let ghost old_parts = parts@;
        proof {
            assert(views(pieces@)[i as int] == pieces@[i as int]@);
            assert(raw[i as int] == w@);
            assert(raw.take(i + 1) =~= raw.take(i as int).push(w@));
            reveal(Seq::filter);
            assert(raw.take(i + 1).drop_last() =~= raw.take(i as int));
            words = raw.take(i + 1).filter(p);
        }
        if !w.as_str().is_empty() {
            assert(words =~= old_words.push(w@));
            let lower = to_lowercase(w.as_str());
            let shown = if same(lower.as_str(), "female") {
                has_gender = true;
                let mut s = String::new();
                s.append("👱🏻\u{200d}♀\u{fe0f}");
                assert(s@ =~= "👱🏻\u{200d}♀\u{fe0f}"@);
                s
            } else if same(lower.as_str(), "male") {
                has_gender = true;
                let mut s = String::new();
                s.append("👱🏻\u{200d}♂\u{fe0f}");
                assert(s@ =~= "👱🏻\u{200d}♂\u{fe0f}"@);
                s
            } else {
                html_escape(w.as_str())
            };
            parts.push(shown);
            proof {
                assert(views(parts@) =~= views(old_parts).push(shown@));
                assert(words.map_values(f) =~= old_words.map_values(f).push(preference_text(w@)));
                assert(words[old_words.len() as int] == w@);
                if exists|k: int| 0 <= k < old_words.len() && is_gender(#[trigger] old_words[k]) {
                    let k = choose|k: int| 0 <= k < old_words.len() && is_gender(#[trigger] old_words[k]);
                    assert(is_gender(words[k]));
                }
                if exists|k: int| 0 <= k < words.len() && is_gender(#[trigger] words[k]) {
                    let k = choose|k: int| 0 <= k < words.len() && is_gender(#[trigger] words[k]);
                    if k < old_words.len() {
                        assert(is_gender(old_words[k]));
                    }
                }
            }
        }
    }
    proof {
        assert(raw.take(pieces@.len() as int) =~= raw);
        assert(words == preference_words(text@));
        assert(words.map_values(f) == words.map_values(|w: Seq<char>| preference_text(w)));
    }
    if has_gender {
        Some(join(&parts, " "))
    } else {
        None
    }
}

/// An item of the overview; preferences that name a gender are shown as emojis.
pub open spec fn overview_item_text(item: OverviewItem) -> Seq<char> {
    if item.label@ == "Preferences"@ {
        match preferences_text(item.text@) {
            Some(e) => e + "\n"@,
            None => overview_line(item.label@, item.text@),
        }
    } else {
        overview_line(item.label@, item.text@)
    }
}

/// The items of the overview.
pub open spec fn overview_text(items: Seq<OverviewItem>) -> Seq<char>
    decreases items.len(),
{
    if items.len() == 0 {
        Seq::empty()
    } else {
        overview_text(items.drop_last()) + overview_item_text(items.last())
    }
}

/// The line of the date of publication, where the calendar reaches it.
pub open spec fn date_line(ms: Option<i64>) -> Seq<char> {
    match ms {
        Some(ms) => match date_text(ms) {
            Some(d) => "🗓 <b>"@ + escaped(d) + "</b>\n"@,
            None => Seq::empty(),
        },
        None => Seq::empty(),
    }
}

/// The line of the number of views.
pub open spec fn views_line(n: Option<u64>) -> Seq<char> {
    match n {
        Some(v) => "👁 <b>"@ + thousands_text(v as int) + "</b>\n"@,
        None => Seq::empty(),
    }
}

/// What the page of a listing adds.
pub open spec fn extras_text(extras: Option<DetailExtras>) -> Seq<char> {
    match extras {
        Some(x) => overview_text(x.property_overview@) + date_line(x.date_listed_ms) + views_line(
            x.views,
        ),
        None => Seq::empty(),
    }
}

/// The line of the facilities.
pub open spec fn facilities_line(l: Listing) -> Seq<char> {
    if l.facilities@.len() == 0 {
        Seq::empty()
    } else {
        "✨ "@ + escaped(joined(views(l.facilities@), ", "@)) + "\n"@
    }
}

/// The line of the time that a way to travel takes.
pub open spec fn commute_line(times: CommuteTimes, mode: Mode) -> Seq<char> {
    match times.of(mode) {
        Some(secs) => mode.picture() + " "@ + escaped(duration_text(secs as int)) + "\n"@,
        None => Seq::empty(),
    }
}

/// The lines of the commute.
pub open spec fn commute_text(times: Option<CommuteTimes>) -> Seq<char> {
    match times {
        Some(t) => commute_line(t, Mode::Driving) + commute_line(t, Mode::Walking) + commute_line(
            t,
            Mode::Bicycling,
        ) + commute_line(t, Mode::Transit),
        None => Seq::empty(),
    }
}

/// A link to a place on a map.
pub open spec fn map_link(lat: Degrees, lng: Degrees) -> Seq<char> {
    "<a href=\"https://www.google.com/maps?q="@ + lat.text@ + ","@ + lng.text@ + "&amp;z=13\">"@
}

/// The links to the listing's page and, where its place is known, to a map.
pub open spec fn links_line(l: Listing) -> Seq<char> {
    let page = "<a href=\""@ + escaped(l.url@) + "\">View on daft.ie</a>"@;
    match (l.lat, l.lng) {
        (Some(lat), Some(lng)) => page + " · "@ + map_link(lat, lng) + "Google Maps</a>"@,
        _ => page,
    }
}

/// The caption before it is cut.
pub open spec fn full_caption(
    l: Listing,
    extras: Option<DetailExtras>,
    commute: Option<CommuteTimes>,
) -> Seq<char> {
    price_line(l) + type_line(l) + title_line(l) + seller_line(l) + phone_line(l) + extras_text(
        extras,
    ) + facilities_line(l) + commute_text(commute) + links_line(l)
}

/// A text cut to the limit: where it is longer, its last character is `…`.
pub open spec fn cut(s: Seq<char>) -> Seq<char> {
    if s.len() > CAPTION_LIMIT {
        s.take(CAPTION_LIMIT - 1).push('…')
    } else {
        s
    }
}

/// The caption of a listing.
pub open spec fn caption_text(
    l: Listing,
    extras: Option<DetailExtras>,
    commute: Option<CommuteTimes>,
) -> Seq<char> {
    cut(full_caption(l, extras, commute))
}

/// Appends three texts.
fn push3(out: &mut String, a: &str, b: &str, c: &str)
    ensures
        final(out)@ == old(out)@ + (a@ + b@ + c@),
{
    out.append(a);
    out.append(b);
    out.append(c);
    assert(out@ =~= old(out)@ + (a@ + b@ + c@));
}

/// Appends the line of the price and the bedrooms.
fn push_price_line(out: &mut String, l: &Listing)
    ensures
        final(out)@ == old(out)@ + price_line(*l),
{
    let price = match &l.price {
        Some(p) => html_escape(p.as_str()),
        None => html_escape("price unknown"),
    };
    push3(out, "<b>", price.as_str(), "</b>");
    match &l.bedrooms {
        Some(b) => {
            let beds = html_escape(b.as_str());
            push3(out, " — ", beds.as_str(), "\n");
            proof {
                reveal_strlit("\n");
                assert(out@ =~= old(out)@ + price_line(*l));
            }
        },
        None => {
            out.push('\n');
            assert(out@ =~= old(out)@ + price_line(*l));
        },
    }
}

/// Appends the line of the kind of property.
fn push_type_line(out: &mut String, l: &Listing)
    ensures
        final(out)@ == old(out)@ + type_line(*l),
{
    match &l.property_type {
        Some(t) => {
            let kind = html_escape(t.as_str());
            out.append("🏠 ");
            out.append(kind.as_str());
            match &l.ber_rating {
                Some(b) => {
                    out.append(" • BER ");
                    out.append(html_escape(b.as_str()).as_str());
                },
                None => {},
            }
            out.push('\n');
            assert(out@ =~= old(out)@ + type_line(*l));
        },
        None => {
            assert(out@ =~= old(out)@ + type_line(*l));
        },
    }
}

/// Appends the lines of the title, the seller and the phone number.
fn push_contact_lines(out: &mut String, l: &Listing)
    ensures
        final(out)@ == old(out)@ + title_line(*l) + seller_line(*l) + phone_line(*l),
{
    let title = html_escape(l.title.as_str());
    push3(out, "📍 ", title.as_str(), "\n");
    match &l.seller_name {
        Some(n) => {
            let name = html_escape(n.as_str());
            push3(out, "👤 ", name.as_str(), "\n");
        },
        None => {
            assert(out@ =~= out@ + seller_line(*l));
        },
    }
    match clean_phone(&l.seller_phone) {
        Some(p) => {
            let phone = html_escape(p.as_str());
            push3(out, "📞 <code>", phone.as_str(), "</code>\n");
        },
        None => {
            assert(out@ =~= out@ + phone_line(*l));
        },
    }
}

/// Appends the items of the overview.
fn push_overview(out: &mut String, items: &Vec<OverviewItem>)
    ensures
        final(out)@ == old(out)@ + overview_text(items@),
{
    assert(out@ =~= old(out)@ + overview_text(items@.take(0)));
    for i in 0..items.len()
        invariant
            out@ == old(out)@ + overview_text(items@.take(i as int)),
    {
        let item = &items[i];
        let ghost before = out@;
        proof {
            assert(items@.take(i + 1).drop_last() =~= items@.take(i as int));
            assert(items@.take(i + 1).last() == *item);
        }
        let mut shown: Option<String> = None;
        if same(item.label.as_str(), "Preferences") {
            shown = preferences_emojis(item.text.as_str());
        }
        match shown {
            Some(e) => {
                out.append(e.as_str());
                out.append("\n");
                assert(out@ =~= before + overview_item_text(*item));
            },
            None => {
                out.append(
                    render_overview_line(item.label.as_str(), item.text.as_str()).as_str(),
                );
                assert(out@ =~= before + overview_item_text(*item));
            },
        }
        assert(out@ =~= old(out)@ + overview_text(items@.take(i + 1)));
    }
    assert(items@.take(items@.len() as int) =~= items@);
}

/// Appends what the page of a listing adds.
fn push_extras(out: &mut String, extras: Option<&DetailExtras>)
    ensures
        final(out)@ == old(out)@ + extras_text(
            match extras {
                Some(x) => Some(*x),
                None => None,
            },
        ),
{
    match extras {
        Some(x) => {
            push_overview(out, &x.property_overview);
            let ghost a = overview_text(x.property_overview@);
            let ghost b = date_line(x.date_listed_ms);
            let ghost c = views_line(x.views);
            let date = match x.date_listed_ms {
                Some(ms) => format_date_ms(ms),
                None => None,
            };
            match date {
                Some(d) => {
                    let day = html_escape(d.as_str());
                    push3(out, "🗓 <b>", day.as_str(), "</b>\n");
                },
                None => {
                    assert(out@ =~= out@ + b);
                },
            }
            assert(out@ == old(out)@ + a + b);
            match x.views {
                Some(v) => {
                    let n = format_thousands(v);
                    push3(out, "👁 <b>", n.as_str(), "</b>\n");
                },
                None => {
                    assert(out@ =~= out@ + c);
                },
            }
            assert(out@ =~= old(out)@ + (a + b + c));
        },
        None => {
            assert(out@ =~= old(out)@ + Seq::<char>::empty());
        },
    }
}

/// Appends the line of the facilities.
fn push_facilities(out: &mut String, l: &Listing)
    ensures
        final(out)@ == old(out)@ + facilities_line(*l),
{
    if l.facilities.len() > 0 {
        let all = html_escape(join(&l.facilities, ", ").as_str());
        push3(out, "✨ ", all.as_str(), "\n");
    } else {
        assert(out@ =~= old(out)@ + facilities_line(*l));
    }
}

/// Appends the line of the time that a way to travel takes.
fn push_commute_line(out: &mut String, mode: Mode, secs: Option<u32>)
    ensures
        forall|t: CommuteTimes|
            t.of(mode) == secs ==> final(out)@ == old(out)@ + #[trigger] commute_line(t, mode),
{
    match secs {
        Some(s) => {
            let text = html_escape(format_duration(s).as_str());
            out.append(mode.emoji());
            push3(out, " ", text.as_str(), "\n");
            assert(out@ =~= old(out)@ + (mode.picture() + " "@ + escaped(duration_text(s as int))
                + "\n"@));
        },
        None => {
            assert(out@ =~= old(out)@ + Seq::<char>::empty());
        },
    }
}

/// Appends the lines of the commute.
fn push_commute(out: &mut String, commute: Option<&CommuteTimes>)
    ensures
        final(out)@ == old(out)@ + commute_text(
            match commute {
                Some(t) => Some(*t),
                None => None,
            },
        ),
{
    match commute {
        Some(t) => {
            push_commute_line(out, Mode::Driving, t.driving);
            push_commute_line(out, Mode::Walking, t.walking);
            push_commute_line(out, Mode::Bicycling, t.bicycling);
            push_commute_line(out, Mode::Transit, t.transit);
            proof {
                let a = commute_line(*t, Mode::Driving);
                let b = commute_line(*t, Mode::Walking);
                let c = commute_line(*t, Mode::Bicycling);
                let d = commute_line(*t, Mode::Transit);
                assert(out@ == old(out)@ + a + b + c + d);
                assert(out@ =~= old(out)@ + (a + b + c + d));
            }
        },
        None => {
            assert(out@ =~= old(out)@ + Seq::<char>::empty());
        },
    }
}

/// Appends a link to a place on a map.
pub(crate) fn push_map_link(out: &mut String, lat: &Degrees, lng: &Degrees)
    ensures
        final(out)@ == old(out)@ + map_link(*lat, *lng),
{
    out.append("<a href=\"https://www.google.com/maps?q=");
    out.append(lat.text.as_str());
    out.append(",");
    out.append(lng.text.as_str());
    out.append("&amp;z=13\">");
    assert(out@ =~= old(out)@ + map_link(*lat, *lng));
}

/// Appends the links.
fn push_links(out: &mut String, l: &Listing)
    ensures
        final(out)@ == old(out)@ + links_line(*l),
{
    let url = html_escape(l.url.as_str());
    push3(out, "<a href=\"", url.as_str(), "\">View on daft.ie</a>");
    match (&l.lat, &l.lng) {
        (Some(lat), Some(lng)) => {
            out.append(" · ");
            push_map_link(out, lat, lng);
            out.append("Google Maps</a>");
            assert(out@ =~= old(out)@ + links_line(*l));
        },
        _ => {},
    }
}

/// The caption of a listing.
pub fn format_caption(
    l: &Listing,
    extras: Option<&DetailExtras>,
    commute: Option<&CommuteTimes>,
) -> (r: String)
    ensures
        r@ == caption_text(
            *l,
            match extras {
                Some(x) => Some(*x),
                None => None,
            },
            match commute {
                Some(t) => Some(*t),
                None => None,
            },
        ),
{
    let mut out = String::new();
    push_price_line(&mut out, l);
    assert(out@ =~= price_line(*l));
    push_type_line(&mut out, l);
    push_contact_lines(&mut out, l);
    push_extras(&mut out, extras);
    push_facilities(&mut out, l);
    push_commute(&mut out, commute);
    push_links(&mut out, l);
    let cs = chars_of(out.as_str());
    if cs.len() > CAPTION_LIMIT {
        let mut short = string_of(&cs, 0, CAPTION_LIMIT - 1);
        assert(short@ =~= out@.take(CAPTION_LIMIT - 1));
        short.push('…');
        short
    } else {
        out
    }
}

/// A caption keeps to the limit, and one that keeps to it is not cut.
pub proof fn law_caption_keeps_to_the_limit(
    l: Listing,
    extras: Option<DetailExtras>,
    commute: Option<CommuteTimes>,
)
    ensures
        caption_text(l, extras, commute).len() <= CAPTION_LIMIT,
        full_caption(l, extras, commute).len() <= CAPTION_LIMIT ==> caption_text(
            l,
            extras,
            commute,
        ) == full_caption(l, extras, commute),
{
}

/// What a part of the caption holds, the caption holds before it is cut.
proof fn lemma_caption_has(
    l: Listing,
    extras: Option<DetailExtras>,
    commute: Option<CommuteTimes>,
    q: Seq<char>,
)
    requires
        has(price_line(l), q) || has(type_line(l), q) || has(title_line(l), q) || has(
            seller_line(l),
            q,
        ) || has(phone_line(l), q) || has(extras_text(extras), q) || has(facilities_line(l), q)
            || has(commute_text(commute), q) || has(links_line(l), q),
    ensures
        has(full_caption(l, extras, commute), q),
{
    let s0 = price_line(l);
    let s1 = s0 + type_line(l);
    let s2 = s1 + title_line(l);
    let s3 = s2 + seller_line(l);
    let s4 = s3 + phone_line(l);
    let s5 = s4 + extras_text(extras);
    let s6 = s5 + facilities_line(l);
    let s7 = s6 + commute_text(commute);
    lemma_has_either(s0, type_line(l), q);
    lemma_has_either(s1, title_line(l), q);
    lemma_has_either(s2, seller_line(l), q);
    lemma_has_either(s3, phone_line(l), q);
    lemma_has_either(s4, extras_text(extras), q);
    lemma_has_either(s5, facilities_line(l), q);
    lemma_has_either(s6, commute_text(commute), q);
    lemma_has_either(s7, links_line(l), q);
}

/// How the time of a mode is shown; nothing where there is none.
pub open spec fn time_shown(mode: Mode, secs: Option<u32>) -> Seq<char> {
    match secs {
        Some(s) => mode.picture() + " "@ + duration_text(s as int) + "\n"@,
        None => Seq::empty(),
    }
}

/// The caption shows the time of every mode that has one, on a line with the
/// mode's emoji; the lines stand together, in the order of driving, walking,
/// bicycling and transit.
pub proof fn law_caption_shows_every_time(
    l: Listing,
    extras: Option<DetailExtras>,
    t: CommuteTimes,
    mode: Mode,
)
    ensures
        has(
            full_caption(l, extras, Some(t)),
            time_shown(Mode::Driving, t.driving) + time_shown(Mode::Walking, t.walking)
                + time_shown(Mode::Bicycling, t.bicycling) + time_shown(Mode::Transit, t.transit),
        ),
        t.of(mode) matches Some(secs) ==> has(
            full_caption(l, extras, Some(t)),
            mode.picture() + " "@ + duration_text(secs as int) + "\n"@,
        ),
        commute_text(None) == Seq::<char>::empty(),
        commute_text(Some(t)) == time_shown(Mode::Driving, t.driving) + time_shown(
            Mode::Walking,
            t.walking,
        ) + time_shown(Mode::Bicycling, t.bicycling) + time_shown(Mode::Transit, t.transit),
{
    lemma_time_shown(t, Mode::Driving);
    lemma_time_shown(t, Mode::Walking);
    lemma_time_shown(t, Mode::Bicycling);
    lemma_time_shown(t, Mode::Transit);
    let a = time_shown(Mode::Driving, t.driving);
    let b = time_shown(Mode::Walking, t.walking);
    let c = time_shown(Mode::Bicycling, t.bicycling);
    let d = time_shown(Mode::Transit, t.transit);
    lemma_has_itself(a + b + c + d);
    lemma_caption_has(l, extras, Some(t), a + b + c + d);
    let q = time_shown(mode, t.of(mode));
    lemma_has_itself(q);
    lemma_has_either(a, b, q);
    lemma_has_either(a + b, c, q);
    lemma_has_either(a + b + c, d, q);
    lemma_caption_has(l, extras, Some(t), q);
}

proof fn lemma_time_shown(t: CommuteTimes, mode: Mode)
    ensures
        commute_line(t, mode) == time_shown(mode, t.of(mode)),
{
    match t.of(mode) {
        Some(secs) => {
            law_durations_are_plain(secs as int);
        },
        None => {},
    }
}

/// The caption begins with the price, or says that it is unknown, and shows the
/// bedrooms, the kind of property with its rating, the title, the seller's name
/// and phone number, and the facilities, each where it is known.
#[verifier::rlimit(40)]
pub proof fn law_caption_tells_the_listing(
    l: Listing,
    extras: Option<DetailExtras>,
    commute: Option<CommuteTimes>,
)
    ensures
        ({
            let f = full_caption(l, extras, commute);
            &&& l.price matches Some(p) ==> begins(f, "<b>"@ + escaped(p@) + "</b>"@)
            &&& l.price is None ==> begins(f, "<b>price unknown</b>"@)
            &&& l.bedrooms matches Some(b) ==> has(f, "</b> — "@ + escaped(b@) + "\n"@)
            &&& l.property_type is Some && l.ber_rating is Some ==> has(
                f,
                "🏠 "@ + escaped(l.property_type->0@) + " • BER "@ + escaped(l.ber_rating->0@)
                    + "\n"@,
            )
            &&& l.property_type is Some && l.ber_rating is None ==> has(
                f,
                "🏠 "@ + escaped(l.property_type->0@) + "\n"@,
            )
            &&& has(f, "📍 "@ + escaped(l.title@) + "\n"@)
            &&& l.seller_name matches Some(n) ==> has(f, "👤 "@ + escaped(n@) + "\n"@)
            &&& l.seller_phone is Some && trimmed(l.seller_phone->0@).len() > 0 ==> has(
                f,
                "📞 <code>"@ + escaped(trimmed(l.seller_phone->0@)) + "</code>\n"@,
            )
            &&& l.facilities@.len() > 0 ==> has(
                f,
                "✨ "@ + escaped(joined(views(l.facilities@), ", "@)) + "\n"@,
            )
        }),
{
    lemma_price_begins(l, extras, commute);
    lemma_beds_are_told(l, extras, commute);
    lemma_kind_is_told(l, extras, commute);
    lemma_contacts_are_told(l, extras, commute);
}

proof fn lemma_contacts_are_told(
    l: Listing,
    extras: Option<DetailExtras>,
    commute: Option<CommuteTimes>,
)
    ensures
        has(full_caption(l, extras, commute), title_line(l)),
        has(full_caption(l, extras, commute), seller_line(l)),
        has(full_caption(l, extras, commute), phone_line(l)),
        has(full_caption(l, extras, commute), facilities_line(l)),
{
    lemma_has_itself(title_line(l));
    lemma_caption_has(l, extras, commute, title_line(l));
    lemma_has_itself(seller_line(l));
    lemma_caption_has(l, extras, commute, seller_line(l));
    lemma_has_itself(phone_line(l));
    lemma_caption_has(l, extras, commute, phone_line(l));
    lemma_has_itself(facilities_line(l));
    lemma_caption_has(l, extras, commute, facilities_line(l));
}

proof fn lemma_kind_is_told(
    l: Listing,
    extras: Option<DetailExtras>,
    commute: Option<CommuteTimes>,
)
    ensures
        l.property_type is Some && l.ber_rating is Some ==> has(
            full_caption(l, extras, commute),
            "🏠 "@ + escaped(l.property_type->0@) + " • BER "@ + escaped(l.ber_rating->0@) + "\n"@,
        ),
        l.property_type is Some && l.ber_rating is None ==> has(
            full_caption(l, extras, commute),
            "🏠 "@ + escaped(l.property_type->0@) + "\n"@,
        ),
{
    lemma_has_itself(type_line(l));
    lemma_caption_has(l, extras, commute, type_line(l));
    reveal_strlit("\n");
    if l.property_type is Some {
        let kind = "🏠 "@ + escaped(l.property_type->0@);
        if l.ber_rating is Some {
            assert(type_line(l) =~= kind + " • BER "@ + escaped(l.ber_rating->0@) + "\n"@);
        } else {
            assert(type_line(l) =~= kind + "\n"@);
        }
    }
}

proof fn lemma_beds_are_told(
    l: Listing,
    extras: Option<DetailExtras>,
    commute: Option<CommuteTimes>,
)
    ensures
        l.bedrooms matches Some(b) ==> has(
            full_caption(l, extras, commute),
            "</b> — "@ + escaped(b@) + "\n"@,
        ),
{
    match l.bedrooms {
        Some(b) => {
            lemma_beds_in_line(l, b@);
            lemma_caption_has(l, extras, commute, "</b> — "@ + escaped(b@) + "\n"@);
        },
        None => {},
    }
}

proof fn lemma_beds_in_line(l: Listing, beds: Seq<char>)
    requires
        l.bedrooms is Some,
        l.bedrooms->0@ == beds,
    ensures
        has(price_line(l), "</b> — "@ + escaped(beds) + "\n"@),
{
    let price = match l.price {
        Some(p) => p@,
        None => "price unknown"@,
    };
    let q = "</b> — "@ + escaped(beds) + "\n"@;
    let a = "<b>"@ + escaped(price);
    assert("\n"@ =~= seq!['\n']) by {
        reveal_strlit("\n");
    }
    assert("</b> — "@ =~= "</b>"@ + " — "@) by {
        reveal_strlit("</b>");
        reveal_strlit(" — ");
        reveal_strlit("</b> — ");
    }
    lemma_has_itself(q);
    lemma_has_right(a, q, q);
    lemma_last_of_four(a, "</b>"@, " — "@, escaped(beds), '\n');
    assert(price_line(l) == (a + "</b>"@ + " — "@ + escaped(beds)).push('\n'));
}

proof fn lemma_last_of_four(a: Seq<char>, b: Seq<char>, c: Seq<char>, d: Seq<char>, x: char)
    ensures
        (a + b + c + d).push(x) == a + (b + c + d + seq![x]),
{
    assert((a + b + c + d).push(x) =~= a + (b + c + d + seq![x]));
}

proof fn lemma_nine_as_two(
    a: Seq<char>,
    b: Seq<char>,
    c: Seq<char>,
    d: Seq<char>,
    e: Seq<char>,
    f: Seq<char>,
    g: Seq<char>,
    h: Seq<char>,
    i: Seq<char>,
)
    ensures
        a + b + c + d + e + f + g + h + i == a + (b + c + d + e + f + g + h + i),
{
    assert(a + b + c + d + e + f + g + h + i =~= a + (b + c + d + e + f + g + h + i));
}

proof fn lemma_begins_further(a: Seq<char>, b: Seq<char>, q: Seq<char>)
    requires
        begins(a, q),
    ensures
        begins(a + b, q),
{
    assert((a + b).subrange(0, q.len() as int) =~= a.subrange(0, q.len() as int));
}

proof fn lemma_line_begins(q: Seq<char>, dash: Seq<char>, beds: Seq<char>)
    ensures
        begins(q.push('\n'), q),
        begins((q + dash + beds).push('\n'), q),
{
    assert(q.push('\n').subrange(0, q.len() as int) =~= q);
    assert((q + dash + beds).push('\n').subrange(0, q.len() as int) =~= q);
}

proof fn lemma_price_begins(
    l: Listing,
    extras: Option<DetailExtras>,
    commute: Option<CommuteTimes>,
)
    ensures
        l.price matches Some(p) ==> begins(
            full_caption(l, extras, commute),
            "<b>"@ + escaped(p@) + "</b>"@,
        ),
        l.price is None ==> begins(full_caption(l, extras, commute), "<b>price unknown</b>"@),
{
    let price = match l.price {
        Some(p) => p@,
        None => "price unknown"@,
    };
    let q = "<b>"@ + escaped(price) + "</b>"@;
    let rest = type_line(l) + title_line(l) + seller_line(l) + phone_line(l) + extras_text(extras)
        + facilities_line(l) + commute_text(commute) + links_line(l);
    lemma_line_begins(
        q,
        " — "@,
        match l.bedrooms {
            Some(b) => escaped(b@),
            None => Seq::empty(),
        },
    );
    lemma_begins_further(price_line(l), rest, q);
    lemma_nine_as_two(
        price_line(l),
        type_line(l),
        title_line(l),
        seller_line(l),
        phone_line(l),
        extras_text(extras),
        facilities_line(l),
        commute_text(commute),
        links_line(l),
    );
    if l.price is None {
        assert(q == "<b>price unknown</b>"@) by {
            reveal_strlit("price unknown");
            reveal_strlit("<b>");
            reveal_strlit("</b>");
            reveal_strlit("<b>price unknown</b>");
            law_plain_text_is_not_escaped("price unknown"@);
            assert(q =~= "<b>price unknown</b>"@);
        }
    }
}

/// The caption ends with the link to the listing's page, after which, where its
/// place is known, comes a link to the map of that place.
pub proof fn law_caption_ends_with_the_links(
    l: Listing,
    extras: Option<DetailExtras>,
    commute: Option<CommuteTimes>,
)
    ensures
        ({
            let f = full_caption(l, extras, commute);
            let page = "<a href=\""@ + escaped(l.url@) + "\">View on daft.ie</a>"@;
            &&& l.lat is None || l.lng is None ==> exists|a: Seq<char>| f == #[trigger] (a + page)
            &&& l.lat is Some && l.lng is Some ==> exists|a: Seq<char>|
                f == #[trigger] (a + (page + " · <a href=\"https://www.google.com/maps?q="@
                    + l.lat->0.text@ + ","@ + l.lng->0.text@ + "&amp;z=13\">Google Maps</a>"@))
        }),
{
    let f = full_caption(l, extras, commute);
    let page = "<a href=\""@ + escaped(l.url@) + "\">View on daft.ie</a>"@;
    let a = price_line(l) + type_line(l) + title_line(l) + seller_line(l) + phone_line(l)
        + extras_text(extras) + facilities_line(l) + commute_text(commute);
    assert(f == a + links_line(l));
    if l.lat is Some && l.lng is Some {
        reveal_strlit(" · <a href=\"https://www.google.com/maps?q=");
        reveal_strlit(" · ");
        reveal_strlit("<a href=\"https://www.google.com/maps?q=");
        reveal_strlit("&amp;z=13\">Google Maps</a>");
        reveal_strlit("&amp;z=13\">");
        reveal_strlit("Google Maps</a>");
        let whole = page + " · <a href=\"https://www.google.com/maps?q="@ + l.lat->0.text@ + ","@
            + l.lng->0.text@ + "&amp;z=13\">Google Maps</a>"@;
        assert(" · <a href=\"https://www.google.com/maps?q="@ =~= " · "@
            + "<a href=\"https://www.google.com/maps?q="@);
        assert("&amp;z=13\">Google Maps</a>"@ =~= "&amp;z=13\">"@ + "Google Maps</a>"@);
        assert(links_line(l) =~= whole);
        assert(f == a + whole);
    } else {
        assert(f == a + page);
    }
}

/// The caption shows every item of the overview, the date of publication where
/// the calendar reaches it, and the number of views.
pub proof fn law_caption_tells_the_page(
    l: Listing,
    x: DetailExtras,
    commute: Option<CommuteTimes>,
    i: int,
)
    ensures
        ({
            let f = full_caption(l, Some(x), commute);
            &&& 0 <= i < x.property_overview@.len() ==> has(
                f,
                overview_item_text(x.property_overview@[i]),
            )
            &&& x.date_listed_ms matches Some(ms) ==> (date_text(ms) matches Some(d) ==> has(
                f,
                "🗓 <b>"@ + escaped(d) + "</b>\n"@,
            ))
            &&& x.views matches Some(n) ==> has(f, "👁 <b>"@ + thousands_text(n as int) + "</b>\n"@)
        }),
{
    let a = overview_text(x.property_overview@);
    let b = date_line(x.date_listed_ms);
    let c = views_line(x.views);
    if 0 <= i < x.property_overview@.len() {
        let q = overview_item_text(x.property_overview@[i]);
        lemma_overview_has(x.property_overview@, i);
        lemma_has_either(a, b, q);
        lemma_has_either(a + b, c, q);
        lemma_caption_has(l, Some(x), commute, q);
    }
    lemma_has_itself(b);
    lemma_has_either(a, b, b);
    lemma_has_either(a + b, c, b);
    lemma_caption_has(l, Some(x), commute, b);
    lemma_has_itself(c);
    lemma_has_either(a + b, c, c);
    lemma_caption_has(l, Some(x), commute, c);
}

proof fn lemma_overview_has(items: Seq<OverviewItem>, i: int)
    requires
        0 <= i < items.len(),
    ensures
        has(overview_text(items), overview_item_text(items[i])),
    decreases items.len(),
{
    let q = overview_item_text(items[i]);
    let front = overview_text(items.drop_last());
    let last = overview_item_text(items.last());
    if i == items.len() - 1 {
        lemma_has_itself(q);
        lemma_has_right(front, last, q);
    } else {
        lemma_overview_has(items.drop_last(), i);
        lemma_has_left(front, last, q);
    }
}

/// The overview shows its items in their order, each once.
pub proof fn law_overview_lines_keep_their_order(a: Seq<OverviewItem>, b: Seq<OverviewItem>)
    ensures
        overview_text(a + b) == overview_text(a) + overview_text(b),
    decreases b.len(),
{
    if b.len() == 0 {
        assert(a + b =~= a);
        assert(overview_text(a) + overview_text(b) =~= overview_text(a));
    } else {
        assert((a + b).drop_last() =~= a + b.drop_last());
        law_overview_lines_keep_their_order(a, b.drop_last());
        assert(overview_text(a + b) =~= overview_text(a) + overview_text(b));
    }
}

/// Every line of the overview shows its value in bold at its end, and a label
/// without a style of its own before it.
pub proof fn law_overview_lines_show_label_and_value(label: Seq<char>, value: Seq<char>)
    ensures
        exists|a: Seq<char>|
            overview_line(label, value) == #[trigger] (a + ("<b>"@ + escaped(value) + "</b>\n"@)),
        label != "Bedrooms Available"@ && label != "Available From"@ && label != "Available For"@
            && label != "Sharing with"@ && label != "Owner Occupied"@ ==> overview_line(label, value)
            == escaped(label) + ": <b>"@ + escaped(value) + "</b>\n"@,
{
    reveal_strlit("<b>");
    reveal_strlit("🛏 Beds: <b>");
    reveal_strlit("📅 <b>");
    reveal_strlit("📆 <b>");
    reveal_strlit("Sharing: <b>");
    reveal_strlit("Owner: <b>");
    reveal_strlit(": <b>");
    let line = overview_line(label, value);
    let end = "<b>"@ + escaped(value) + "</b>\n"@;
    let a = line.take(line.len() - end.len());
    assert(line =~= a + end);
}

/// Preferences are shown as emojis exactly where a word between slashes, without
/// the white space around it, names a gender in whatever letters.
pub proof fn law_preferences_need_a_gender(text: Seq<char>, i: int)
    requires
        0 <= i < split(text, '/').len(),
        trimmed(split(text, '/')[i]).len() > 0,
    ensures
        ({
            let w = trimmed(split(text, '/')[i]);
            &&& lowercase(w) == "female"@ || lowercase(w) == "male"@ ==> preferences_text(text)
                is Some
            &&& preferences_text(text) is Some ==> {
                &&& lowercase(w) == "female"@ ==> has(
                    preferences_text(text)->0,
                    "👱🏻\u{200d}♀\u{fe0f}"@,
                )
                &&& lowercase(w) == "male"@ ==> has(
                    preferences_text(text)->0,
                    "👱🏻\u{200d}♂\u{fe0f}"@,
                )
                &&& lowercase(w) != "female"@ && lowercase(w) != "male"@ ==> has(
                    preferences_text(text)->0,
                    escaped(w),
                )
            }
        }),
        (forall|k: int|
            0 <= k < split(text, '/').len() ==> lowercase(
                trimmed(#[trigger] split(text, '/')[k]),
            ) != "female"@ && lowercase(trimmed(split(text, '/')[k])) != "male"@)
            ==> preferences_text(text) is None,
{
    reveal_strlit("female");
    reveal_strlit("male");
    assert("female"@.len() != "male"@.len());
    let pieces = split(text, '/');
    let w = trimmed(pieces[i]);
    let raw = pieces.map_values(|p: Seq<char>| trimmed(p));
    let keep = |w: Seq<char>| w.len() > 0;
    let words = preference_words(text);
    assert(raw[i] == w);
    assert(raw.contains(w));
    lemma_filter_has(raw, w, keep);
    let j = choose|j: int| 0 <= j < words.len() && words[j] == w;
    assert(is_gender(words[j]) == (lowercase(w) == "female"@ || lowercase(w) == "male"@));
    let shown = words.map_values(|w: Seq<char>| preference_text(w));
    law_joined_holds_each(shown, " "@, j);
    assert(shown[j] == preference_text(w));
    assert(preferences_text(text) is Some ==> preferences_text(text)->0 == joined(shown, " "@));
    if preferences_text(text) is Some {
        let m = choose|m: int| 0 <= m < words.len() && is_gender(#[trigger] words[m]);
        lemma_filter_has(raw, words[m], keep);
        assert(words.contains(words[m]));
        let k = choose|k: int| 0 <= k < raw.len() && raw[k] == words[m];
        assert(raw[k] == trimmed(pieces[k]));
    }
}

proof fn lemma_filter_has(s: Seq<Seq<char>>, x: Seq<char>, p: spec_fn(Seq<char>) -> bool)
    ensures
        s.filter(p).contains(x) <==> s.contains(x) && p(x),
    decreases s.len(),
{
    reveal(Seq::filter);
    if s.len() > 0 {
        let t = s.drop_last();
        let y = s.last();
        lemma_filter_has(t, x, p);
        let f = t.filter(p);
        assert(s =~= t.push(y));
        assert(s.filter(p) == (if p(y) {
            f.push(y)
        } else {
            f
        }));
        if t.contains(x) {
            let i = choose|i: int| 0 <= i < t.len() && t[i] == x;
            assert(s[i] == x);
        }
        assert(s[s.len() - 1] == y);
        if f.contains(x) {
            let i = choose|i: int| 0 <= i < f.len() && f[i] == x;
            assert(f.push(y)[i] == x);
        }
        assert(f.push(y)[f.len() as int] == y);
        if s.filter(p).contains(x) && p(y) && x != y {
            let i = choose|i: int| 0 <= i < f.push(y).len() && f.push(y)[i] == x;
            assert(f[i] == x);
        }
        if s.contains(x) && x != y {
            let i = choose|i: int| 0 <= i < s.len() && s[i] == x;
            assert(t[i] == x);
        }
    }
}

/// A listing has a phone number exactly where the seller's holds more than white
/// space.
pub proof fn law_phone_is_more_than_white_space(phone: Option<String>)
    ensures
        phone_of(phone) is Some <==> phone is Some && exists|i: int|
            0 <= i < phone->0@.len() && !is_white(#[trigger] phone->0@[i]),
{
    if phone is Some {
        law_blank_is_all_white(phone->0@);
    }
}

/// A caption that was too long keeps its beginning, up to the limit, and ends
/// with an ellipsis.
pub proof fn law_cut_caption_keeps_its_beginning(
    l: Listing,
    extras: Option<DetailExtras>,
    commute: Option<CommuteTimes>,
)
    requires
        full_caption(l, extras, commute).len() > 1000,
    ensures
        ({
            let c = caption_text(l, extras, commute);
            &&& c.len() == 1000
            &&& c.last() == '…'
            &&& forall|i: int|
                0 <= i < 999 ==> #[trigger] c[i] == full_caption(l, extras, commute)[i]
        }),
{
}

/// Of a listing of which only the title and the page are known the caption tells
/// those, and that the price is unknown.
pub proof fn law_bare_caption(l: Listing)
    requires
        l.price is None && l.bedrooms is None && l.property_type is None && l.seller_name is None
            && l.seller_phone is None && l.facilities@.len() == 0 && l.lat is None,
    ensures
        full_caption(l, None, None) == "<b>price unknown</b>\n📍 "@ + escaped(l.title@)
            + "\n<a href=\""@ + escaped(l.url@) + "\">View on daft.ie</a>"@,
{
    reveal_strlit("price unknown");
    reveal_strlit("<b>");
    reveal_strlit("</b>");
    reveal_strlit("📍 ");
    reveal_strlit("\n");
    reveal_strlit("<a href=\"");
    reveal_strlit("<b>price unknown</b>\n📍 ");
    reveal_strlit("\n<a href=\"");
    law_plain_text_is_not_escaped("price unknown"@);
    assert("<b>price unknown</b>\n📍 "@ =~= "<b>"@ + "price unknown"@ + "</b>"@ + "\n"@ + "📍 "@);
    assert("\n<a href=\""@ =~= "\n"@ + "<a href=\""@);
    assert(price_line(l) =~= "<b>"@ + "price unknown"@ + "</b>"@ + "\n"@);
    let none = Seq::<char>::empty();
    assert(full_caption(l, None, None) =~= price_line(l) + title_line(l) + links_line(l));
    assert(price_line(l) + title_line(l) + links_line(l) =~= "<b>price unknown</b>\n📍 "@ + escaped(
        l.title@,
    ) + "\n<a href=\""@ + escaped(l.url@) + "\">View on daft.ie</a>"@);
}

proof fn lemma_four_as_two(a: Seq<char>, b: Seq<char>, c: Seq<char>, d: Seq<char>)
    ensures
        a + b + c + d == a + (b + c + d),
{
    assert(a + b + c + d =~= a + (b + c + d));
}

proof fn lemma_has_middle_three(
    a: Seq<char>,
    b: Seq<char>,
    c: Seq<char>,
    d: Seq<char>,
    e: Seq<char>,
    f: Seq<char>,
    g: Seq<char>,
    h: Seq<char>,
    i: Seq<char>,
)
    ensures
        has(a + b + c + d + e + f + g + h + i, c + d + e),
        begins(a + b + c + d + e + f + g + h + i, a + b + c),
{
    let q = c + d + e;
    lemma_four_as_two(a + b, c, d, e);
    lemma_has_itself(q);
    lemma_has_right(a + b, q, q);
    lemma_has_left(a + b + c + d + e, f, q);
    lemma_has_left(a + b + c + d + e + f, g, q);
    lemma_has_left(a + b + c + d + e + f + g, h, q);
    lemma_has_left(a + b + c + d + e + f + g + h, i, q);
    let p = a + b + c;
    assert(begins(p, p)) by {
        assert(p.subrange(0, p.len() as int) =~= p);
    }
    lemma_begins_further(p, d, p);
    lemma_begins_further(p + d, e, p);
    lemma_begins_further(p + d + e, f, p);
    lemma_begins_further(p + d + e + f, g, p);
    lemma_begins_further(p + d + e + f + g, h, p);
    lemma_begins_further(p + d + e + f + g + h, i, p);
}

/// The title, the seller's name and the phone number stand one after another.
pub proof fn law_contacts_follow_the_title(
    l: Listing,
    extras: Option<DetailExtras>,
    commute: Option<CommuteTimes>,
)
    requires
        l.seller_name is Some,
        l.seller_phone is Some && trimmed(l.seller_phone->0@).len() > 0,
    ensures
        has(
            full_caption(l, extras, commute),
            ("📍 "@ + escaped(l.title@) + "\n"@) + ("👤 "@ + escaped(l.seller_name->0@) + "\n"@) + (
            "📞 <code>"@ + escaped(trimmed(l.seller_phone->0@)) + "</code>\n"@),
        ),
{
    lemma_has_middle_three(
        price_line(l),
        type_line(l),
        title_line(l),
        seller_line(l),
        phone_line(l),
        extras_text(extras),
        facilities_line(l),
        commute_text(commute),
        links_line(l),
    );
}

/// The kind of property stands between the line of the price and the title.
pub proof fn law_kind_stands_between_price_and_title(
    l: Listing,
    extras: Option<DetailExtras>,
    commute: Option<CommuteTimes>,
)
    requires
        l.price is Some && l.bedrooms is Some && l.property_type is Some && l.ber_rating is Some,
    ensures
        begins(
            full_caption(l, extras, commute),
            ("<b>"@ + escaped(l.price->0@) + "</b>"@ + " — "@ + escaped(l.bedrooms->0@)).push('\n') + (
            "🏠 "@ + escaped(l.property_type->0@) + " • BER "@ + escaped(l.ber_rating->0@)).push(
                '\n',
            ) + ("📍 "@ + escaped(l.title@) + "\n"@),
        ),
{
    lemma_has_middle_three(
        price_line(l),
        type_line(l),
        title_line(l),
        seller_line(l),
        phone_line(l),
        extras_text(extras),
        facilities_line(l),
        commute_text(commute),
        links_line(l),
    );
}

proof fn lemma_regroup_end(
    a: Seq<char>,
    b: Seq<char>,
    c: Seq<char>,
    d: Seq<char>,
    e: Seq<char>,
    f: Seq<char>,
)
    ensures
        has((a + b + c) + d + e + f, d + e + f),
        has((a + b + c) + d + e + f, b + c + d),
{
    let p = d + e + f;
    lemma_four_as_two(a + b + c, d, e, f);
    lemma_has_itself(p);
    lemma_has_right(a + b + c, p, p);
    let q = b + c + d;
    lemma_four_as_two(a, b, c, d);
    lemma_has_itself(q);
    lemma_has_right(a, q, q);
    lemma_has_left(a + b + c + d, e, q);
    lemma_has_left(a + b + c + d + e, f, q);
}

/// After the overview of the page come its date and its views, then the
/// facilities, then the times of the way to work and the links.
pub proof fn law_page_comes_before_the_facilities(
    l: Listing,
    x: DetailExtras,
    commute: Option<CommuteTimes>,
)
    requires
        l.facilities@.len() > 0,
    ensures
        x.views is Some && x.date_listed_ms is Some && date_text(x.date_listed_ms->0) is Some ==> has(
            full_caption(l, Some(x), commute),
            ("🗓 <b>"@ + escaped(date_text(x.date_listed_ms->0)->0) + "</b>\n"@) + ("👁 <b>"@
                + thousands_text(x.views->0 as int) + "</b>\n"@) + ("✨ "@ + escaped(
                joined(views(l.facilities@), ", "@),
            ) + "\n"@),
        ),
        has(
            full_caption(l, Some(x), commute),
            ("✨ "@ + escaped(joined(views(l.facilities@), ", "@)) + "\n"@) + commute_text(commute)
                + links_line(l),
        ),
{
    let over = overview_text(x.property_overview@);
    let date = date_line(x.date_listed_ms);
    let seen = views_line(x.views);
    let page = over + date + seen;
    let fac = facilities_line(l);
    let times = commute_text(commute);
    let links = links_line(l);
    let end = page + fac + times + links;
    let head = price_line(l) + type_line(l) + title_line(l) + seller_line(l) + phone_line(l);
    lemma_regroup_end(over, date, seen, fac, times, links);
    lemma_five_and_four(head, page, fac, times, links);
    lemma_has_right(head, end, date + seen + fac);
    lemma_has_right(head, end, fac + times + links);
}

proof fn lemma_five_and_four(
    head: Seq<char>,
    f: Seq<char>,
    g: Seq<char>,
    h: Seq<char>,
    i: Seq<char>,
)
    ensures
        head + f + g + h + i == head + (f + g + h + i),
{
    assert(head + f + g + h + i =~= head + (f + g + h + i));
}

/// The labels of the overview that are told in another way have their own lines.
pub proof fn law_known_labels_have_their_lines(value: Seq<char>)
    ensures
        overview_line("Bedrooms Available"@, value) == "🛏 Beds: <b>"@ + escaped(value)
            + "</b>\n"@,
        overview_line("Available From"@, value) == "📅 <b>"@ + escaped(value) + "</b>\n"@,
        overview_line("Available For"@, value) == "📆 <b>"@ + escaped(value) + "</b>\n"@,
        overview_line("Sharing with"@, value) == "Sharing: <b>"@ + escaped(value) + "</b>\n"@,
        overview_line("Owner Occupied"@, value) == "Owner: <b>"@ + escaped(value) + "</b>\n"@,
{
    reveal_strlit("Bedrooms Available");
    reveal_strlit("Available From");
    reveal_strlit("Available For");
    reveal_strlit("Sharing with");
    reveal_strlit("Owner Occupied");
    assert("Bedrooms Available"@[0] == 'B' && "Available From"@[0] == 'A' && "Owner Occupied"@[0]
        == 'O' && "Sharing with"@[0] == 'S');
    assert("Available From"@.len() == 14 && "Available For"@.len() == 13);
    assert("Sharing with"@.len() == 12 && "Owner Occupied"@.len() == 14);
}

} // verus!
