//! Travel times: what is asked of the Google Distance Matrix service, what its
//! reply means, and how a duration is shown.

use vstd::prelude::*;

use crate::geo::Point;
use crate::html::{escaped, law_plain_text_is_not_escaped};
use crate::number::{decimal_text, is_digit, law_decimal_text_writes_its_number, push_decimal};
use crate::text::{begins, has, law_has_is_being_made_of, same};

verus! {

/// A way to travel.
#[derive(Clone, Copy, Debug, PartialEq, Eq, Structural)]
pub enum Mode {
    Driving,
    Walking,
    Bicycling,
    Transit,
}

impl Mode {
    /// The name of this mode in a request.
    pub open spec fn name(self) -> Seq<char> {
        match self {
            Mode::Driving => "driving"@,
            Mode::Walking => "walking"@,
            Mode::Bicycling => "bicycling"@,
            Mode::Transit => "transit"@,
        }
    }

    /// The emoji that stands for this mode in a caption.
    pub open spec fn picture(self) -> Seq<char> {
        match self {
            Mode::Driving => "🚗"@,
            Mode::Walking => "🚶"@,
            Mode::Bicycling => "🚴"@,
            Mode::Transit => "🚌"@,
        }
    }

    /// The name of this mode in a request.
    pub fn as_str(&self) -> (r: &'static str)
        ensures
            r@ == self.name(),
    {
        match self {
            Mode::Driving => "driving",
            Mode::Walking => "walking",
            Mode::Bicycling => "bicycling",
            Mode::Transit => "transit",
        }
    }

    /// The emoji that stands for this mode in a caption.
    pub fn emoji(&self) -> (r: &'static str)
        ensures
            r@ == self.picture(),
    {
        match self {
            Mode::Driving => "🚗",
            Mode::Walking => "🚶",
            Mode::Bicycling => "🚴",
            Mode::Transit => "🚌",
        }
    }
}

/// The seconds that each mode takes, where the service told.
#[derive(Clone, Debug)]
pub struct CommuteTimes {
    pub driving: Option<u32>,
    pub walking: Option<u32>,
    pub bicycling: Option<u32>,
    pub transit: Option<u32>,
}

impl Default for CommuteTimes {
    fn default() -> (r: Self)
        ensures
            r.driving is None && r.walking is None && r.bicycling is None && r.transit is None,
    {
        CommuteTimes { driving: None, walking: None, bicycling: None, transit: None }
    }
}

impl CommuteTimes {
    /// The seconds that a mode takes.
    pub open spec fn of(self, mode: Mode) -> Option<u32> {
        match mode {
            Mode::Driving => self.driving,
            Mode::Walking => self.walking,
            Mode::Bicycling => self.bicycling,
            Mode::Transit => self.transit,
        }
    }

    /// Whether there is a time for any mode.
    pub fn any(&self) -> (r: bool)
        ensures
            r == exists|mode: Mode| #[trigger] self.of(mode) is Some,
    {
        let r = self.driving.is_some() || self.walking.is_some() || self.bicycling.is_some()
            || self.transit.is_some();
        proof {
            if self.driving.is_some() {
                assert(self.of(Mode::Driving) is Some);
            } else if self.walking.is_some() {
                assert(self.of(Mode::Walking) is Some);
            } else if self.bicycling.is_some() {
                assert(self.of(Mode::Bicycling) is Some);
            } else if self.transit.is_some() {
                assert(self.of(Mode::Transit) is Some);
            }
        }
        r
    }

    /// These times, if there is one among them.
    pub fn if_any(self) -> (r: Option<CommuteTimes>)
        ensures
            match r {
                Some(times) => times == self && exists|mode: Mode| #[trigger]
                    self.of(mode) is Some,
                None => forall|mode: Mode| #[trigger] self.of(mode) is None,
            },
    {
        if self.any() {
            Some(self)
        } else {
            None
        }
    }

    /// The times out of the outcome of each mode; a mode that failed has none.
    pub fn from_outcomes(
        driving: Result<u32, String>,
        walking: Result<u32, String>,
        bicycling: Result<u32, String>,
        transit: Result<u32, String>,
    ) -> (r: CommuteTimes)
        ensures
            r.driving == (match driving {
                Ok(s) => Some(s),
                Err(_) => None,
            }),
            r.walking == (match walking {
                Ok(s) => Some(s),
                Err(_) => None,
            }),
            r.bicycling == (match bicycling {
                Ok(s) => Some(s),
                Err(_) => None,
            }),
            r.transit == (match transit {
                Ok(s) => Some(s),
                Err(_) => None,
            }),
    {
        CommuteTimes {
            driving: driving.ok(),
            walking: walking.ok(),
            bicycling: bicycling.ok(),
            transit: transit.ok(),
        }
    }
}

/// The address to ask for the time from one place to another.
pub open spec fn request_text(
    origin: Point,
    destination: Point,
    mode: Mode,
    api_key: Seq<char>,
) -> Seq<char> {
    "https://maps.googleapis.com/maps/api/distancematrix/json?origins="@ + origin.lat.text@ + ","@
        + origin.lng.text@ + "&destinations="@ + destination.lat.text@ + ","@
        + destination.lng.text@ + "&mode="@ + mode.name() + "&key="@ + api_key
}

/// The address to ask for the time from one place to another.
pub fn request_url(origin: &Point, destination: &Point, mode: Mode, api_key: &str) -> (r: String)
    ensures
        r@ == request_text(*origin, *destination, mode, api_key@),
{
    let mut url = String::new();
    url.append("https://maps.googleapis.com/maps/api/distancematrix/json?origins=");
    assert(url@ =~= "https://maps.googleapis.com/maps/api/distancematrix/json?origins="@);
    url.append(origin.lat.text.as_str());
    url.append(",");
    url.append(origin.lng.text.as_str());
    url.append("&destinations=");
    url.append(destination.lat.text.as_str());
    url.append(",");
    url.append(destination.lng.text.as_str());
    url.append("&mode=");
    url.append(mode.as_str());
    url.append("&key=");
    url.append(api_key);
    url
}

/// A reply of the service.
#[derive(Debug)]
pub struct ApiResp {
    pub status: String,
    pub rows: Vec<ApiRow>,
    pub error_message: Option<String>,
}

/// The destinations of one origin.
#[derive(Debug)]
pub struct ApiRow {
    pub elements: Vec<ApiElement>,
}

/// One origin and one destination; the duration is in seconds.
#[derive(Debug)]
pub struct ApiElement {
    pub status: String,
    pub duration: Option<u32>,
}

/// The seconds that a reply gives, or what is wrong with it.
pub open spec fn reply_meaning(resp: ApiResp) -> Result<u32, Seq<char>> {
    if resp.status@ != "OK"@ {
        Err(
            "API status "@ + resp.status@ + ": "@ + (match resp.error_message {
                Some(m) => m@,
                None => Seq::empty(),
            }),
        )
    } else if resp.rows@.len() == 0 {
        Err("no row in response"@)
    } else if resp.rows@[0].elements@.len() == 0 {
        Err("no element in row"@)
    } else {
        let element = resp.rows@[0].elements@[0];
        if element.status@ != "OK"@ {
            Err("element status: "@ + element.status@)
        } else {
            match element.duration {
                Some(secs) => Ok(secs),
                None => Err("element has no duration"@),
            }
        }
    }
}

/// The seconds that a reply gives, or what is wrong with it.
pub fn travel_seconds(resp: &ApiResp) -> (r: Result<u32, String>)
    ensures
        reply_meaning(*resp) == (match r {
            Ok(secs) => Ok(secs),
            Err(e) => Err::<u32, Seq<char>>(e@),
        }),
{
    let mut e = String::new();
    if !same(resp.status.as_str(), "OK") {
        e.append("API status ");
        assert(e@ =~= "API status "@);
        e.append(resp.status.as_str());
        e.append(": ");
        match &resp.error_message {
            Some(m) => {
                e.append(m.as_str());
            },
            None => {
                assert(e@ =~= e@ + Seq::<char>::empty());
            },
        }
        return Err(e);
    }
    if resp.rows.len() == 0 {
        e.append("no row in response");
        assert(e@ =~= "no row in response"@);
        return Err(e);
    }
    if resp.rows[0].elements.len() == 0 {
        e.append("no element in row");
        assert(e@ =~= "no element in row"@);
        return Err(e);
    }
    let element = &resp.rows[0].elements[0];
    if !same(element.status.as_str(), "OK") {
        e.append("element status: ");
        assert(e@ =~= "element status: "@);
        e.append(element.status.as_str());
        return Err(e);
    }
    match element.duration {
        Some(secs) => Ok(secs),
        None => {
            e.append("element has no duration");
            assert(e@ =~= "element has no duration"@);
            Err(e)
        },
    }
}

/// The nearest number of minutes; half a minute counts as one.
pub open spec fn minutes_of(secs: int) -> int {
    (secs + 30) / 60
}

/// The text of a duration, to the minute: `25 min`, `1h 32m` or `2h`.
pub open spec fn duration_text(secs: int) -> Seq<char> {
    let mins = minutes_of(secs);
    if mins < 60 {
        decimal_text(mins) + " min"@
    } else if mins % 60 == 0 {
        decimal_text(mins / 60) + "h"@
    } else {
        decimal_text(mins / 60) + "h "@ + decimal_text(mins % 60) + "m"@
    }
}

/// The text of a duration, to the minute: `25 min`, `1h 32m` or `2h`.
pub fn format_duration(secs: u32) -> (r: String)
    ensures
        r@ == duration_text(secs as int),
{
    let mins: u64 = (secs as u64 + 30) / 60;
    let mut out = String::new();
    if mins < 60 {
        push_decimal(&mut out, mins);
        assert(out@ =~= decimal_text(mins as int));
        out.append(" min");
    } else {
        let h: u64 = mins / 60;
        let m: u64 = mins % 60;
        push_decimal(&mut out, h);
        assert(out@ =~= decimal_text(h as int));
        if m == 0 {
            out.append("h");
        } else {
            out.append("h ");
            push_decimal(&mut out, m);
            out.append("m");
        }
    }
    out
}

/// The minutes shown are within half a minute of the duration.
pub proof fn law_minutes_are_nearest(secs: int)
    requires
        0 <= secs,
    ensures
        60 * minutes_of(secs) - 30 <= secs < 60 * minutes_of(secs) + 30,
{
}

/// A time to the nearest minute of `h` whole hours and `m` minutes is shown by
/// both, by the hours alone where there are no minutes, and by the minutes alone
/// where there are no hours.
pub proof fn law_durations_show_hours_and_minutes(secs: int, h: int, m: int)
    requires
        0 <= secs,
        0 <= h,
        0 <= m < 60,
        3600 * h + 60 * m - 30 <= secs < 3600 * h + 60 * m + 30,
    ensures
        h == 0 ==> duration_text(secs) == decimal_text(m) + " min"@,
        h > 0 && m == 0 ==> duration_text(secs) == decimal_text(h) + "h"@,
        h > 0 && m > 0 ==> duration_text(secs) == decimal_text(h) + "h "@ + decimal_text(m) + "m"@,
{
    assert(minutes_of(secs) == 60 * h + m);
    assert((60 * h + m) / 60 == h && (60 * h + m) % 60 == m);
}

/// The text of a duration needs no escaping.
pub proof fn law_durations_are_plain(secs: int)
    requires
        0 <= secs,
    ensures
        escaped(duration_text(secs)) == duration_text(secs),
{
    reveal_strlit(" min");
    reveal_strlit("h");
    reveal_strlit("h ");
    reveal_strlit("m");
    let mins = minutes_of(secs);
    law_decimal_text_writes_its_number(mins);
    law_decimal_text_writes_its_number(mins / 60);
    law_decimal_text_writes_its_number(mins % 60);
    let t = duration_text(secs);
    let a = decimal_text(mins);
    let b = decimal_text(mins / 60);
    let c = decimal_text(mins % 60);
    assert forall|i: int| 0 <= i < t.len() implies (#[trigger] t[i]) != '&' && t[i] != '<' && t[i]
        != '>' && t[i] != '"' by {
        if mins < 60 {
            if i < a.len() {
                assert(is_digit(a[i]));
            }
        } else if i < b.len() {
            assert(is_digit(b[i]));
        } else if mins % 60 != 0 && b.len() + 2 <= i < b.len() + 2 + c.len() {
            assert(is_digit(c[i - b.len() - 2]));
        }
    }
    law_plain_text_is_not_escaped(t);
}

/// A reply gives the seconds of its first element where it, the reply and that
/// element are in order, and none in any other case.
pub proof fn law_reply_gives_its_first_duration(resp: ApiResp, secs: u32)
    ensures
        reply_meaning(resp) == Ok::<u32, Seq<char>>(secs) <==> {
            &&& resp.status@ == "OK"@
            &&& resp.rows@.len() > 0
            &&& resp.rows@[0].elements@.len() > 0
            &&& resp.rows@[0].elements@[0].status@ == "OK"@
            &&& resp.rows@[0].elements@[0].duration == Some(secs)
        },
        resp.status@ != "OK"@ ==> reply_meaning(resp) is Err && begins(
            reply_meaning(resp)->Err_0,
            "API status "@ + resp.status@,
        ),
        resp.status@ != "OK"@ && resp.error_message is Some ==> has(
            reply_meaning(resp)->Err_0,
            resp.error_message->0@,
        ),
{
    if resp.status@ != "OK"@ {
        let p = "API status "@ + resp.status@;
        let m = match resp.error_message {
            Some(m) => m@,
            None => Seq::empty(),
        };
        let none = Seq::<char>::empty();
        law_has_is_being_made_of(none, p, none, ": "@ + m);
        assert(p + (": "@ + m) =~= p + ": "@ + m);
        law_has_is_being_made_of(none, m, p + ": "@, none);
        assert(p + ": "@ + m + none =~= p + ": "@ + m);
    }
}

/// A request names where the way begins and where it ends, the mode, and at its
/// end the key.
#[verifier::rlimit(40)]
pub proof fn law_request_names_the_way(
    origin: Point,
    destination: Point,
    mode: Mode,
    api_key: Seq<char>,
)
    ensures
        ({
            let r = request_text(origin, destination, mode, api_key);
            &&& has(r, "origins="@ + origin.lat.text@ + ","@ + origin.lng.text@ + "&"@)
            &&& has(
                r,
                "&destinations="@ + destination.lat.text@ + ","@ + destination.lng.text@ + "&"@,
            )
            &&& has(r, "&mode="@ + mode.name() + "&"@)
            &&& exists|a: Seq<char>| r == #[trigger] (a + ("&key="@ + api_key))
        }),
{
    reveal_strlit("https://maps.googleapis.com/maps/api/distancematrix/json?origins=");
    reveal_strlit("origins=");
    reveal_strlit("&destinations=");
    reveal_strlit("&mode=");
    reveal_strlit("&key=");
    reveal_strlit("&");
    let r = request_text(origin, destination, mode, api_key);
    let none = Seq::<char>::empty();
    let start = "https://maps.googleapis.com/maps/api/distancematrix/json?origins="@;
    let base = start.take(start.len() - 8);
    assert("origins="@ =~= start.skip(start.len() - 8));
    let o = origin.lat.text@ + ","@ + origin.lng.text@;
    let d = destination.lat.text@ + ","@ + destination.lng.text@;
    let p1 = "origins="@ + origin.lat.text@ + ","@ + origin.lng.text@ + "&"@;
    let q1 = "&destinations="@.skip(1) + d + "&mode="@ + mode.name() + "&key="@ + api_key;
    law_has_is_being_made_of(none, p1, base, q1);
    assert(r =~= base + p1 + q1);
    let a2 = start + o;
    let p2 = "&destinations="@ + destination.lat.text@ + ","@ + destination.lng.text@ + "&"@;
    let q2 = "&mode="@.skip(1) + mode.name() + "&key="@ + api_key;
    law_has_is_being_made_of(none, p2, a2, q2);
    assert(r =~= a2 + p2 + q2);
    let a3 = start + o + "&destinations="@ + d;
    let p3 = "&mode="@ + mode.name() + "&"@;
    let q3 = "&key="@.skip(1) + api_key;
    law_has_is_being_made_of(none, p3, a3, q3);
    assert(r =~= a3 + p3 + q3);
    let a4 = start + o + "&destinations="@ + d + "&mode="@ + mode.name();
    assert(r =~= a4 + ("&key="@ + api_key));
}

/// The four modes have four names and four emojis, and each has the time of its
/// own field.
pub proof fn law_modes_differ(t: CommuteTimes, a: Mode, b: Mode)
    ensures
        t.of(Mode::Driving) == t.driving,
        t.of(Mode::Walking) == t.walking,
        t.of(Mode::Bicycling) == t.bicycling,
        t.of(Mode::Transit) == t.transit,
        a != b ==> a.name() != b.name() && a.picture() != b.picture(),
{
    reveal_strlit("driving");
    reveal_strlit("walking");
    reveal_strlit("bicycling");
    reveal_strlit("transit");
    reveal_strlit("🚗");
    reveal_strlit("🚶");
    reveal_strlit("🚴");
    reveal_strlit("🚌");
    assert("driving"@[0] == 'd' && "walking"@[0] == 'w' && "bicycling"@[0] == 'b'
        && "transit"@[0] == 't');
    assert("🚗"@[0] == '🚗' && "🚶"@[0] == '🚶' && "🚴"@[0] == '🚴' && "🚌"@[0] == '🚌');
}

} // verus!
