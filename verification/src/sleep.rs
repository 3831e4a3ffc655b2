//! Sleep windows: reading `HH:MM-HH:MM` and telling whether a time of day falls
//! inside, also where the window spans midnight.

use vstd::prelude::*;

use crate::clock::{clock_reading, local_now, parse_hour_minute, TimeOfDay};
use crate::number::{all_digits, digit_value, is_ascii_digit, is_digit, two_digits};
use crate::text::{
    chars_of, is_white, law_trim_is_idempotent, lemma_seek_is, lemma_trim_end_at,
    lemma_trim_start_at, seek, seek_char, string_of, trim, trim_end, trim_start, trimmed,
};

verus! {

/// A text with each `::` written as `:`.
pub open spec fn single_colons(s: Seq<char>) -> Seq<char>
    decreases s.len(),
{
    if s.len() == 0 {
        s
    } else if s.len() >= 2 && s[0] == ':' && s[1] == ':' {
        seq![':'] + single_colons(s.skip(2))
    } else {
        seq![s[0]] + single_colons(s.skip(1))
    }
}

/// A text with each `::` written as `:`.
fn collapse_colons(s: &str) -> (r: String)
    ensures
        r@ == single_colons(s@),
{
    let cs = chars_of(s);
    let mut out = String::new();
    let mut i: usize = 0;
    let n: usize = cs.len();
    assert(s@.skip(0) =~= s@);
    assert(out@ + single_colons(s@.skip(0)) =~= single_colons(s@));
    while i < n
        invariant
            cs@ == s@,
            n == cs@.len(),
            i <= n,
            out@ + single_colons(s@.skip(i as int)) == single_colons(s@),
        decreases n - i,
    {
        let c = cs[i];
        let ghost rest = s@.skip(i as int);
        let ghost before = out@;
        out.push(c);
        if n - i >= 2 && c == ':' && cs[i + 1] == ':' {
            assert(rest[0] == ':' && rest[1] == ':');
            assert(rest.skip(2) =~= s@.skip(i + 2));
            assert(out@ + single_colons(s@.skip(i + 2)) =~= before + single_colons(rest));
            i = i + 2;
        } else {
            assert(rest[0] == c);
            assert(n - i >= 2 ==> rest[1] == cs@[i + 1]);
            assert(rest.skip(1) =~= s@.skip(i + 1));
            assert(out@ + single_colons(s@.skip(i + 1)) =~= before + single_colons(rest));
            i = i + 1;
        }
    }
    assert(s@.skip(n as int) =~= Seq::<char>::empty());
    assert(out@ =~= single_colons(s@));
    out
}

/// The time that one side of a window gives: an hour and a minute, or one or
/// two digits for a whole hour.
pub open spec fn time_part(s: Seq<char>) -> Option<TimeOfDay> {
    match clock_reading(s) {
        Some((hour, minute)) => Some(TimeOfDay::at(hour, minute)),
        None => if all_digits(s) && (s.len() == 1 || s.len() == 2) {
            match clock_reading(s + ":00"@) {
                Some((hour, minute)) => Some(TimeOfDay::at(hour, minute)),
                None => None,
            }
        } else {
            None
        },
    }
}

/// The time that one side of a window gives; none where it gives no time.
pub fn parse_time_part(s: &str) -> (r: Option<TimeOfDay>)
    ensures
        r == time_part(s@),
{
    match parse_hour_minute(s) {
        Some(t) => Some(t),
        None => {
            let cs = chars_of(s);
            let mut digits: bool = true;
            for i in 0..cs.len()
                invariant
                    digits == forall|j: int| 0 <= j < i ==> is_digit(#[trigger] cs@[j]),
            {
                if !is_ascii_digit(cs[i]) {
                    digits = false;
                }
            }
            if digits && (cs.len() == 1 || cs.len() == 2) {
                let mut padded = String::new();
                padded.append(s);
                padded.append(":00");
                assert(padded@ =~= s@ + ":00"@);
                parse_hour_minute(padded.as_str())
            } else {
                None
            }
        },
    }
}

/// The two times of a window, or what is wrong with its text.
pub open spec fn window(s: Seq<char>) -> Result<(TimeOfDay, TimeOfDay), Seq<char>> {
    let c = single_colons(trimmed(s));
    let dash = seek(c, '-', 0);
    if dash >= c.len() {
        Err("expected HH:MM-HH:MM or H-H"@)
    } else {
        let a = trimmed(c.take(dash));
        let b = trimmed(c.skip(dash + 1));
        match time_part(a) {
            None => Err("bad start time '"@ + a + "': not a valid time"@),
            Some(start) => match time_part(b) {
                None => Err("bad end time '"@ + b + "': not a valid time"@),
                Some(end) => Ok((start, end)),
            },
        }
    }
}

/// Reads a sleep window:
///   - `HH:MM-HH:MM` (such as `23:00-09:00`)
///   - `H-H` or `HH-HH`, whole hours (such as `23-9`)
///   - with `::` for `:`
pub fn parse(s: &str) -> (r: Result<(TimeOfDay, TimeOfDay), String>)
    ensures
        window(s@) == (match r {
            Ok(w) => Ok(w),
            Err(e) => Err::<(TimeOfDay, TimeOfDay), Seq<char>>(e@),
        }),
        r matches Ok((start, end)) ==> start.on_the_minute() && end.on_the_minute(),
{
    let t = trim(s);
    let cleaned = collapse_colons(t.as_str());
    let cs = chars_of(cleaned.as_str());
    let dash: usize = seek_char(&cs, '-', 0);
    if dash == cs.len() {
        let mut e = String::new();
        e.append("expected HH:MM-HH:MM or H-H");
        assert(e@ =~= "expected HH:MM-HH:MM or H-H"@);
        return Err(e);
    }
    let left = string_of(&cs, 0, dash);
    assert(left@ =~= cleaned@.take(dash as int));
    let a = trim(left.as_str());
    let right = string_of(&cs, dash + 1, cs.len());
    assert(right@ =~= cleaned@.skip(dash + 1));
    let b = trim(right.as_str());
    let start = match parse_time_part(a.as_str()) {
        Some(t) => t,
        None => {
            let mut e = String::new();
            e.append("bad start time '");
            e.append(a.as_str());
            e.append("': not a valid time");
            assert(e@ =~= "bad start time '"@ + a@ + "': not a valid time"@);
            return Err(e);
        },
    };
    let end = match parse_time_part(b.as_str()) {
        Some(t) => t,
        None => {
            let mut e = String::new();
            e.append("bad end time '");
            e.append(b.as_str());
            e.append("': not a valid time");
            assert(e@ =~= "bad end time '"@ + b@ + "': not a valid time"@);
            return Err(e);
        },
    };
    proof {
        lemma_time_part_on_the_minute(a@);
        lemma_time_part_on_the_minute(b@);
    }
    Ok((start, end))
}

proof fn lemma_time_part_on_the_minute(s: Seq<char>)
    ensures
        time_part(s) matches Some(t) ==> t.on_the_minute(),
{
}

/// The text `HH:MM-HH:MM` of a window.
pub open spec fn window_text(start: TimeOfDay, end: TimeOfDay) -> Seq<char> {
    start.text().push('-') + end.text()
}

/// The text `HH:MM-HH:MM` of the window that a text gives, or what is wrong
/// with it.
pub fn canonical(s: &str) -> (r: Result<String, String>)
    ensures
        match window(s@) {
            Ok((start, end)) => r matches Ok(t) && t@ == window_text(start, end),
            Err(e) => r matches Err(f) && f@ == e,
        },
{
    match parse(s) {
        Ok((start, end)) => {
            let mut out = start.hour_minute();
            out.push('-');
            out.append(end.hour_minute().as_str());
            Ok(out)
        },
        Err(e) => Err(e),
    }
}

/// Whether a time falls inside a window; a window that ends before it starts
/// spans midnight.
pub open spec fn in_window(start: TimeOfDay, end: TimeOfDay, now: TimeOfDay) -> bool {
    if !end.precedes(start) {
        !now.precedes(start) && now.precedes(end)
    } else {
        !now.precedes(start) || now.precedes(end)
    }
}

/// Whether a time falls inside a window; a window that ends before it starts
/// spans midnight.
pub fn is_in_window(start: TimeOfDay, end: TimeOfDay, now: TimeOfDay) -> (r: bool)
    ensures
        r == in_window(start, end, now),
{
    if !end.is_before(&start) {
        !now.is_before(&start) && now.is_before(&end)
    } else {
        !now.is_before(&start) || now.is_before(&end)
    }
}

/// Whether a configured window covers a time. None does where none is
/// configured or its text gives no window.
pub open spec fn asleep(sleep: Option<Seq<char>>, now: TimeOfDay) -> bool {
    match sleep {
        Some(s) => match window(s) {
            Ok((start, end)) => in_window(start, end, now),
            Err(_) => false,
        },
        None => false,
    }
}

/// The characters of an optional string.
pub open spec fn str_view(s: Option<&str>) -> Option<Seq<char>> {
    match s {
        Some(t) => Some(t@),
        None => None,
    }
}

/// Whether a configured window covers the time `now`.
pub fn is_sleeping_at(sleep: Option<&str>, now: TimeOfDay) -> (r: bool)
    ensures
        r == asleep(str_view(sleep), now),
{
    match sleep {
        Some(s) => match parse(s) {
            Ok((start, end)) => is_in_window(start, end, now),
            Err(_) => false,
        },
        None => false,
    }
}

/// Whether a configured window covers the time that the clock shows.
pub fn is_sleeping(sleep: Option<&str>) -> (r: bool)
    ensures
        exists|now: TimeOfDay| #[trigger] now.wf() && r == asleep(str_view(sleep), now),
        sleep is None ==> !r,
        sleep is Some && window(sleep->0@) is Err ==> !r,
{
    let (now, _) = local_now();
    is_sleeping_at(sleep, now)
}

/// A time is in exactly one of two windows that end where the other starts.
pub proof fn law_windows_complement(a: TimeOfDay, b: TimeOfDay, now: TimeOfDay)
    requires
        a != b,
    ensures
        in_window(a, b, now) == !in_window(b, a, now),
{
}

/// A window is never open where it ends when it starts; any other is open when
/// it starts and closed when it ends.
pub proof fn law_window_bounds(start: TimeOfDay, end: TimeOfDay, now: TimeOfDay)
    ensures
        start == end ==> !in_window(start, end, now),
        start != end ==> in_window(start, end, start) && !in_window(start, end, end),
{
}

/// A window that spans midnight is the evening from its start and the morning
/// until its end.
pub proof fn law_window_spans_midnight(start: TimeOfDay, end: TimeOfDay, now: TimeOfDay)
    requires
        end.precedes(start),
    ensures
        in_window(start, end, now) <==> !now.precedes(start) || now.precedes(end),
{
}

/// A whole hour is read as the hour with `:00` after it.
pub proof fn law_whole_hour_is_padded(hour: Seq<char>)
    requires
        all_digits(hour),
        hour.len() == 1 || hour.len() == 2,
    ensures
        time_part(hour) == time_part(hour + ":00"@),
{
    reveal_strlit(":00");
    lemma_digits_not_white(hour);
    lemma_trim_start_is_same(hour);
    assert((hour + ":00"@)[hour.len() as int] == ':');
    assert(!all_digits(hour + ":00"@)) by {
        assert(!is_digit((hour + ":00"@)[hour.len() as int]));
    }
}

proof fn lemma_digits_not_white(s: Seq<char>)
    requires
        all_digits(s),
    ensures
        forall|i: int| 0 <= i < s.len() ==> !is_white(#[trigger] s[i]),
{
    assert forall|i: int| 0 <= i < s.len() implies !is_white(#[trigger] s[i]) by {
        assert(is_digit(s[i]));
    }
}

proof fn lemma_trim_start_is_same(s: Seq<char>)
    requires
        s.len() > 0 ==> !is_white(s[0]),
    ensures
        trim_start(s) == s,
{
}

proof fn lemma_trimmed_is_same(s: Seq<char>)
    requires
        s.len() > 0 ==> !is_white(s[0]) && !is_white(s.last()),
    ensures
        trimmed(s) == s,
{
}

/// Whether a text holds no `:`.
pub open spec fn colon_free(s: Seq<char>) -> bool {
    forall|i: int| 0 <= i < s.len() ==> s[i] != ':'
}

proof fn lemma_single_colons_prefix(a: Seq<char>, b: Seq<char>)
    requires
        colon_free(a),
    ensures
        single_colons(a + b) == a + single_colons(b),
    decreases a.len(),
{
    if a.len() == 0 {
        assert(a + b =~= b);
        assert(a + single_colons(b) =~= single_colons(b));
    } else {
        let s = a + b;
        assert(s[0] == a[0]);
        assert(s.skip(1) =~= a.skip(1) + b);
        lemma_single_colons_prefix(a.skip(1), b);
        assert(single_colons(s) =~= a + single_colons(b));
    }
}

/// One `:` or two of them between two texts without any.
proof fn lemma_single_colons_pair(a: Seq<char>, b: Seq<char>)
    requires
        colon_free(a),
        b.len() > 0 ==> b[0] != ':',
    ensures
        single_colons(a + ":"@ + b) == a + ":"@ + single_colons(b),
        single_colons(a + "::"@ + b) == a + ":"@ + single_colons(b),
{
    reveal_strlit(":");
    reveal_strlit("::");
    let one = ":"@ + b;
    let two = "::"@ + b;
    assert(a + ":"@ + b =~= a + one);
    assert(a + "::"@ + b =~= a + two);
    lemma_single_colons_prefix(a, one);
    lemma_single_colons_prefix(a, two);
    assert(one[0] == ':');
    assert(one.len() >= 2 ==> one[1] == b[0]);
    assert(one.skip(1) =~= b);
    assert(single_colons(one) == seq![':'] + single_colons(b));
    assert(two[0] == ':' && two[1] == ':');
    assert(two.skip(2) =~= b);
    assert(single_colons(two) == seq![':'] + single_colons(b));
    assert(a + single_colons(one) =~= a + ":"@ + single_colons(b));
    assert(a + single_colons(two) =~= a + ":"@ + single_colons(b));
}

/// A window written with `::` in its times is the window written with `:`.
pub proof fn law_double_colons_are_tolerated(
    h1: Seq<char>,
    m1: Seq<char>,
    h2: Seq<char>,
    m2: Seq<char>,
)
    requires
        all_digits(h1),
        all_digits(m1),
        all_digits(h2),
        all_digits(m2),
        h1.len() > 0 && m1.len() > 0 && h2.len() > 0 && m2.len() > 0,
    ensures
        window(h1 + "::"@ + m1 + "-"@ + h2 + "::"@ + m2) == window(
            h1 + ":"@ + m1 + "-"@ + h2 + ":"@ + m2,
        ),
{
    reveal_strlit(":");
    reveal_strlit("::");
    reveal_strlit("-");
    let one = h1 + ":"@ + m1 + "-"@ + h2 + ":"@ + m2;
    let two = h1 + "::"@ + m1 + "-"@ + h2 + "::"@ + m2;
    assert(is_digit(h1[0]) && is_digit(m2[m2.len() - 1]) && is_digit(m1[0]));
    assert(one[0] == h1[0] && one.last() == m2.last());
    assert(two[0] == h1[0] && two.last() == m2.last());
    lemma_trimmed_is_same(one);
    lemma_trimmed_is_same(two);
    let mid = m1 + "-"@ + h2;
    assert(colon_free(mid)) by {
        assert forall|i: int| 0 <= i < mid.len() implies mid[i] != ':' by {
            if i < m1.len() {
                assert(is_digit(m1[i]));
            } else if i > m1.len() {
                assert(is_digit(h2[i - m1.len() - 1]));
            }
        }
    }
    assert(colon_free(h1)) by {
        assert forall|i: int| 0 <= i < h1.len() implies h1[i] != ':' by {
            assert(is_digit(h1[i]));
        }
    }
    assert(colon_free(m2)) by {
        assert forall|i: int| 0 <= i < m2.len() implies m2[i] != ':' by {
            assert(is_digit(m2[i]));
        }
    }
    let tail_one = mid + ":"@ + m2;
    let tail_two = mid + "::"@ + m2;
    assert(one =~= h1 + ":"@ + tail_one);
    assert(two =~= h1 + "::"@ + tail_two);
    assert(tail_one[0] == m1[0] && tail_two[0] == m1[0]);
    lemma_single_colons_pair(h1, tail_one);
    lemma_single_colons_pair(h1, tail_two);
    lemma_single_colons_pair(mid, m2);
    assert(single_colons(one) == single_colons(two));
}

proof fn lemma_two_digits(n: int)
    requires
        0 <= n < 100,
    ensures
        two_digits(n).len() == 2,
        is_digit(two_digits(n)[0]),
        is_digit(two_digits(n)[1]),
        digit_value(two_digits(n)[0]) * 10 + digit_value(two_digits(n)[1]) == n,
{
}

/// The text of a time reads back as the time.
proof fn lemma_time_text_reads_back(t: TimeOfDay)
    requires
        t.on_the_minute(),
    ensures
        time_part(t.text()) == Some(t),
        t.text().len() == 5,
        forall|i: int| 0 <= i < 5 ==> (#[trigger] t.text()[i] == ':' <==> i == 2),
        forall|i: int| 0 <= i < 5 && i != 2 ==> is_digit(#[trigger] t.text()[i]),
{
    let h = t.hour();
    let m = t.minute();
    lemma_two_digits(h);
    lemma_two_digits(m);
    let s = t.text();
    assert(s.len() == 5);
    assert(s[0] == two_digits(h)[0] && s[1] == two_digits(h)[1] && s[2] == ':' && s[3] == two_digits(
        m,
    )[0] && s[4] == two_digits(m)[1]);
    lemma_trim_start_is_same(s);
    let rest = s.skip(2);
    assert(rest[0] == ':');
    assert(rest.skip(1) =~= two_digits(m));
    lemma_trim_start_is_same(two_digits(m));
    assert(clock_reading(s) == Some((h, m)));
    assert(h * 3600 + m * 60 == t.secs as int);
}

/// The canonical text of a window gives the window.
pub proof fn law_window_text_reads_back(start: TimeOfDay, end: TimeOfDay)
    requires
        start.on_the_minute(),
        end.on_the_minute(),
    ensures
        window(window_text(start, end)) == Ok::<(TimeOfDay, TimeOfDay), Seq<char>>((start, end)),
{
    lemma_time_text_reads_back(start);
    lemma_time_text_reads_back(end);
    let a = start.text();
    let b = end.text();
    let s = window_text(start, end);
    assert(s.len() == 11);
    assert(forall|i: int| 0 <= i < 5 ==> s[i] == a[i]);
    assert(s[5] == '-');
    assert(forall|i: int| 0 <= i < 5 ==> s[i + 6] == b[i]);
    assert(is_digit(a[0]) && is_digit(a[1]) && is_digit(a[3]) && is_digit(a[4]));
    assert(is_digit(b[0]) && is_digit(b[1]) && is_digit(b[3]) && is_digit(b[4]));
    assert(s[10] == b[4]);
    lemma_trimmed_is_same(s);
    reveal_strlit(":");
    let mid = seq![a[3], a[4], '-', b[0], b[1]];
    let m2 = seq![b[3], b[4]];
    let h1 = seq![a[0], a[1]];
    let tail = mid + ":"@ + m2;
    assert(s =~= h1 + ":"@ + tail) by {
        assert(s[6] == b[0] && s[7] == b[1] && s[8] == b[2] && s[9] == b[3]);
    }
    lemma_single_colons_pair(h1, tail);
    lemma_single_colons_pair(mid, m2);
    lemma_single_colons_prefix(m2, Seq::empty());
    assert(m2 + Seq::<char>::empty() =~= m2);
    assert(single_colons(m2) =~= m2);
    assert(single_colons(s) =~= s);
    lemma_seek_is(s, '-', 0, 5);
    assert(s.take(5) =~= a);
    assert(s.skip(6) =~= b);
    lemma_trimmed_is_same(a);
    lemma_trimmed_is_same(b);
}

/// What a text gives, its canonical text gives too; so making a window
/// canonical twice is making it canonical once.
pub proof fn law_canonical_is_stable(s: Seq<char>)
    ensures
        window(s) matches Ok((start, end)) ==> window(window_text(start, end)) == window(s),
{
    if window(s) is Ok {
        let c = single_colons(trimmed(s));
        let dash = seek(c, '-', 0);
        lemma_time_part_on_the_minute(trimmed(c.take(dash)));
        lemma_time_part_on_the_minute(trimmed(c.skip(dash + 1)));
        let (start, end) = window(s)->Ok_0;
        law_window_text_reads_back(start, end);
    }
}

/// On a clock that counts the nanoseconds of a day, a window that does not end
/// before it starts is open from its start until its end, and any other is open
/// from its start on and until its end.
pub proof fn law_window_by_the_clock(start: TimeOfDay, end: TimeOfDay, now: TimeOfDay)
    requires
        start.wf() && end.wf() && now.wf(),
    ensures
        ({
            let a = start.secs * 2_000_000_000 + start.nanos;
            let b = end.secs * 2_000_000_000 + end.nanos;
            let t = now.secs * 2_000_000_000 + now.nanos;
            in_window(start, end, now) <==> if a <= b {
                a <= t < b
            } else {
                a <= t || t < b
            }
        }),
{
}

/// A chat is asleep exactly when a window that it has set is open: without one, or
/// with a text that gives none, it never is.
pub proof fn law_asleep_is_in_the_window(start: TimeOfDay, end: TimeOfDay, now: TimeOfDay, s: Seq<char>)
    requires
        start.on_the_minute(),
        end.on_the_minute(),
    ensures
        asleep(Some(window_text(start, end)), now) == in_window(start, end, now),
        !asleep(None, now),
        window(s) is Err ==> !asleep(Some(s), now),
        window(s) matches Ok((a, b)) ==> asleep(Some(s), now) == in_window(a, b, now),
{
    law_window_text_reads_back(start, end);
}

/// White space around the text of a window does not count.
pub proof fn law_space_around_a_window_does_not_count(s: Seq<char>)
    ensures
        window(trimmed(s)) == window(s),
{
    law_trim_is_idempotent(s);
}

proof fn lemma_no_pair_stays(s: Seq<char>)
    requires
        forall|i: int| 0 <= i < s.len() - 1 ==> !(#[trigger] s[i] == ':' && s[i + 1] == ':'),
    ensures
        single_colons(s) == s,
    decreases s.len(),
{
    if s.len() > 0 {
        let t = s.skip(1);
        assert forall|i: int| 0 <= i < t.len() - 1 implies !(#[trigger] t[i] == ':' && t[i + 1]
            == ':') by {
            assert(t[i] == s[i + 1]);
            assert(t[i + 1] == s[i + 2]);
        }
        if s.len() >= 2 {
            assert(!(s[0] == ':' && s[1] == ':'));
        }
        lemma_no_pair_stays(t);
        assert(single_colons(s) =~= s);
    }
}

/// A window is what stands before its first dash and what stands after it, each
/// read as a time; the first of them that is none is named in the error, and
/// without a dash there is no window.
pub proof fn law_window_is_its_two_times(a: Seq<char>, b: Seq<char>)
    requires
        a.len() > 0 && !is_white(a[0]) && !is_white(a.last()),
        b.len() > 0 && !is_white(b[0]) && !is_white(b.last()),
        forall|i: int| 0 <= i < a.len() ==> a[i] != '-',
        forall|i: int| 0 <= i < a.len() - 1 ==> !(#[trigger] a[i] == ':' && a[i + 1] == ':'),
        forall|i: int| 0 <= i < b.len() - 1 ==> !(#[trigger] b[i] == ':' && b[i + 1] == ':'),
    ensures
        time_part(a) is Some && time_part(b) is Some ==> window(a.push('-') + b) == Ok::<
            (TimeOfDay, TimeOfDay),
            Seq<char>,
        >((time_part(a)->0, time_part(b)->0)),
        time_part(a) is None ==> window(a.push('-') + b) == Err::<(TimeOfDay, TimeOfDay), Seq<char>>(
            "bad start time '"@ + a + "': not a valid time"@,
        ),
        time_part(a) is Some && time_part(b) is None ==> window(a.push('-') + b) == Err::<
            (TimeOfDay, TimeOfDay),
            Seq<char>,
        >("bad end time '"@ + b + "': not a valid time"@),
        window(a) == Err::<(TimeOfDay, TimeOfDay), Seq<char>>("expected HH:MM-HH:MM or H-H"@),
{
    let s = a.push('-') + b;
    assert(s[0] == a[0] && s.last() == b.last());
    lemma_trimmed_is_same(s);
    assert forall|i: int| 0 <= i < s.len() - 1 implies !(#[trigger] s[i] == ':' && s[i + 1]
        == ':') by {
        if i + 1 < a.len() {
            assert(s[i] == a[i] && s[i + 1] == a[i + 1]);
        } else if i > a.len() {
            assert(s[i] == b[i - a.len() - 1] && s[i + 1] == b[i - a.len()]);
        }
    }
    lemma_no_pair_stays(s);
    lemma_seek_is(s, '-', 0, a.len() as int);
    assert(s.take(a.len() as int) =~= a);
    assert(s.skip(a.len() as int + 1) =~= b);
    lemma_trimmed_is_same(a);
    lemma_trimmed_is_same(b);
    lemma_no_pair_stays(a);
    lemma_seek_is(a, '-', 0, a.len() as int);
}

/// A time is an hour below 24 and a minute below 60, in one or two digits each,
/// with a colon between them.
pub proof fn law_times_are_hours_and_minutes(h: int, m: int)
    requires
        0 <= h < 24,
        0 <= m < 60,
    ensures
        time_part(two_digits(h).push(':') + two_digits(m)) == Some(
            (TimeOfDay { secs: (3600 * h + 60 * m) as u32, nanos: 0 }),
        ),
        time_part(two_digits(h)) == Some((TimeOfDay { secs: (3600 * h) as u32, nanos: 0 })),
        h < 10 ==> time_part(seq![two_digits(h)[1]]) == Some(
            (TimeOfDay { secs: (3600 * h) as u32, nanos: 0 }),
        ),
{
    let t = TimeOfDay { secs: (3600 * h + 60 * m) as u32, nanos: 0 };
    assert(t.hour() == h && t.minute() == m);
    lemma_time_text_reads_back(t);
    let z = TimeOfDay { secs: (3600 * h) as u32, nanos: 0 };
    assert(z.hour() == h && z.minute() == 0);
    lemma_time_text_reads_back(z);
    lemma_two_digits(h);
    reveal_strlit(":00");
    law_whole_hour_is_padded(two_digits(h));
    assert(two_digits(h) + ":00"@ =~= two_digits(h).push(':') + two_digits(0));
    if h < 10 {
        let one = seq![two_digits(h)[1]];
        law_whole_hour_is_padded(one);
        let s = one + ":00"@;
        assert(s[0] == two_digits(h)[1] && s[1] == ':' && s[2] == '0' && s[3] == '0');
        lemma_trim_start_is_same(s);
        assert(s.skip(1)[0] == ':');
        assert(s.skip(1).skip(1) =~= seq!['0', '0']);
        lemma_trim_start_is_same(seq!['0', '0']);
        assert(clock_reading(s) == Some((h, 0int)));
    }
}

/// A time that one side of a window gives is a whole minute of a day.
pub proof fn law_times_are_within_a_day(s: Seq<char>)
    ensures
        time_part(s) matches Some(t) ==> t.secs < 86400 && t.secs % 60 == 0 && t.nanos == 0,
        s.len() == 0 ==> time_part(s) is None,
        s.len() > 2 && all_digits(s) ==> time_part(s) is None,
{
    if s.len() > 2 && all_digits(s) {
        lemma_trim_start_is_same(s);
        assert(is_digit(s[0]) && is_digit(s[1]) && is_digit(s[2]));
        assert(s.skip(2)[0] == s[2]);
    }
}

/// An hour beyond 23 and a minute beyond 59 are no time.
pub proof fn law_times_beyond_the_day_are_refused(h: int, m: int)
    requires
        0 <= h < 100,
        0 <= m < 100,
        h >= 24 || m >= 60,
    ensures
        time_part(two_digits(h).push(':') + two_digits(m)) is None,
{
    lemma_any_two_digits(h);
    lemma_any_two_digits(m);
    let s = two_digits(h).push(':') + two_digits(m);
    assert(s[0] == two_digits(h)[0] && s[1] == two_digits(h)[1] && s[2] == ':' && s[3]
        == two_digits(m)[0] && s[4] == two_digits(m)[1]);
    lemma_trim_start_is_same(s);
    assert(s.skip(2)[0] == ':');
    assert(s.skip(2).skip(1) =~= two_digits(m));
    lemma_trim_start_is_same(two_digits(m));
    assert(!is_digit(s[2]));
}

proof fn lemma_any_two_digits(n: int)
    requires
        0 <= n < 100,
    ensures
        two_digits(n).len() == 2,
        is_digit(two_digits(n)[0]) && is_digit(two_digits(n)[1]),
        digit_value(two_digits(n)[0]) * 10 + digit_value(two_digits(n)[1]) == n,
{
}

/// White space before and after the dash of a window does not count.
pub proof fn law_space_around_the_dash_does_not_count(
    a: Seq<char>,
    y: Seq<char>,
    z: Seq<char>,
    b: Seq<char>,
)
    requires
        a.len() > 0 && !is_white(a[0]) && !is_white(a.last()),
        b.len() > 0 && !is_white(b[0]) && !is_white(b.last()),
        forall|i: int| 0 <= i < y.len() ==> is_white(#[trigger] y[i]),
        forall|i: int| 0 <= i < z.len() ==> is_white(#[trigger] z[i]),
        forall|i: int| 0 <= i < a.len() ==> a[i] != '-',
        forall|i: int| 0 <= i < a.len() - 1 ==> !(#[trigger] a[i] == ':' && a[i + 1] == ':'),
        forall|i: int| 0 <= i < b.len() - 1 ==> !(#[trigger] b[i] == ':' && b[i + 1] == ':'),
    ensures
        window((a + y).push('-') + (z + b)) == window(a.push('-') + b),
{
    law_window_is_its_two_times(a, b);
    let left = a + y;
    let right = z + b;
    let s = left.push('-') + right;
    assert(s[0] == a[0] && s.last() == b.last());
    lemma_trimmed_is_same(s);
    assert forall|i: int| 0 <= i < left.len() implies left[i] != '-' by {
        if i >= a.len() {
            assert(is_white(y[i - a.len()]));
        }
    }
    assert forall|i: int| 0 <= i < s.len() - 1 implies !(#[trigger] s[i] == ':' && s[i + 1]
        == ':') by {
        if i + 1 < a.len() {
            assert(s[i] == a[i] && s[i + 1] == a[i + 1]);
        } else if i < a.len() {
            if y.len() > 0 {
                assert(s[i + 1] == y[0]);
                assert(is_white(y[0]));
            }
        } else if i < left.len() {
            assert(s[i] == y[i - a.len()]);
            assert(is_white(y[i - a.len()]));
        } else if i > left.len() {
            let k = i - left.len() - 1;
            assert(s[i] == right[k]);
            if k < z.len() {
                assert(is_white(z[k]));
            } else {
                assert(s[i] == b[k - z.len()] && s[i + 1] == b[k - z.len() + 1]);
            }
        }
    }
    lemma_no_pair_stays(s);
    lemma_seek_is(s, '-', 0, left.len() as int);
    assert(s.take(left.len() as int) =~= left);
    assert(s.skip(left.len() as int + 1) =~= right);
    assert(trim_start(left) == left) by {
        assert(left[0] == a[0]);
    }
    lemma_trim_end_at(left, a.len() as int);
    assert(left.take(a.len() as int) =~= a);
    lemma_trim_start_at(right, z.len() as int);
    assert(right.skip(z.len() as int) =~= b);
    assert(trim_end(b) == b);
}

} // verus!
