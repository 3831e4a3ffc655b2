use daftie::clock::{Moment, TimeOfDay};
use daftie::sleep::{canonical, is_in_window, is_sleeping, is_sleeping_at, parse, parse_time_part};

fn clock_at(hour: u32, minute: u32) -> TimeOfDay {
    TimeOfDay { secs: hour * 3600 + minute * 60, nanos: 0 }
}

fn window_of(s: &str) -> Result<(u32, u32), String> {
    parse(s).map(|(a, b)| (a.secs, b.secs))
}

#[test]
fn windows_are_read() {
    assert_eq!(window_of("23:00-09:00"), Ok((23 * 3600, 9 * 3600)));
    assert_eq!(window_of("23-9"), Ok((23 * 3600, 9 * 3600)));
    assert_eq!(window_of(" 7:05 - 8:30 "), Ok((7 * 3600 + 300, 8 * 3600 + 1800)));
    assert_eq!(window_of("00-0"), Ok((0, 0)));
}

#[test]
fn double_colons_are_tolerated() {
    assert_eq!(window_of("23::00-09::30"), window_of("23:00-09:30"));
    assert!(window_of("23:::00-9").is_err());
}

#[test]
fn bad_windows_are_refused() {
    assert_eq!(window_of(""), Err("expected HH:MM-HH:MM or H-H".to_string()));
    assert_eq!(window_of("23:00"), Err("expected HH:MM-HH:MM or H-H".to_string()));
    assert_eq!(
        window_of("24:00-9"),
        Err("bad start time '24:00': not a valid time".to_string())
    );
    assert_eq!(window_of("9-x"), Err("bad end time 'x': not a valid time".to_string()));
    assert_eq!(window_of("9-10-11"), Err("bad end time '10-11': not a valid time".to_string()));
    assert_eq!(window_of("-9"), Err("bad start time '': not a valid time".to_string()));
    assert_eq!(window_of("9:60-10"), Err("bad start time '9:60': not a valid time".to_string()));
}

#[test]
fn times_are_read_as_the_calendar_crate_reads_them() {
    let texts = [
        "9:00", "09:00", "9:5", " 9:05", "9: 05", "9 :05", "9:05 ", "009:00", "9:005", "24:00",
        "23:59", "9", "12", "24", "123", "", ":", "+9:00", "9:+5", "-1:00", "９:00", "\u{a0}9:00",
        "9:\u{3000}5", "9:00:00", "0:0", "a", "1a",
    ];
    for s in texts {
        let whole = chrono::NaiveTime::parse_from_str(s, "%H:%M").ok();
        let padded = if s.chars().all(|c| c.is_ascii_digit()) && (s.len() == 1 || s.len() == 2) {
            chrono::NaiveTime::parse_from_str(&format!("{s}:00"), "%H:%M").ok()
        } else {
            None
        };
        let expected = whole.or(padded).map(|t| t.format("%H:%M").to_string());
        assert_eq!(parse_time_part(s).map(|t| t.hour_minute()), expected, "{s:?}");
    }
}

#[test]
fn whole_hours_are_padded() {
    for h in 0..24u32 {
        let t = parse_time_part(&h.to_string()).unwrap();
        assert_eq!((t.secs, t.nanos), (h * 3600, 0));
    }
    assert!(parse_time_part("24").is_none());
}

#[test]
fn canonical_windows_have_two_digits_each() {
    assert_eq!(canonical("9-7"), Ok("09:00-07:00".to_string()));
    assert_eq!(canonical("23:5-0"), Ok("23:05-00:00".to_string()));
    assert!(canonical("nine").is_err());
}

#[test]
fn canonical_windows_stay_as_they_are() {
    for s in ["9-7", "23:05-00:00", "1::2-3"] {
        let c = canonical(s).unwrap();
        assert_eq!(canonical(&c), Ok(c.clone()));
        assert_eq!(window_of(&c), window_of(s));
    }
}

#[test]
fn a_window_holds_its_start_and_not_its_end() {
    let (a, b) = (clock_at(9, 0), clock_at(17, 30));
    assert!(is_in_window(a, b, clock_at(9, 0)));
    assert!(is_in_window(a, b, clock_at(17, 29)));
    assert!(!is_in_window(a, b, clock_at(17, 30)));
    assert!(!is_in_window(a, b, clock_at(8, 59)));
    assert!(!is_in_window(a, a, clock_at(9, 0)));
}

#[test]
fn a_window_may_span_midnight() {
    let (a, b) = (clock_at(23, 0), clock_at(9, 0));
    assert!(is_in_window(a, b, clock_at(23, 0)));
    assert!(is_in_window(a, b, clock_at(0, 0)));
    assert!(is_in_window(a, b, clock_at(8, 59)));
    assert!(!is_in_window(a, b, clock_at(9, 0)));
    assert!(!is_in_window(a, b, clock_at(22, 59)));
}

#[test]
fn windows_that_meet_share_out_the_day() {
    let (a, b) = (clock_at(6, 0), clock_at(22, 15));
    for h in 0..24 {
        let now = clock_at(h, 15);
        assert!(is_in_window(a, b, now) != is_in_window(b, a, now));
    }
}

#[test]
fn only_a_configured_window_sleeps() {
    assert!(is_sleeping_at(Some("22-6"), clock_at(23, 0)));
    assert!(!is_sleeping_at(Some("22-6"), clock_at(12, 0)));
    assert!(!is_sleeping_at(Some("garbage"), clock_at(23, 0)));
    assert!(!is_sleeping_at(None, clock_at(23, 0)));
    assert!(!is_sleeping(None));
    assert!(!is_sleeping(Some("garbage")));
    assert!((0..3).any(|_| is_sleeping(Some("0-12")) || is_sleeping(Some("12-0"))));
}

#[test]
fn the_clock_shows_a_time_of_day() {
    let m = Moment::now();
    assert!(m.time.secs < 86400);
    let (h, min, sec) = (m.time.secs / 3600, m.time.secs / 60 % 60, m.time.secs % 60);
    assert_eq!(m.clock[..9], format!("{h:02}:{min:02}:{sec:02} "));
    assert_eq!(m.clock.len(), 14);
    assert!(m.clock[9..].starts_with('+') || m.clock[9..].starts_with('-'));
    assert!(m.clock[10..].chars().all(|c| c.is_ascii_digit()));
}
