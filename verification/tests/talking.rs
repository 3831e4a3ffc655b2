use daftie::bot::{
    cmd_label, parse_bool_arg, render_state_summary, render_state_summary_at, split_coords,
    user_label, Cmd, Sender,
};
use daftie::clock::{Moment, TimeOfDay};
use daftie::geo::{Degrees, Point};
use daftie::plan::{
    do_watch, handle_cmd, handle_text, on_location, on_point_read, render_status, Step,
};
use daftie::state::State;

const URL: &str = "https://www.daft.ie/sharing/cork";

fn moment(hour: u32) -> Moment {
    Moment { time: TimeOfDay { secs: hour * 3600, nanos: 0 }, clock: format!("{hour}:00:00 +0000") }
}

fn angle(x: f64) -> Degrees {
    Degrees { bits: x.to_bits(), text: format!("{x}"), fixed: format!("{x:.5}") }
}

fn told(steps: &Vec<Step>) -> Vec<String> {
    steps
        .iter()
        .map(|s| match s {
            Step::Save => "save".to_string(),
            Step::Send { text, html } => format!("{}{text}", if *html { "html:" } else { "text:" }),
            Step::Check { url } => format!("check:{url}"),
            Step::ShowMap => "map".to_string(),
            Step::ReadPoint { lat, lng } => format!("read:{lat}|{lng}"),
        })
        .collect()
}

fn run(s: &mut State, cmd: Cmd) -> Vec<String> {
    told(&handle_cmd(s, 1, &cmd, "HELP", &moment(12), 1000))
}

#[test]
fn commands_have_names() {
    let names = [
        (Cmd::Start, "/start"), (Cmd::Help, "/help"), (Cmd::Watch("x".to_string()), "/watch"),
        (Cmd::Unwatch("x".to_string()), "/unwatch"), (Cmd::Status, "/status"),
        (Cmd::Check, "/check"), (Cmd::StartWatching, "/start_watching"),
        (Cmd::StopWatching, "/stop_watching"), (Cmd::SleepTime("x".to_string()), "/sleep_time"),
        (Cmd::FilterPhone("x".to_string()), "/filter_phone"),
        (Cmd::WorkPoint("x".to_string()), "/work_point"), (Cmd::ShowMap, "/map"),
        (Cmd::ClearHistory, "/clear_history"),
    ];
    for (cmd, name) in names {
        assert_eq!(cmd_label(&cmd), name);
    }
}

#[test]
fn senders_are_named() {
    let named = Sender { username: Some("bob".to_string()), first_name: "Bob".to_string() };
    assert_eq!(user_label(&Some(named)), "@bob");
    let plain = Sender { username: None, first_name: "Bob".to_string() };
    assert_eq!(user_label(&Some(plain)), "Bob");
    assert_eq!(user_label(&None), "?");
}

#[test]
fn words_for_yes_and_no_are_read() {
    for w in ["true", "ON", " 1 ", "Yes", "y"] {
        assert_eq!(parse_bool_arg(w), Some(true), "{w}");
    }
    for w in ["false", "Off", "0", "NO", "n\n"] {
        assert_eq!(parse_bool_arg(w), Some(false), "{w}");
    }
    for w in ["", "maybe", "yess"] {
        assert_eq!(parse_bool_arg(w), None, "{w}");
    }
}

#[test]
fn coordinates_are_split() {
    let pair = |a: &str, b: &str| Some((a.to_string(), b.to_string()));
    assert_eq!(split_coords("51.8985,-8.4756"), pair("51.8985", "-8.4756"));
    assert_eq!(split_coords(" (51.9 , -8) "), pair("51.9", "-8"));
    assert_eq!(split_coords("1\u{a0}2"), pair("1", "2"));
    assert_eq!(split_coords("((a b))"), pair("a", "b"));
    assert_eq!(split_coords("1"), None);
    assert_eq!(split_coords("1,2,3"), None);
    assert_eq!(split_coords(""), None);
}

#[test]
fn the_summary_shows_the_settings() {
    let mut s = State::default();
    assert_eq!(
        render_state_summary_at(&s, 1, None, &moment(12)),
        "Watcher: <b>ACTIVE</b>\n😴 Sleep: <b>off</b>\n🕐 Bot time now: 12:00:00 +0000\n📞 Phone filter: <b>off</b>\n🏢 Work point: <b>off</b>\nWatches: <b>0</b>\nSent ads recorded: <b>0</b>"
    );
    s.add_watch(1, "a".to_string());
    s.mark_seen(9);
    let c = s.chat_mut(1);
    c.active = false;
    c.filter_phone = true;
    c.sleep = Some("11-13".to_string());
    c.work_point = Some(Point { lat: angle(51.5), lng: angle(-8.0) });
    assert_eq!(
        render_state_summary_at(&s, 1, Some("a&b"), &moment(12)),
        "🔗 a&amp;b\nWatcher: <b>STOPPED</b>\n😴 Sleep: <b>11-13</b> (sleeping now, until 13:00)\n🕐 Bot time now: 12:00:00 +0000\n📞 Phone filter: <b>on</b>\n🏢 Work point: <a href=\"https://www.google.com/maps?q=51.5,-8&amp;z=13\">51.50000,-8.00000</a>\nWatches: <b>1</b>\nSent ads recorded: <b>1</b>"
    );
    assert!(render_state_summary_at(&s, 1, None, &moment(13)).contains("😴 Sleep: <b>11-13</b>\n"));
    assert!(render_state_summary(&s, 1, None).starts_with("Watcher: <b>STOPPED</b>\n"));
}

#[test]
fn help_is_given() {
    let mut s = State::default();
    let help = "text:HELP\n\nOr just paste a daft.ie URL.\nI check every 10 minutes and DM new listings.";
    assert_eq!(run(&mut s, Cmd::Start), vec![help]);
    assert_eq!(run(&mut s, Cmd::Help), vec![help]);
    assert!(s.chats.is_empty());
}

#[test]
fn an_address_is_watched_saved_told_and_checked() {
    let mut s = State::default();
    let steps = run(&mut s, Cmd::Watch(format!("  {URL} ")));
    assert_eq!(steps.len(), 3);
    assert_eq!(steps[0], "save");
    assert!(steps[1].starts_with("html:Watching is started\n\n🔗 https://www.daft.ie/sharing/cork\n"));
    assert!(steps[1].contains("Watches: <b>1</b>"));
    assert_eq!(steps[2], format!("check:{URL}"));
    assert_eq!(s.chat_get(1).unwrap().watches[0].last_check, 1000);
}

#[test]
fn watching_again_changes_nothing() {
    let mut s = State::default();
    do_watch(&mut s, 1, URL, &moment(12), 5);
    let steps = told(&do_watch(&mut s, 1, URL, &moment(12), 6));
    assert_eq!(steps.len(), 2);
    assert!(steps[0].starts_with("html:Watching is started"));
    assert_eq!(steps[1], format!("check:{URL}"));
    assert_eq!(s.chat_get(1).unwrap().watches.len(), 1);
    assert_eq!(s.chat_get(1).unwrap().watches[0].last_check, 5);
}

#[test]
fn the_first_check_waits_for_the_morning() {
    let mut s = State::default();
    s.chat_mut(1).sleep = Some("11-13".to_string());
    let steps = run(&mut s, Cmd::Watch(URL.to_string()));
    assert_eq!(steps.len(), 2);
    assert_eq!(steps[0], "save");
    assert!(steps[1].contains("(sleeping now, until 13:00)"));
}

#[test]
fn bad_addresses_are_not_watched() {
    let mut s = State::default();
    assert_eq!(run(&mut s, Cmd::Watch("  ".to_string())), vec!["text:Usage: /watch <daft.ie URL>"]);
    assert_eq!(run(&mut s, Cmd::Watch("x".to_string())), vec!["text:Bad URL: invalid URL"]);
    assert_eq!(
        run(&mut s, Cmd::Watch("https://daft.ie".to_string())),
        vec!["text:Bad URL: URL path is empty (expected /<section>/<area>)"]
    );
    assert_eq!(
        run(&mut s, Cmd::Watch("https://daft.ie/sharing".to_string())),
        vec!["text:Bad URL: URL path missing area slug"]
    );
    assert!(s.chats.is_empty());
}

#[test]
fn watches_are_stopped() {
    let mut s = State::default();
    s.add_watch(1, URL.to_string());
    assert_eq!(
        run(&mut s, Cmd::Unwatch("2".to_string())),
        vec!["text:Not found. Use /status to see your watches."]
    );
    assert_eq!(
        run(&mut s, Cmd::Unwatch(" 1 ".to_string())),
        vec!["save".to_string(), format!("text:Stopped watching:\n{URL}")]
    );
    assert!(s.chat_get(1).unwrap().watches.is_empty());
}

#[test]
fn the_status_lists_the_watches() {
    let mut s = State::default();
    assert_eq!(run(&mut s, Cmd::Status), vec!["html:No watches yet. Send me a daft.ie URL."]);
    s.add_watch(1, "a<".to_string());
    s.add_watch(1, "b".to_string());
    let text = render_status(&s, 1, &moment(12));
    assert!(text.ends_with("Sent ads recorded: <b>0</b>\n\nURLs:\n1. a&lt;\n2. b\n"), "{text}");
    assert_eq!(run(&mut s, Cmd::Status), vec![format!("html:{text}")]);
}

#[test]
fn a_check_goes_over_all_watches() {
    let mut s = State::default();
    assert_eq!(run(&mut s, Cmd::Check), vec!["text:Checking now…", "text:Done."]);
    s.add_watch(1, "a".to_string());
    s.add_watch(1, "b".to_string());
    assert_eq!(
        run(&mut s, Cmd::Check),
        vec!["text:Checking now…", "check:a", "check:b", "text:Done."]
    );
    s.chat_mut(1).sleep = Some("12-13".to_string());
    assert_eq!(
        run(&mut s, Cmd::Check),
        vec!["text:Sleeping now. Use /sleep_time off to disable."]
    );
}

#[test]
fn periodic_checks_are_switched() {
    let mut s = State::default();
    s.add_watch(1, "a".to_string());
    let first = |steps: Vec<String>| {
        assert_eq!(steps[0], "save");
        steps[1].split('\n').next().unwrap().to_string()
    };
    assert_eq!(first(run(&mut s, Cmd::StartWatching)), "html:Already watching");
    assert_eq!(first(run(&mut s, Cmd::StopWatching)), "html:Watching stopped");
    assert!(s.due_watches(moment(12).time).watches.is_empty());
    assert_eq!(first(run(&mut s, Cmd::StopWatching)), "html:Already stopped");
    assert_eq!(first(run(&mut s, Cmd::StartWatching)), "html:Watching resumed");
    assert_eq!(s.due_watches(moment(12).time).watches.len(), 1);
}

#[test]
fn the_sleep_window_is_set_and_cleared() {
    let mut s = State::default();
    let steps = run(&mut s, Cmd::SleepTime(" 23-9 ".to_string()));
    assert_eq!(steps[0], "save");
    assert!(steps[1].starts_with("html:Sleep set to 23:00-09:00\n\nWatcher"));
    assert_eq!(s.chat_get(1).unwrap().sleep.as_deref(), Some("23:00-09:00"));
    let bad = run(&mut s, Cmd::SleepTime("soon".to_string()));
    assert_eq!(
        bad,
        vec!["text:Bad format: expected HH:MM-HH:MM or H-H\nExamples:\n  /sleep_time 23:00-09:00\n  /sleep_time 21:00-11:00\n  /sleep_time off"]
    );
    let usage = run(&mut s, Cmd::SleepTime(" ".to_string()));
    assert_eq!(usage.len(), 1);
    assert!(usage[0].starts_with("html:Current settings\n\nWatcher"));
    assert!(usage[0].ends_with("\n\nUsage:\n  /sleep_time 23:00-09:00\n  /sleep_time off"));
    assert!(s.chat_get(1).unwrap().sleep.is_some());
    for w in ["OFF", "none", "-", "0", "Clear"] {
        s.chat_mut(1).sleep = Some("1-2".to_string());
        let steps = run(&mut s, Cmd::SleepTime(w.to_string()));
        assert!(steps[1].starts_with("html:Sleep cleared\n\n"));
        assert!(s.chat_get(1).unwrap().sleep.is_none());
    }
}

#[test]
fn the_phone_filter_is_switched() {
    let mut s = State::default();
    let on = run(&mut s, Cmd::FilterPhone("YES".to_string()));
    assert!(on[1].starts_with("html:Phone filter ON — ads with no phone will be skipped\n\n"));
    assert!(s.chat_get(1).unwrap().filter_phone);
    let off = run(&mut s, Cmd::FilterPhone("0".to_string()));
    assert!(off[1].starts_with("html:Phone filter OFF — every ad will be sent\n\n"));
    assert!(!s.chat_get(1).unwrap().filter_phone);
    assert_eq!(
        run(&mut s, Cmd::FilterPhone("hm".to_string())),
        vec!["text:Bad value. Use /filter_phone true or /filter_phone false."]
    );
    let usage = run(&mut s, Cmd::FilterPhone("".to_string()));
    assert!(usage[0].ends_with("\n\nUsage:\n  /filter_phone true\n  /filter_phone false"));
}

const TIP: &str = "\n\nTip: right-click your office on Google Maps, click the lat,lng to copy, paste here:\n  /work_point 51.8985,-8.4756";

#[test]
fn the_work_point_is_asked_for_and_cleared() {
    let mut s = State::default();
    assert_eq!(run(&mut s, Cmd::WorkPoint(" (51.9, -8.5) ".to_string())), vec!["read:51.9|-8.5"]);
    assert_eq!(
        run(&mut s, Cmd::WorkPoint("51.9".to_string())),
        vec![format!("text:Bad coordinates: expected '<lat>,<lng>'{TIP}")]
    );
    let usage = run(&mut s, Cmd::WorkPoint("".to_string()));
    assert!(usage[0].ends_with("\n\nUsage:\n  /work_point 51.8985,-8.4756\n  /work_point off"));
    s.chat_mut(1).work_point = Some(Point { lat: angle(1.0), lng: angle(2.0) });
    let steps = run(&mut s, Cmd::WorkPoint("off".to_string()));
    assert!(steps[1].starts_with("html:Work point cleared\n\n"));
    assert!(s.chat_get(1).unwrap().work_point.is_none());
}

#[test]
fn the_work_point_is_set_from_numbers() {
    let mut s = State::default();
    let now = moment(12);
    let steps = told(&on_point_read(
        &mut s, 1, "51.9", Some(angle(51.9)), "-8.5", Some(angle(-8.5)), true, &now,
    ));
    assert_eq!(steps[0], "save");
    assert!(steps[1].starts_with("html:Work point set to 51.90000,-8.50000\n\nWatcher"));
    assert_eq!(s.chat_get(1).unwrap().work_point.as_ref().unwrap().lat.text, "51.9");
    let warned = told(&on_point_read(
        &mut s, 1, "1", Some(angle(1.0)), "2", Some(angle(2.0)), false, &now,
    ));
    assert!(warned[1].starts_with("html:Work point set to 1.00000,2.00000\n\n⚠ GOOGLE_MAPS_API_KEY is empty in .env — saved the point, but commute times won't be calculated.\n\nWatcher"));
}

#[test]
fn bad_coordinates_are_refused() {
    let mut s = State::default();
    let now = moment(12);
    let lat = told(&on_point_read(&mut s, 1, "a", None, "b", None, true, &now));
    assert_eq!(lat, vec![format!("text:Bad coordinates: can't parse latitude 'a'{TIP}")]);
    let lng = told(&on_point_read(&mut s, 1, "1", Some(angle(1.0)), "b", None, true, &now));
    assert_eq!(lng, vec![format!("text:Bad coordinates: can't parse longitude 'b'{TIP}")]);
    let far = told(&on_point_read(
        &mut s, 1, "91.0", Some(angle(91.0)), "2", Some(angle(2.0)), true, &now,
    ));
    assert_eq!(far, vec![format!("text:Bad coordinates: lat/lng out of range: 91,2{TIP}")]);
    assert!(s.chats.is_empty());
}

#[test]
fn a_shared_location_is_the_work_point() {
    let mut s = State::default();
    let place = Point { lat: angle(53.1234567), lng: angle(-6.0) };
    let steps = told(&on_location(&mut s, 1, place, true, &moment(12)));
    assert_eq!(steps[0], "save");
    assert!(steps[1].starts_with(
        "html:Work point set from your shared location: 53.12346,-6.00000\n\nWatcher"
    ));
    assert!(s.chat_get(1).unwrap().work_point.is_some());
}

#[test]
fn the_map_is_shown_on_request() {
    assert_eq!(run(&mut State::default(), Cmd::ShowMap), vec!["map"]);
}

#[test]
fn the_history_is_cleared() {
    let mut s = State::default();
    s.mark_seen(1);
    s.mark_seen(2);
    s.add_watch(1, "a".to_string());
    assert_eq!(
        run(&mut s, Cmd::ClearHistory),
        vec!["save", "text:Cleared 2 ad ID(s) from state. The next check will re-send every current listing."]
    );
    assert_eq!(s.seen_count(), 0);
    assert_eq!(s.chat_get(1).unwrap().watches.len(), 1);
}

#[test]
fn texts_that_are_addresses_are_watched() {
    let mut s = State::default();
    let hint = "text:Send a daft.ie URL, share a Location (sets work point), or use /help.";
    for t in ["hello", "", "daft.ie/sharing/cork", "https://example.com/a/b", "ftp://daft.ie/a/b"] {
        assert_eq!(told(&handle_text(&mut s, 1, t, &moment(12), 3)), vec![hint], "{t}");
    }
    assert!(s.chats.is_empty());
    let steps = told(&handle_text(&mut s, 1, " http://daft.ie/sharing/cork\n", &moment(12), 3));
    assert_eq!(steps.len(), 3);
    assert_eq!(s.chat_get(1).unwrap().watches[0].url, "http://daft.ie/sharing/cork");
}

#[test]
fn commands_leave_other_chats_alone() {
    let mut s = State::default();
    s.add_watch(2, URL.to_string());
    s.chat_mut(2).sleep = Some("1-2".to_string());
    for cmd in [
        Cmd::Watch(URL.to_string()), Cmd::StopWatching, Cmd::SleepTime("3-4".to_string()),
        Cmd::FilterPhone("on".to_string()), Cmd::WorkPoint("off".to_string()),
        Cmd::Unwatch("1".to_string()), Cmd::ClearHistory,
    ] {
        assert!(!run(&mut s, cmd).is_empty());
    }
    let other = s.chat_get(2).unwrap();
    assert_eq!(other.watches.len(), 1);
    assert!(other.active && !other.filter_phone);
    assert_eq!(other.sleep.as_deref(), Some("1-2"));
}

#[test]
fn listed_numbers_stop_their_watches() {
    let mut s = State::default();
    for u in ["a", "b", "c"] {
        s.add_watch(1, u.to_string());
    }
    assert!(render_status(&s, 1, &moment(12)).contains("\n2. b\n"));
    let steps = run(&mut s, Cmd::Unwatch("2".to_string()));
    assert_eq!(steps, vec!["save", "text:Stopped watching:\nb"]);
    let left: Vec<&str> =
        s.chat_get(1).unwrap().watches.iter().map(|w| w.url.as_str()).collect();
    assert_eq!(left, vec!["a", "c"]);
}

#[test]
fn stored_sleep_windows_stay_canonical() {
    let mut s = State::default();
    for cmd in [
        Cmd::SleepTime("7-9".to_string()), Cmd::StopWatching, Cmd::SleepTime("x".to_string()),
        Cmd::SleepTime("1::5 - 22".to_string()), Cmd::Watch(URL.to_string()), Cmd::ClearHistory,
        Cmd::SleepTime("".to_string()), Cmd::Unwatch("1".to_string()),
    ] {
        run(&mut s, cmd.clone());
        let w = s.chat_get(1).unwrap().sleep.clone().unwrap();
        assert_eq!(daftie::sleep::canonical(&w), Ok(w.clone()));
    }
    assert_eq!(s.chat_get(1).unwrap().sleep.as_deref(), Some("01:05-22:00"));
}

#[test]
fn keys_stay_distinct_numbers() {
    let mut s = State::default();
    for cmd in [
        Cmd::Watch(URL.to_string()), Cmd::StopWatching, Cmd::FilterPhone("on".to_string()),
        Cmd::Unwatch("1".to_string()),
    ] {
        run(&mut s, cmd);
    }
    handle_text(&mut s, -5, URL, &moment(12), 3);
    let place = Point { lat: angle(1.0), lng: angle(2.0) };
    on_location(&mut s, -5, place, true, &moment(12));
    let keys: Vec<&str> = s.chats.iter().map(|e| e.id.as_str()).collect();
    assert_eq!(keys, vec!["1", "-5"]);
}
