//! What the bot does on a message: how the state changes at once, and the steps
//! to be taken after that, in order.

use vstd::prelude::*;

use crate::bot::{
    bool_word, coord_parts, is_off, off_word, parse_bool_arg, render_state_summary_at,
    split_coords, summary, Cmd,
};
use crate::clock::{Moment, TimeOfDay};
use crate::daft::{url_fault, DaftQuery};
use crate::geo::{Degrees, Point};
use crate::html::{escaped, html_escape};
use crate::number::{decimal_text, integer_text, push_decimal};
use crate::sleep::{
    asleep, canonical, in_window, law_canonical_is_stable, str_view, window, window_text,
};
use crate::state::{
    chat_index, due_of, keys_are_numbers, law_check_is_noted, law_check_keeps_addresses,
    law_due_watches, law_keys_stay_numbers, law_number_tells_the_watch, law_put_chat_is_found,
    law_put_chat_keeps_keys_distinct, law_put_chat_keeps_others, law_put_same_chat,
    law_unknown_key_stops_nothing, law_watch_is_added_at_the_end, law_watch_is_added_once,
    law_watched_is_having_a_watch, lemma_chat_index, lemma_watch_index, ChatState, ChatView, State, StateView, WatchView,
};
use crate::text::{
    begins, contains, copy_of, has, law_has_is_being_made_of, law_trim_is_idempotent,
    lemma_has_either, lemma_has_itself, lemma_has_left, lemma_has_right, lowercase, stands_at,
    starts_with, trim, trimmed,
};

verus! {

/// A step to be taken.
#[derive(Debug)]
pub enum Step {
    /// Write the state to disk.
    Save,
    /// Send a text to the chat, as HTML or as it is.
    Send { text: String, html: bool },
    /// Check a watched address of the chat and send what is new.
    Check { url: String },
    /// Send a map of the listings of all watches.
    ShowMap,
    /// Read two numbers, the coordinates of the work point.
    ReadPoint { lat: String, lng: String },
}

/// What a step is.
#[verifier::ext_equal]
pub enum StepView {
    Save,
    Send { text: Seq<char>, html: bool },
    Check { url: Seq<char> },
    ShowMap,
    ReadPoint { lat: Seq<char>, lng: Seq<char> },
}

impl View for Step {
    type V = StepView;

    open spec fn view(&self) -> StepView {
        match self {
            Step::Save => StepView::Save,
            Step::Send { text, html } => StepView::Send { text: text@, html: *html },
            Step::Check { url } => StepView::Check { url: url@ },
            Step::ShowMap => StepView::ShowMap,
            Step::ReadPoint { lat, lng } => StepView::ReadPoint { lat: lat@, lng: lng@ },
        }
    }
}

/// What some steps are.
pub open spec fn step_views(steps: Seq<Step>) -> Seq<StepView> {
    steps.map_values(|s: Step| s@)
}

/// The state after a message, and the steps to be taken.
pub struct Plan {
    pub state: StateView,
    pub steps: Seq<StepView>,
}

/// A text sent as it is.
pub open spec fn plain(text: Seq<char>) -> StepView {
    StepView::Send { text, html: false }
}

/// A text sent as HTML.
pub open spec fn rich(text: Seq<char>) -> StepView {
    StepView::Send { text, html: true }
}

/// A header and the summary of the chat's settings.
pub open spec fn headed(
    header: Seq<char>,
    s: StateView,
    chat_id: i64,
    url: Option<Seq<char>>,
    now: Moment,
) -> Seq<char> {
    header + "\n\n"@ + summary(s, chat_id, url, now)
}

/// The plan of changing a chat and telling so.
pub open spec fn change_plan(
    s: StateView,
    chat_id: i64,
    chat: ChatView,
    header: Seq<char>,
    now: Moment,
) -> Plan {
    let after = s.with_chat(chat_id, chat);
    Plan {
        state: after,
        steps: seq![StepView::Save, rich(headed(header, after, chat_id, None, now))],
    }
}

/// The plan of showing the settings and how a command is used.
pub open spec fn usage_plan(s: StateView, chat_id: i64, usage: Seq<char>, now: Moment) -> Plan {
    Plan {
        state: s,
        steps: seq![rich(headed("Current settings"@, s, chat_id, None, now) + usage)],
    }
}

/// A text to be sent as it is.
fn send_plain(text: String) -> (r: Step)
    ensures
        r@ == plain(text@),
{
    Step::Send { text, html: false }
}

/// A text to be sent as HTML.
fn send_rich(text: String) -> (r: Step)
    ensures
        r@ == rich(text@),
{
    Step::Send { text, html: true }
}

/// One step.
fn just(step: Step) -> (r: Vec<Step>)
    ensures
        step_views(r@) == seq![step@],
{
    let mut steps: Vec<Step> = Vec::new();
    steps.push(step);
    assert(step_views(steps@) =~= seq![step@]);
    steps
}

/// Writing the state, and then a step.
fn save_and(step: Step) -> (r: Vec<Step>)
    ensures
        step_views(r@) == seq![StepView::Save, step@],
{
    let mut steps: Vec<Step> = Vec::new();
    steps.push(Step::Save);
    steps.push(step);
    assert(step_views(steps@) =~= seq![StepView::Save, step@]);
    steps
}

/// A header and the summary of the chat's settings.
fn with_header(
    header: &str,
    state: &State,
    chat_id: i64,
    url: Option<&str>,
    now: &Moment,
) -> (r: String)
    ensures
        r@ == headed(header@, state@, chat_id, str_view(url), *now),
{
    let mut text = copy_of(header);
    text.append("\n\n");
    text.append(render_state_summary_at(state, chat_id, url, now).as_str());
    text
}

/// The steps that tell of a change.
fn tell_change(header: &str, state: &State, chat_id: i64, now: &Moment) -> (r: Vec<Step>)
    ensures
        step_views(r@) == seq![
            StepView::Save,
            rich(headed(header@, state@, chat_id, None, *now)),
        ],
{
    save_and(send_rich(with_header(header, state, chat_id, None, now)))
}

/// The steps that show the settings and how a command is used.
fn tell_usage(usage: &str, state: &State, chat_id: i64, now: &Moment) -> (r: Vec<Step>)
    ensures
        step_views(r@) == usage_plan(state@, chat_id, usage@, *now).steps,
{
    let mut text = with_header("Current settings", state, chat_id, None, now);
    text.append(usage);
    just(send_rich(text))
}

/// The plan of watching an address: an address that stands for no search is
/// refused; the first batch waits where the chat is asleep.
pub open spec fn watch_plan(
    s: StateView,
    chat_id: i64,
    url: Seq<char>,
    now: Moment,
    unix: i64,
) -> Plan {
    match url_fault(url) {
        Some(e) => Plan { state: s, steps: seq![plain("Bad URL: "@ + e)] },
        None => {
            let chat = s.chat_or_fresh(chat_id);
            let fresh = !chat.watches_url(url);
            let after = if fresh {
                s.with_chat(chat_id, chat.with_watch(url).with_check(url, unix))
            } else {
                s
            };
            let saved = if fresh {
                seq![StepView::Save]
            } else {
                Seq::empty()
            };
            let told = saved.push(
                rich(headed("Watching is started"@, after, chat_id, Some(url), now)),
            );
            Plan {
                state: after,
                steps: if asleep(chat.sleep, now.time) {
                    told
                } else {
                    told.push(StepView::Check { url })
                },
            }
        },
    }
}

/// Watches an address in a chat. `unix` is the time in seconds since 1970.
pub fn do_watch(state: &mut State, chat_id: i64, url: &str, now: &Moment, unix: i64) -> (r: Vec<
    Step,
>)
    ensures
        ({
            let plan = watch_plan(old(state)@, chat_id, url@, *now, unix);
            final(state)@ == plan.state && step_views(r@) == plan.steps
        }),
{
    match DaftQuery::parse_url(url) {
        Err(e) => {
            let mut text = copy_of("Bad URL: ");
            text.append(e.message());
            return just(send_plain(text));
        },
        Ok(_) => {},
    }
    let mut steps: Vec<Step> = Vec::new();
    let ghost before = state@;
    let ghost chat = before.chat_or_fresh(chat_id);
    let c = state.chat_mut(chat_id);
    let added = c.watch(copy_of(url));
    if added {
        c.note_check(url, unix);
        steps.push(Step::Save);
    }
    proof {
        if !added {
            lemma_watching_chat_is_there(before, chat_id, url@);
            law_put_same_chat(before, chat_id);
        }
    }
    let text = with_header("Watching is started", state, chat_id, Some(url), now);
    let ghost told = text@;
    steps.push(send_rich(text));
    let sleeping = match state.chat_get(chat_id) {
        Some(c) => c.is_asleep(now.time),
        None => false,
    };
    proof {
        if added {
            law_put_chat_is_found(
                before,
                chat_id,
                chat.with_watch(url@).with_check(url@, unix),
            );
        }
        assert(sleeping == asleep(chat.sleep, now.time));
    }
    if !sleeping {
        steps.push(Step::Check { url: copy_of(url) });
    }
    assert(step_views(steps@) =~= watch_plan(before, chat_id, url@, *now, unix).steps);
    steps
}

proof fn lemma_watching_chat_is_there(s: StateView, chat_id: i64, url: Seq<char>)
    requires
        s.chat_or_fresh(chat_id).watches_url(url),
    ensures
        s.chat(chat_id) is Some,
{
}

/// The plan of stopping a watch.
pub open spec fn unwatch_plan(s: StateView, chat_id: i64, key: Seq<char>) -> Plan {
    let chat = s.chat_or_fresh(chat_id);
    Plan {
        state: s.with_chat(chat_id, chat.without_told(key)),
        steps: if chat.told_by(key) < chat.watches.len() {
            seq![
                StepView::Save,
                plain("Stopped watching:\n"@ + chat.watches[chat.told_by(key)].url),
            ]
        } else {
            seq![plain("Not found. Use /status to see your watches."@)]
        },
    }
}

/// Stops a watch of a chat.
fn do_unwatch(state: &mut State, chat_id: i64, key: &str) -> (r: Vec<Step>)
    ensures
        final(state)@ == unwatch_plan(old(state)@, chat_id, key@).state,
        step_views(r@) == unwatch_plan(old(state)@, chat_id, key@).steps,
{
    match state.remove_watch(chat_id, key) {
        Some(url) => {
            let mut text = copy_of("Stopped watching:\n");
            text.append(url.as_str());
            save_and(send_plain(text))
        },
        None => just(send_plain(copy_of("Not found. Use /status to see your watches."))),
    }
}

/// The numbered list of the watched addresses.
pub open spec fn url_list(watches: Seq<WatchView>) -> Seq<char>
    decreases watches.len(),
{
    if watches.len() == 0 {
        Seq::empty()
    } else {
        url_list(watches.drop_last()) + decimal_text(watches.len() as int) + ". "@ + escaped(
            watches.last().url,
        ) + "\n"@
    }
}

/// The text of the status: the settings and the watched addresses.
pub open spec fn status_text(s: StateView, chat_id: i64, now: Moment) -> Seq<char> {
    let chat = s.chat_or_fresh(chat_id);
    if chat.watches.len() > 0 {
        summary(s, chat_id, None, now) + "\n\nURLs:\n"@ + url_list(chat.watches)
    } else {
        "No watches yet. Send me a daft.ie URL."@
    }
}

/// Appends the numbered list of the watched addresses.
fn push_url_list(out: &mut String, c: &ChatState)
    ensures
        final(out)@ == old(out)@ + url_list(c@.watches),
{
    assert(out@ =~= old(out)@ + url_list(c@.watches.take(0)));
    for i in 0..c.watches.len()
        invariant
            out@ == old(out)@ + url_list(c@.watches.take(i as int)),
    {
        proof {
            assert(c@.watches.take(i + 1).drop_last() =~= c@.watches.take(i as int));
            assert(c@.watches.take(i + 1).last() == c.watches@[i as int]@);
        }
        push_decimal(out, i as u64 + 1);
        out.append(". ");
        out.append(html_escape(c.watches[i].url.as_str()).as_str());
        out.append("\n");
        assert(out@ =~= old(out)@ + url_list(c@.watches.take(i + 1)));
    }
    assert(c@.watches.take(c.watches@.len() as int) =~= c@.watches);
}

/// The text of the status: the settings and the watched addresses.
pub fn render_status(state: &State, chat_id: i64, now: &Moment) -> (r: String)
    ensures
        r@ == status_text(state@, chat_id, *now),
{
    match state.chat_get(chat_id) {
        Some(c) => {
            if c.watches.len() > 0 {
                let mut out = render_state_summary_at(state, chat_id, None, now);
                out.append("\n\nURLs:\n");
                push_url_list(&mut out, c);
                out
            } else {
                copy_of("No watches yet. Send me a daft.ie URL.")
            }
        },
        None => copy_of("No watches yet. Send me a daft.ie URL."),
    }
}

/// The steps that check watches, one after another.
pub open spec fn check_steps(watches: Seq<WatchView>) -> Seq<StepView> {
    watches.map_values(|w: WatchView| StepView::Check { url: w.url })
}

/// The plan of checking all watches now; a chat that is asleep is left alone.
pub open spec fn check_plan(s: StateView, chat_id: i64, now: Moment) -> Plan {
    let chat = s.chat_or_fresh(chat_id);
    Plan {
        state: s,
        steps: if asleep(chat.sleep, now.time) {
            seq![plain("Sleeping now. Use /sleep_time off to disable."@)]
        } else {
            seq![plain("Checking now…"@)] + check_steps(chat.watches) + seq![plain("Done."@)]
        },
    }
}

/// The steps that check all watches of a chat.
fn do_check(state: &State, chat_id: i64, now: &Moment) -> (r: Vec<Step>)
    ensures
        step_views(r@) == check_plan(state@, chat_id, *now).steps,
{
    let mut steps: Vec<Step> = Vec::new();
    let ghost first = seq![plain("Checking now…"@)];
    match state.chat_get(chat_id) {
        Some(c) => {
            if c.is_asleep(now.time) {
                return just(send_plain(copy_of("Sleeping now. Use /sleep_time off to disable.")));
            }
            steps.push(send_plain(copy_of("Checking now…")));
            assert(step_views(steps@) =~= first + check_steps(c@.watches).take(0));
            for i in 0..c.watches.len()
                invariant
                    step_views(steps@) == first + check_steps(c@.watches).take(i as int),
            {
                let ghost before = steps@;
                assert(c@.watches[i as int] == c.watches@[i as int]@);
                steps.push(Step::Check { url: c.watches[i].url.clone() });
                assert(step_views(steps@) =~= step_views(before).push(
                    check_steps(c@.watches)[i as int],
                ));
                assert(step_views(steps@) =~= first + check_steps(c@.watches).take(i + 1));
            }
            assert(check_steps(c@.watches).take(c.watches@.len() as int) =~= check_steps(
                c@.watches,
            ));
        },
        None => {
            steps.push(send_plain(copy_of("Checking now…")));
            assert(step_views(steps@) =~= first + check_steps(Seq::empty()));
        },
    }
    let ghost before = steps@;
    steps.push(send_plain(copy_of("Done.")));
    assert(step_views(steps@) =~= step_views(before) + seq![plain("Done."@)]);
    steps
}

/// The plan of switching the periodic checks of a chat on or off.
pub open spec fn active_plan(s: StateView, chat_id: i64, on: bool, now: Moment) -> Plan {
    let chat = s.chat_or_fresh(chat_id);
    change_plan(
        s,
        chat_id,
        ChatView { active: on, ..chat },
        if on {
            if chat.active {
                "Already watching"@
            } else {
                "Watching resumed"@
            }
        } else {
            if chat.active {
                "Watching stopped"@
            } else {
                "Already stopped"@
            }
        },
        now,
    )
}

/// Switches the periodic checks of a chat on or off.
fn set_active(state: &mut State, chat_id: i64, on: bool, now: &Moment) -> (r: Vec<Step>)
    ensures
        final(state)@ == active_plan(old(state)@, chat_id, on, *now).state,
        step_views(r@) == active_plan(old(state)@, chat_id, on, *now).steps,
{
    let c = state.chat_mut(chat_id);
    let was_active = c.active;
    c.active = on;
    let header = if on {
        if was_active {
            "Already watching"
        } else {
            "Watching resumed"
        }
    } else {
        if was_active {
            "Watching stopped"
        } else {
            "Already stopped"
        }
    };
    tell_change(header, state, chat_id, now)
}

/// The plan of setting the sleep window.
pub open spec fn sleep_plan(s: StateView, chat_id: i64, arg: Seq<char>, now: Moment) -> Plan {
    let chat = s.chat_or_fresh(chat_id);
    if arg.len() == 0 {
        usage_plan(
            s,
            chat_id,
            "\n\nUsage:\n  /sleep_time 23:00-09:00\n  /sleep_time off"@,
            now,
        )
    } else if off_word(lowercase(arg)) {
        change_plan(s, chat_id, ChatView { sleep: None, ..chat }, "Sleep cleared"@, now)
    } else {
        match window(arg) {
            Ok((start, end)) => change_plan(
                s,
                chat_id,
                ChatView { sleep: Some(window_text(start, end)), ..chat },
                "Sleep set to "@ + window_text(start, end),
                now,
            ),
            Err(e) => Plan {
                state: s,
                steps: seq![
                    plain(
                        "Bad format: "@ + e
                            + "\nExamples:\n  /sleep_time 23:00-09:00\n  /sleep_time 21:00-11:00\n  /sleep_time off"@,
                    ),
                ],
            },
        }
    }
}

/// Sets the sleep window of a chat.
fn set_sleep(state: &mut State, chat_id: i64, arg: &str, now: &Moment) -> (r: Vec<Step>)
    ensures
        final(state)@ == sleep_plan(old(state)@, chat_id, arg@, *now).state,
        step_views(r@) == sleep_plan(old(state)@, chat_id, arg@, *now).steps,
{
    if arg.is_empty() {
        return tell_usage(
            "\n\nUsage:\n  /sleep_time 23:00-09:00\n  /sleep_time off",
            state,
            chat_id,
            now,
        );
    }
    if is_off(arg) {
        let c = state.chat_mut(chat_id);
        c.sleep = None;
        return tell_change("Sleep cleared", state, chat_id, now);
    }
    match canonical(arg) {
        Ok(canon) => {
            let mut header = copy_of("Sleep set to ");
            header.append(canon.as_str());
            let c = state.chat_mut(chat_id);
            c.sleep = Some(canon);
            tell_change(header.as_str(), state, chat_id, now)
        },
        Err(e) => {
            let mut text = copy_of("Bad format: ");
            text.append(e.as_str());
            text.append(
                "\nExamples:\n  /sleep_time 23:00-09:00\n  /sleep_time 21:00-11:00\n  /sleep_time off",
            );
            just(send_plain(text))
        },
    }
}

/// The plan of switching the phone filter.
pub open spec fn filter_plan(s: StateView, chat_id: i64, arg: Seq<char>, now: Moment) -> Plan {
    let chat = s.chat_or_fresh(chat_id);
    if arg.len() == 0 {
        usage_plan(
            s,
            chat_id,
            "\n\nUsage:\n  /filter_phone true\n  /filter_phone false"@,
            now,
        )
    } else {
        match bool_word(lowercase(trimmed(arg))) {
            Some(on) => change_plan(
                s,
                chat_id,
                ChatView { filter_phone: on, ..chat },
                if on {
                    "Phone filter ON — ads with no phone will be skipped"@
                } else {
                    "Phone filter OFF — every ad will be sent"@
                },
                now,
            ),
            None => Plan {
                state: s,
                steps: seq![plain("Bad value. Use /filter_phone true or /filter_phone false."@)],
            },
        }
    }
}

/// Switches the phone filter of a chat.
fn set_filter(state: &mut State, chat_id: i64, arg: &str, now: &Moment) -> (r: Vec<Step>)
    ensures
        final(state)@ == filter_plan(old(state)@, chat_id, arg@, *now).state,
        step_views(r@) == filter_plan(old(state)@, chat_id, arg@, *now).steps,
{
    if arg.is_empty() {
        return tell_usage(
            "\n\nUsage:\n  /filter_phone true\n  /filter_phone false",
            state,
            chat_id,
            now,
        );
    }
    match parse_bool_arg(arg) {
        Some(on) => {
            let c = state.chat_mut(chat_id);
            c.filter_phone = on;
            let header = if on {
                "Phone filter ON — ads with no phone will be skipped"
            } else {
                "Phone filter OFF — every ad will be sent"
            };
            tell_change(header, state, chat_id, now)
        },
        None => just(
            send_plain(copy_of("Bad value. Use /filter_phone true or /filter_phone false.")),
        ),
    }
}

/// What is said of coordinates that cannot be used.
pub open spec fn bad_coords_text(e: Seq<char>) -> Seq<char> {
    "Bad coordinates: "@ + e
        + "\n\nTip: right-click your office on Google Maps, click the lat,lng to copy, paste here:\n  /work_point 51.8985,-8.4756"@
}

/// What is said of coordinates that cannot be used.
fn bad_coords(e: &str) -> (r: Vec<Step>)
    ensures
        step_views(r@) == seq![plain(bad_coords_text(e@))],
{
    let mut text = copy_of("Bad coordinates: ");
    text.append(e);
    text.append(
        "\n\nTip: right-click your office on Google Maps, click the lat,lng to copy, paste here:\n  /work_point 51.8985,-8.4756",
    );
    just(send_plain(text))
}

/// The plan of setting the work point from an argument: where it has two parts,
/// they are to be read as numbers.
pub open spec fn point_plan(s: StateView, chat_id: i64, arg: Seq<char>, now: Moment) -> Plan {
    let chat = s.chat_or_fresh(chat_id);
    if arg.len() == 0 {
        usage_plan(
            s,
            chat_id,
            "\n\nUsage:\n  /work_point 51.8985,-8.4756\n  /work_point off"@,
            now,
        )
    } else if off_word(lowercase(arg)) {
        change_plan(s, chat_id, ChatView { work_point: None, ..chat }, "Work point cleared"@, now)
    } else {
        Plan {
            state: s,
            steps: if coord_parts(arg).len() == 2 {
                seq![
                    StepView::ReadPoint { lat: coord_parts(arg)[0], lng: coord_parts(arg)[1] },
                ]
            } else {
                seq![plain(bad_coords_text("expected '<lat>,<lng>'"@))]
            },
        }
    }
}

/// Sets or clears the work point of a chat from an argument.
fn set_point(state: &mut State, chat_id: i64, arg: &str, now: &Moment) -> (r: Vec<Step>)
    ensures
        final(state)@ == point_plan(old(state)@, chat_id, arg@, *now).state,
        step_views(r@) == point_plan(old(state)@, chat_id, arg@, *now).steps,
{
    if arg.is_empty() {
        return tell_usage(
            "\n\nUsage:\n  /work_point 51.8985,-8.4756\n  /work_point off",
            state,
            chat_id,
            now,
        );
    }
    if is_off(arg) {
        let c = state.chat_mut(chat_id);
        c.work_point = None;
        return tell_change("Work point cleared", state, chat_id, now);
    }
    match split_coords(arg) {
        Some((lat, lng)) => just(Step::ReadPoint { lat, lng }),
        None => bad_coords("expected '<lat>,<lng>'"),
    }
}

/// What is added where no travel times can be asked for.
pub open spec fn key_warning(has_key: bool) -> Seq<char> {
    if has_key {
        Seq::empty()
    } else {
        "\n\n⚠ GOOGLE_MAPS_API_KEY is empty in .env — saved the point, but commute times won't be calculated."@
    }
}

/// The plan of setting the work point to a place.
pub open spec fn place_plan(
    s: StateView,
    chat_id: i64,
    place: Point,
    intro: Seq<char>,
    has_key: bool,
    now: Moment,
) -> Plan {
    change_plan(
        s,
        chat_id,
        ChatView { work_point: Some(place), ..s.chat_or_fresh(chat_id) },
        intro + place.lat.fixed@ + ","@ + place.lng.fixed@ + key_warning(has_key),
        now,
    )
}

/// Sets the work point of a chat to a place.
fn place_point(
    state: &mut State,
    chat_id: i64,
    place: Point,
    intro: &str,
    has_key: bool,
    now: &Moment,
) -> (r: Vec<Step>)
    ensures
        final(state)@ == place_plan(old(state)@, chat_id, place, intro@, has_key, *now).state,
        step_views(r@) == place_plan(old(state)@, chat_id, place, intro@, has_key, *now).steps,
{
    let mut header = copy_of(intro);
    header.append(place.lat.fixed.as_str());
    header.append(",");
    header.append(place.lng.fixed.as_str());
    if !has_key {
        header.append(
            "\n\n⚠ GOOGLE_MAPS_API_KEY is empty in .env — saved the point, but commute times won't be calculated.",
        );
    } else {
        assert(header@ =~= header@ + key_warning(has_key));
    }
    let c = state.chat_mut(chat_id);
    c.work_point = Some(place);
    tell_change(header.as_str(), state, chat_id, now)
}

/// What is wrong with two numbers as coordinates, of which either may have been
/// none; nothing where they are a place on the globe.
pub open spec fn coords_fault(
    lat_text: Seq<char>,
    lat: Option<Degrees>,
    lng_text: Seq<char>,
    lng: Option<Degrees>,
) -> Option<Seq<char>> {
    match lat {
        None => Some("can't parse latitude '"@ + lat_text + "'"@),
        Some(a) => match lng {
            None => Some("can't parse longitude '"@ + lng_text + "'"@),
            Some(b) => if (Point { lat: a, lng: b }).on_globe() {
                None
            } else {
                Some("lat/lng out of range: "@ + a.text@ + ","@ + b.text@)
            },
        },
    }
}

/// The plan after the coordinates of the work point were read.
pub open spec fn read_plan(
    s: StateView,
    chat_id: i64,
    lat_text: Seq<char>,
    lat: Option<Degrees>,
    lng_text: Seq<char>,
    lng: Option<Degrees>,
    has_key: bool,
    now: Moment,
) -> Plan {
    match coords_fault(lat_text, lat, lng_text, lng) {
        Some(e) => Plan { state: s, steps: seq![plain(bad_coords_text(e))] },
        None => place_plan(
            s,
            chat_id,
            Point { lat: lat->0, lng: lng->0 },
            "Work point set to "@,
            has_key,
            now,
        ),
    }
}

/// Goes on after the step that reads the coordinates of the work point: their
/// texts, and the numbers that they write.
pub fn on_point_read(
    state: &mut State,
    chat_id: i64,
    lat_text: &str,
    lat: Option<Degrees>,
    lng_text: &str,
    lng: Option<Degrees>,
    has_key: bool,
    now: &Moment,
) -> (r: Vec<Step>)
    ensures
        ({
            let plan = read_plan(
                old(state)@,
                chat_id,
                lat_text@,
                lat,
                lng_text@,
                lng,
                has_key,
                *now,
            );
            final(state)@ == plan.state && step_views(r@) == plan.steps
        }),
{
    match lat {
        None => {
            let mut e = copy_of("can't parse latitude '");
            e.append(lat_text);
            e.append("'");
            bad_coords(e.as_str())
        },
        Some(a) => match lng {
            None => {
                let mut e = copy_of("can't parse longitude '");
                e.append(lng_text);
                e.append("'");
                bad_coords(e.as_str())
            },
            Some(b) => {
                let place = Point { lat: a, lng: b };
                if place.is_on_globe() {
                    place_point(state, chat_id, place, "Work point set to ", has_key, now)
                } else {
                    let mut e = copy_of("lat/lng out of range: ");
                    e.append(place.lat.text.as_str());
                    e.append(",");
                    e.append(place.lng.text.as_str());
                    bad_coords(e.as_str())
                }
            },
        },
    }
}

/// Sets the work point of a chat to a location that was shared.
pub fn on_location(
    state: &mut State,
    chat_id: i64,
    place: Point,
    has_key: bool,
    now: &Moment,
) -> (r: Vec<Step>)
    ensures
        ({
            let plan = place_plan(
                old(state)@,
                chat_id,
                place,
                "Work point set from your shared location: "@,
                has_key,
                *now,
            );
            final(state)@ == plan.state && step_views(r@) == plan.steps
        }),
{
    place_point(
        state,
        chat_id,
        place,
        "Work point set from your shared location: ",
        has_key,
        now,
    )
}

/// The plan of forgetting what was sent.
pub open spec fn clear_plan(s: StateView) -> Plan {
    Plan {
        state: StateView { seen: Set::empty(), ..s },
        steps: seq![
            StepView::Save,
            plain(
                "Cleared "@ + decimal_text(s.seen.len() as int)
                    + " ad ID(s) from state. The next check will re-send every current listing."@,
            ),
        ],
    }
}

/// Forgets what was sent.
fn do_clear(state: &mut State) -> (r: Vec<Step>)
    ensures
        final(state)@ == clear_plan(old(state)@).state,
        step_views(r@) == clear_plan(old(state)@).steps,
{
    let n: usize = state.clear_seen();
    let mut text = copy_of("Cleared ");
    push_decimal(&mut text, n as u64);
    text.append(" ad ID(s) from state. The next check will re-send every current listing.");
    save_and(send_plain(text))
}

/// The plan of a command. `help` is the list of commands, `unix` the time in
/// seconds since 1970.
pub open spec fn command_plan(
    s: StateView,
    chat_id: i64,
    cmd: Cmd,
    help: Seq<char>,
    now: Moment,
    unix: i64,
) -> Plan {
    match cmd {
        Cmd::Start | Cmd::Help => Plan {
            state: s,
            steps: seq![
                plain(
                    help
                        + "\n\nOr just paste a daft.ie URL.\nI check every 10 minutes and DM new listings."@,
                ),
            ],
        },
        Cmd::Watch(url) => if trimmed(url@).len() == 0 {
            Plan { state: s, steps: seq![plain("Usage: /watch <daft.ie URL>"@)] }
        } else {
            watch_plan(s, chat_id, trimmed(url@), now, unix)
        },
        Cmd::Unwatch(arg) => unwatch_plan(s, chat_id, trimmed(arg@)),
        Cmd::Status => Plan { state: s, steps: seq![rich(status_text(s, chat_id, now))] },
        Cmd::Check => check_plan(s, chat_id, now),
        Cmd::StartWatching => active_plan(s, chat_id, true, now),
        Cmd::StopWatching => active_plan(s, chat_id, false, now),
        Cmd::SleepTime(arg) => sleep_plan(s, chat_id, trimmed(arg@), now),
        Cmd::FilterPhone(arg) => filter_plan(s, chat_id, trimmed(arg@), now),
        Cmd::WorkPoint(arg) => point_plan(s, chat_id, trimmed(arg@), now),
        Cmd::ShowMap => Plan { state: s, steps: seq![StepView::ShowMap] },
        Cmd::ClearHistory => clear_plan(s),
    }
}

/// Does what a command changes at once, and gives the steps to be taken. `help`
/// is the list of commands, `unix` the time in seconds since 1970.
pub fn handle_cmd(
    state: &mut State,
    chat_id: i64,
    cmd: &Cmd,
    help: &str,
    now: &Moment,
    unix: i64,
) -> (r: Vec<Step>)
    ensures
        ({
            let plan = command_plan(old(state)@, chat_id, *cmd, help@, *now, unix);
            final(state)@ == plan.state && step_views(r@) == plan.steps
        }),
{
    match cmd {
        Cmd::Start | Cmd::Help => {
            let mut text = copy_of(help);
            text.append(
                "\n\nOr just paste a daft.ie URL.\nI check every 10 minutes and DM new listings.",
            );
            just(send_plain(text))
        },
        Cmd::Watch(url) => {
            let url = trim(url.as_str());
            if url.as_str().is_empty() {
                just(send_plain(copy_of("Usage: /watch <daft.ie URL>")))
            } else {
                do_watch(state, chat_id, url.as_str(), now, unix)
            }
        },
        Cmd::Unwatch(arg) => do_unwatch(state, chat_id, trim(arg.as_str()).as_str()),
        Cmd::Status => just(send_rich(render_status(state, chat_id, now))),
        Cmd::Check => do_check(state, chat_id, now),
        Cmd::StartWatching => set_active(state, chat_id, true, now),
        Cmd::StopWatching => set_active(state, chat_id, false, now),
        Cmd::SleepTime(arg) => set_sleep(state, chat_id, trim(arg.as_str()).as_str(), now),
        Cmd::FilterPhone(arg) => set_filter(state, chat_id, trim(arg.as_str()).as_str(), now),
        Cmd::WorkPoint(arg) => set_point(state, chat_id, trim(arg.as_str()).as_str(), now),
        Cmd::ShowMap => just(Step::ShowMap),
        Cmd::ClearHistory => do_clear(state),
    }
}

/// Whether a text is an address of the site.
pub open spec fn is_site_url(text: Seq<char>) -> bool {
    (begins(text, "http://"@) || begins(text, "https://"@)) && has(text, "daft.ie"@)
}

/// The plan of a text that is no command.
pub open spec fn text_plan(
    s: StateView,
    chat_id: i64,
    text: Seq<char>,
    now: Moment,
    unix: i64,
) -> Plan {
    if is_site_url(trimmed(text)) {
        watch_plan(s, chat_id, trimmed(text), now, unix)
    } else {
        Plan {
            state: s,
            steps: seq![
                plain("Send a daft.ie URL, share a Location (sets work point), or use /help."@),
            ],
        }
    }
}

/// Does what a text that is no command changes at once, and gives the steps to
/// be taken: an address of the site is watched.
pub fn handle_text(state: &mut State, chat_id: i64, text: &str, now: &Moment, unix: i64) -> (r: Vec<
    Step,
>)
    ensures
        ({
            let plan = text_plan(old(state)@, chat_id, text@, *now, unix);
            final(state)@ == plan.state && step_views(r@) == plan.steps
        }),
{
    let t = trim(text);
    let s = t.as_str();
    if (starts_with(s, "http://") || starts_with(s, "https://")) && contains(s, "daft.ie") {
        do_watch(state, chat_id, s, now, unix)
    } else {
        just(
            send_plain(
                copy_of("Send a daft.ie URL, share a Location (sets work point), or use /help."),
            ),
        )
    }
}

/// Whether a plan changes no chat but one.
pub open spec fn only_touches(s: StateView, chat_id: i64, plan: Plan) -> bool {
    forall|other: i64| other != chat_id ==> #[trigger] plan.state.chat(other) == s.chat(other)
}

/// Whether a plan that does not write the state leaves it as it was, but that a
/// chat may have been made of which nothing is set.
pub open spec fn saves_changes(s: StateView, plan: Plan) -> bool {
    plan.steps.contains(StepView::Save) || {
        &&& plan.state.seen == s.seen
        &&& forall|id: i64| #[trigger] plan.state.chat_or_fresh(id) == s.chat_or_fresh(id)
    }
}

/// Whether a plan answers: it sends a text or takes a step that leads to one.
pub open spec fn answers(plan: Plan) -> bool {
    exists|i: int| 0 <= i < plan.steps.len() && (#[trigger] plan.steps[i]) !is Save
}

proof fn lemma_put_is_good(s: StateView, chat_id: i64, chat: ChatView, steps: Seq<StepView>)
    requires
        s.wf(),
        steps.contains(StepView::Save) || chat == s.chat_or_fresh(chat_id),
    ensures
        ({
            let plan = Plan { state: s.with_chat(chat_id, chat), steps };
            &&& only_touches(s, chat_id, plan)
            &&& saves_changes(s, plan)
            &&& plan.state.wf()
            &&& plan.state.seen == s.seen
        }),
{
    let plan = Plan { state: s.with_chat(chat_id, chat), steps };
    law_put_chat_keeps_keys_distinct(
        s.chats,
        integer_text(chat_id as int),
        chat,
    );
    assert forall|other: i64| other != chat_id implies #[trigger] plan.state.chat(other) == s.chat(
        other,
    ) by {
        law_put_chat_keeps_others(s, chat_id, chat, other);
    }
    if chat == s.chat_or_fresh(chat_id) {
        assert forall|id: i64| #[trigger] plan.state.chat_or_fresh(id) == s.chat_or_fresh(id) by {
            if id == chat_id {
                law_put_chat_is_found(s, chat_id, chat);
            } else {
                law_put_chat_keeps_others(s, chat_id, chat, id);
            }
        }
    }
}

proof fn lemma_change_is_good(
    s: StateView,
    chat_id: i64,
    chat: ChatView,
    header: Seq<char>,
    now: Moment,
)
    requires
        s.wf(),
    ensures
        only_touches(s, chat_id, change_plan(s, chat_id, chat, header, now)),
        saves_changes(s, change_plan(s, chat_id, chat, header, now)),
        answers(change_plan(s, chat_id, chat, header, now)),
        change_plan(s, chat_id, chat, header, now).state.wf(),
        change_plan(s, chat_id, chat, header, now).state.seen == s.seen,
{
    let plan = change_plan(s, chat_id, chat, header, now);
    assert(plan.steps[0] == StepView::Save);
    assert(plan.steps[1] !is Save);
    lemma_put_is_good(s, chat_id, chat, plan.steps);
}

proof fn lemma_watch_is_good(s: StateView, chat_id: i64, url: Seq<char>, now: Moment, unix: i64)
    requires
        s.wf(),
    ensures
        only_touches(s, chat_id, watch_plan(s, chat_id, url, now, unix)),
        saves_changes(s, watch_plan(s, chat_id, url, now, unix)),
        answers(watch_plan(s, chat_id, url, now, unix)),
        watch_plan(s, chat_id, url, now, unix).state.wf(),
        watch_plan(s, chat_id, url, now, unix).state.seen == s.seen,
{
    let plan = watch_plan(s, chat_id, url, now, unix);
    let chat = s.chat_or_fresh(chat_id);
    if url_fault(url) is Some {
        assert(plan.steps[0] !is Save);
    } else if chat.watches_url(url) {
        assert(plan.steps[0] !is Save);
    } else {
        assert(plan.steps[0] == StepView::Save);
        assert(plan.steps[1] !is Save);
        lemma_put_is_good(
            s,
            chat_id,
            chat.with_watch(url).with_check(url, unix),
            plan.steps,
        );
    }
}

/// Every command is answered, changes no other chat, keeps the chats distinct,
/// forgets nothing that was sent unless that is what it is for, and writes the
/// state where it changed something.
#[verifier::rlimit(30)]
pub proof fn law_commands_are_confined(
    s: StateView,
    chat_id: i64,
    cmd: Cmd,
    help: Seq<char>,
    now: Moment,
    unix: i64,
)
    requires
        s.wf(),
    ensures
        ({
            let plan = command_plan(s, chat_id, cmd, help, now, unix);
            &&& answers(plan)
            &&& only_touches(s, chat_id, plan)
            &&& saves_changes(s, plan)
            &&& plan.state.wf()
            &&& cmd !is ClearHistory ==> plan.state.seen == s.seen
        }),
{
    let plan = command_plan(s, chat_id, cmd, help, now, unix);
    let chat = s.chat_or_fresh(chat_id);
    match cmd {
        Cmd::Watch(url) => {
            lemma_watch_is_good(s, chat_id, trimmed(url@), now, unix);
            assert(trimmed(url@).len() == 0 ==> plan.steps[0] !is Save);
        },
        Cmd::Unwatch(arg) => {
            let key = trimmed(arg@);
            if chat.told_by(key) < chat.watches.len() {
                assert(plan.steps[0] == StepView::Save);
                assert(plan.steps[1] !is Save);
            } else {
                assert(plan.steps[0] !is Save);
            }
            lemma_put_is_good(s, chat_id, chat.without_told(key), plan.steps);
        },
        Cmd::StartWatching => {
            let header = if chat.active {
                "Already watching"@
            } else {
                "Watching resumed"@
            };
            lemma_change_is_good(s, chat_id, ChatView { active: true, ..chat }, header, now);
        },
        Cmd::StopWatching => {
            let header = if chat.active {
                "Watching stopped"@
            } else {
                "Already stopped"@
            };
            lemma_change_is_good(s, chat_id, ChatView { active: false, ..chat }, header, now);
        },
        Cmd::SleepTime(arg) => {
            let a = trimmed(arg@);
            lemma_change_is_good(s, chat_id, ChatView { sleep: None, ..chat }, "Sleep cleared"@, now);
            match window(a) {
                Ok((start, end)) => {
                    lemma_change_is_good(
                        s,
                        chat_id,
                        ChatView { sleep: Some(window_text(start, end)), ..chat },
                        "Sleep set to "@ + window_text(start, end),
                        now,
                    );
                },
                Err(_) => {},
            }
            assert(plan.steps.len() == 1 ==> plan.steps[0] !is Save);
        },
        Cmd::FilterPhone(_) => {
            lemma_change_is_good(
                s,
                chat_id,
                ChatView { filter_phone: true, ..chat },
                "Phone filter ON — ads with no phone will be skipped"@,
                now,
            );
            lemma_change_is_good(
                s,
                chat_id,
                ChatView { filter_phone: false, ..chat },
                "Phone filter OFF — every ad will be sent"@,
                now,
            );
            assert(plan.steps.len() == 1 ==> plan.steps[0] !is Save);
        },
        Cmd::WorkPoint(_) => {
            lemma_change_is_good(
                s,
                chat_id,
                ChatView { work_point: None, ..chat },
                "Work point cleared"@,
                now,
            );
            assert(plan.steps.len() == 1 ==> plan.steps[0] !is Save);
        },
        Cmd::ClearHistory => {
            assert(plan.steps[0] == StepView::Save);
            assert(plan.steps[1] !is Save);
        },
        _ => {
            assert(plan.steps[0] !is Save);
        },
    }
}

/// A text that is no command is answered, changes no other chat and forgets
/// nothing that was sent.
pub proof fn law_texts_are_confined(
    s: StateView,
    chat_id: i64,
    text: Seq<char>,
    now: Moment,
    unix: i64,
)
    requires
        s.wf(),
    ensures
        ({
            let plan = text_plan(s, chat_id, text, now, unix);
            &&& answers(plan)
            &&& only_touches(s, chat_id, plan)
            &&& saves_changes(s, plan)
            &&& plan.state.wf()
            &&& plan.state.seen == s.seen
        }),
{
    lemma_watch_is_good(s, chat_id, trimmed(text), now, unix);
    let plan = text_plan(s, chat_id, text, now, unix);
    if !is_site_url(trimmed(text)) {
        assert(plan.steps[0] !is Save);
    }
}

/// Whether a plan checks nothing.
pub open spec fn checks_nothing(plan: Plan) -> bool {
    forall|i: int| 0 <= i < plan.steps.len() ==> (#[trigger] plan.steps[i]) !is Check
}

/// In its sleep window nothing is checked for a chat, neither on a command nor on
/// an address that is sent.
pub proof fn law_sleep_holds_off_checks(
    s: StateView,
    chat_id: i64,
    cmd: Cmd,
    help: Seq<char>,
    text: Seq<char>,
    now: Moment,
    unix: i64,
)
    requires
        asleep(s.chat_or_fresh(chat_id).sleep, now.time),
    ensures
        checks_nothing(command_plan(s, chat_id, cmd, help, now, unix)),
        checks_nothing(text_plan(s, chat_id, text, now, unix)),
{
    lemma_sleep_holds_off_the_first_check(s, chat_id, trimmed(text), now, unix);
    lemma_sleep_holds_off_commands(s, chat_id, cmd, help, now, unix);
}

#[verifier::rlimit(30)]
proof fn lemma_sleep_holds_off_commands(
    s: StateView,
    chat_id: i64,
    cmd: Cmd,
    help: Seq<char>,
    now: Moment,
    unix: i64,
)
    requires
        asleep(s.chat_or_fresh(chat_id).sleep, now.time),
    ensures
        checks_nothing(command_plan(s, chat_id, cmd, help, now, unix)),
{
    let plan = command_plan(s, chat_id, cmd, help, now, unix);
    match cmd {
        Cmd::Watch(url) => {
            lemma_sleep_holds_off_the_first_check(s, chat_id, trimmed(url@), now, unix);
            assert(checks_nothing(plan));
        },
        Cmd::Unwatch(arg) => {
            let key = trimmed(arg@);
            assert(plan.steps == unwatch_plan(s, chat_id, key).steps);
            assert(checks_nothing(plan));
        },
        Cmd::StartWatching => {
            lemma_switch_checks_nothing(s, chat_id, true, now);
        },
        Cmd::StopWatching => {
            lemma_switch_checks_nothing(s, chat_id, false, now);
        },
        Cmd::SleepTime(arg) => {
            lemma_settings_check_nothing(s, chat_id, trimmed(arg@), now);
            assert(checks_nothing(plan));
        },
        Cmd::FilterPhone(arg) => {
            lemma_settings_check_nothing(s, chat_id, trimmed(arg@), now);
            assert(checks_nothing(plan));
        },
        Cmd::WorkPoint(arg) => {
            lemma_settings_check_nothing(s, chat_id, trimmed(arg@), now);
            assert(checks_nothing(plan));
        },
        Cmd::ClearHistory => {
            assert(checks_nothing(plan));
        },
        _ => {
            assert(plan.steps.len() == 1);
            assert(plan.steps[0] !is Check);
            assert(checks_nothing(plan));
        },
    }
}

proof fn lemma_switch_checks_nothing(s: StateView, chat_id: i64, on: bool, now: Moment)
    ensures
        checks_nothing(active_plan(s, chat_id, on, now)),
{
}

proof fn lemma_sleep_holds_off_the_first_check(
    s: StateView,
    chat_id: i64,
    url: Seq<char>,
    now: Moment,
    unix: i64,
)
    requires
        asleep(s.chat_or_fresh(chat_id).sleep, now.time),
    ensures
        checks_nothing(watch_plan(s, chat_id, url, now, unix)),
{
}

proof fn lemma_settings_check_nothing(s: StateView, chat_id: i64, arg: Seq<char>, now: Moment)
    ensures
        checks_nothing(sleep_plan(s, chat_id, arg, now)),
        checks_nothing(filter_plan(s, chat_id, arg, now)),
        checks_nothing(point_plan(s, chat_id, arg, now)),
{
}

/// The number under which the status lists a watch stops that watch and no
/// other.
pub proof fn law_listed_number_stops_its_watch(s: StateView, chat_id: i64, n: int)
    requires
        1 <= n <= s.chat_or_fresh(chat_id).watches.len(),
        n <= usize::MAX,
    ensures
        ({
            let watches = s.chat_or_fresh(chat_id).watches;
            let plan = unwatch_plan(s, chat_id, decimal_text(n));
            &&& plan.steps == seq![
                StepView::Save,
                plain("Stopped watching:\n"@ + watches[n - 1].url),
            ]
            &&& plan.state.chat_or_fresh(chat_id).watches == watches.remove(n - 1)
        }),
{
    let chat = s.chat_or_fresh(chat_id);
    law_number_tells_the_watch(chat, n);
    law_put_chat_is_found(s, chat_id, chat.without_told(decimal_text(n)));
}

/// An address that was watched once is not watched twice: asking again changes
/// nothing.
pub proof fn law_watching_again_changes_nothing(
    s: StateView,
    chat_id: i64,
    url: Seq<char>,
    now: Moment,
    unix: i64,
    later: Moment,
    later_unix: i64,
)
    requires
        url_fault(url) is None,
    ensures
        ({
            let after = watch_plan(s, chat_id, url, now, unix).state;
            &&& after.chat_or_fresh(chat_id).watches_url(url)
            &&& watch_plan(after, chat_id, url, later, later_unix).state == after
        }),
{
    let chat = s.chat_or_fresh(chat_id);
    let after = watch_plan(s, chat_id, url, now, unix).state;
    if !chat.watches_url(url) {
        let c = chat.with_watch(url).with_check(url, unix);
        law_put_chat_is_found(s, chat_id, c);
        law_watch_is_added_once(chat, url);
        law_check_keeps_addresses(chat.with_watch(url), url, unix, url);
    }
}

/// A chat that was told to stop watching is not checked, and one that was told
/// to go on is, unless it is asleep.
pub proof fn law_switch_decides_what_is_checked(
    s: StateView,
    chat_id: i64,
    on: bool,
    told: Moment,
    url: Seq<char>,
    now: TimeOfDay,
)
    requires
        s.wf(),
        keys_are_numbers(s.chats),
    ensures
        ({
            let chat = s.chat_or_fresh(chat_id);
            let after = active_plan(s, chat_id, on, told).state;
            due_of(after.chats, now).contains((chat_id, url)) <==> on && !asleep(chat.sleep, now)
                && chat.watches_url(url)
        }),
{
    let chat = ChatView { active: on, ..s.chat_or_fresh(chat_id) };
    let after = active_plan(s, chat_id, on, told).state;
    law_put_chat_keeps_keys_distinct(s.chats, integer_text(chat_id as int), chat);
    law_keys_stay_numbers(s.chats, chat_id, chat);
    law_put_chat_is_found(s, chat_id, chat);
    law_due_watches(after, now, chat_id, url);
}

/// A sleep window that was set is read back as the window that was asked for.
pub proof fn law_sleep_that_was_set_holds(
    s: StateView,
    chat_id: i64,
    arg: Seq<char>,
    now: Moment,
)
    requires
        arg.len() > 0,
        !off_word(lowercase(arg)),
        window(arg) is Ok,
    ensures
        ({
            let after = sleep_plan(s, chat_id, arg, now).state;
            after.chat_or_fresh(chat_id).sleep matches Some(w) && window(w) == window(arg)
        }),
{
    let (start, end) = window(arg)->Ok_0;
    let chat = s.chat_or_fresh(chat_id);
    law_canonical_is_stable(arg);
    law_put_chat_is_found(
        s,
        chat_id,
        ChatView { sleep: Some(window_text(start, end)), ..chat },
    );
}

/// Whether no two chats have the same key, and each key is a chat's number.
pub open spec fn well_keyed(s: StateView) -> bool {
    s.wf() && keys_are_numbers(s.chats)
}

proof fn lemma_put_stays_well_keyed(s: StateView, chat_id: i64, chat: ChatView)
    requires
        well_keyed(s),
    ensures
        well_keyed(s.with_chat(chat_id, chat)),
{
    law_put_chat_keeps_keys_distinct(s.chats, integer_text(chat_id as int), chat);
    law_keys_stay_numbers(s.chats, chat_id, chat);
}

proof fn lemma_watch_stays_well_keyed(
    s: StateView,
    chat_id: i64,
    url: Seq<char>,
    now: Moment,
    unix: i64,
)
    requires
        well_keyed(s),
    ensures
        well_keyed(watch_plan(s, chat_id, url, now, unix).state),
{
    let chat = s.chat_or_fresh(chat_id);
    lemma_put_stays_well_keyed(s, chat_id, chat.with_watch(url).with_check(url, unix));
}

proof fn lemma_settings_stay_well_keyed(s: StateView, chat_id: i64, arg: Seq<char>, now: Moment)
    requires
        well_keyed(s),
    ensures
        well_keyed(sleep_plan(s, chat_id, arg, now).state),
        well_keyed(filter_plan(s, chat_id, arg, now).state),
        well_keyed(point_plan(s, chat_id, arg, now).state),
{
    let chat = s.chat_or_fresh(chat_id);
    lemma_put_stays_well_keyed(s, chat_id, ChatView { sleep: None, ..chat });
    match window(arg) {
        Ok((start, end)) => {
            lemma_put_stays_well_keyed(
                s,
                chat_id,
                ChatView { sleep: Some(window_text(start, end)), ..chat },
            );
        },
        Err(_) => {},
    }
    lemma_put_stays_well_keyed(s, chat_id, ChatView { filter_phone: true, ..chat });
    lemma_put_stays_well_keyed(s, chat_id, ChatView { filter_phone: false, ..chat });
    lemma_put_stays_well_keyed(s, chat_id, ChatView { work_point: None, ..chat });
}

/// Every command keeps the chats' keys distinct, and each the number of a chat.
pub proof fn law_commands_keep_keys(
    s: StateView,
    chat_id: i64,
    cmd: Cmd,
    help: Seq<char>,
    now: Moment,
    unix: i64,
)
    requires
        well_keyed(s),
    ensures
        well_keyed(command_plan(s, chat_id, cmd, help, now, unix).state),
{
    let after = command_plan(s, chat_id, cmd, help, now, unix).state;
    let chat = s.chat_or_fresh(chat_id);
    match cmd {
        Cmd::Watch(url) => {
            lemma_watch_stays_well_keyed(s, chat_id, trimmed(url@), now, unix);
        },
        Cmd::Unwatch(arg) => {
            lemma_put_stays_well_keyed(s, chat_id, chat.without_told(trimmed(arg@)));
        },
        Cmd::StartWatching => {
            lemma_put_stays_well_keyed(s, chat_id, ChatView { active: true, ..chat });
        },
        Cmd::StopWatching => {
            lemma_put_stays_well_keyed(s, chat_id, ChatView { active: false, ..chat });
        },
        Cmd::SleepTime(arg) => {
            lemma_settings_stay_well_keyed(s, chat_id, trimmed(arg@), now);
        },
        Cmd::FilterPhone(arg) => {
            lemma_settings_stay_well_keyed(s, chat_id, trimmed(arg@), now);
        },
        Cmd::WorkPoint(arg) => {
            lemma_settings_stay_well_keyed(s, chat_id, trimmed(arg@), now);
        },
        _ => {
            assert(after.chats == s.chats);
        },
    }
}

/// Every text, every place for the work point, and every pair of coordinates that
/// was read for it keeps the chats' keys distinct, and each the number of a chat.
pub proof fn law_messages_keep_keys(
    s: StateView,
    chat_id: i64,
    text: Seq<char>,
    place: Point,
    intro: Seq<char>,
    lat_text: Seq<char>,
    lat: Option<Degrees>,
    lng_text: Seq<char>,
    lng: Option<Degrees>,
    has_key: bool,
    now: Moment,
    unix: i64,
)
    requires
        well_keyed(s),
    ensures
        well_keyed(text_plan(s, chat_id, text, now, unix).state),
        well_keyed(place_plan(s, chat_id, place, intro, has_key, now).state),
        well_keyed(
            read_plan(s, chat_id, lat_text, lat, lng_text, lng, has_key, now).state,
        ),
{
    let chat = s.chat_or_fresh(chat_id);
    lemma_watch_stays_well_keyed(s, chat_id, trimmed(text), now, unix);
    lemma_put_stays_well_keyed(s, chat_id, ChatView { work_point: Some(place), ..chat });
    let read = Point { lat: lat->0, lng: lng->0 };
    lemma_put_stays_well_keyed(s, chat_id, ChatView { work_point: Some(read), ..chat });
}

/// Whether a stored sleep window is none, or the canonical text of a window.
pub open spec fn is_canonical(sleep: Option<Seq<char>>) -> bool {
    sleep matches Some(w) ==> window(w) matches Ok((start, end)) && w == window_text(start, end)
}

/// Whether every stored sleep window is canonical.
pub open spec fn sleeps_canonically(s: StateView) -> bool {
    forall|i: int| 0 <= i < s.chats.len() ==> is_canonical((#[trigger] s.chats[i]).1.sleep)
}

proof fn lemma_found_sleeps_canonically(s: StateView, chat_id: i64)
    requires
        sleeps_canonically(s),
    ensures
        is_canonical(s.chat_or_fresh(chat_id).sleep),
{
    lemma_chat_index(s.chats, integer_text(chat_id as int));
}

proof fn lemma_put_sleeps_canonically(s: StateView, chat_id: i64, chat: ChatView)
    requires
        sleeps_canonically(s),
        is_canonical(chat.sleep),
    ensures
        sleeps_canonically(s.with_chat(chat_id, chat)),
{
    let after = s.with_chat(chat_id, chat);
    let k = chat_index(s.chats, integer_text(chat_id as int));
    lemma_chat_index(s.chats, integer_text(chat_id as int));
    assert forall|i: int| 0 <= i < after.chats.len() implies is_canonical(
        (#[trigger] after.chats[i]).1.sleep,
    ) by {
        if i < s.chats.len() && i != k {
            assert(after.chats[i] == s.chats[i]);
        }
    }
}

proof fn lemma_watch_keeps_sleep_canonical(
    s: StateView,
    chat_id: i64,
    url: Seq<char>,
    now: Moment,
    unix: i64,
)
    requires
        sleeps_canonically(s),
    ensures
        sleeps_canonically(watch_plan(s, chat_id, url, now, unix).state),
{
    let chat = s.chat_or_fresh(chat_id);
    lemma_found_sleeps_canonically(s, chat_id);
    lemma_put_sleeps_canonically(s, chat_id, chat.with_watch(url).with_check(url, unix));
}

proof fn lemma_settings_keep_sleep_canonical(
    s: StateView,
    chat_id: i64,
    arg: Seq<char>,
    now: Moment,
)
    requires
        sleeps_canonically(s),
    ensures
        sleeps_canonically(sleep_plan(s, chat_id, arg, now).state),
        sleeps_canonically(filter_plan(s, chat_id, arg, now).state),
        sleeps_canonically(point_plan(s, chat_id, arg, now).state),
{
    let chat = s.chat_or_fresh(chat_id);
    lemma_found_sleeps_canonically(s, chat_id);
    lemma_put_sleeps_canonically(s, chat_id, ChatView { sleep: None, ..chat });
    match window(arg) {
        Ok((start, end)) => {
            law_canonical_is_stable(arg);
            lemma_put_sleeps_canonically(
                s,
                chat_id,
                ChatView { sleep: Some(window_text(start, end)), ..chat },
            );
        },
        Err(_) => {},
    }
    lemma_put_sleeps_canonically(s, chat_id, ChatView { filter_phone: true, ..chat });
    lemma_put_sleeps_canonically(s, chat_id, ChatView { filter_phone: false, ..chat });
    lemma_put_sleeps_canonically(s, chat_id, ChatView { work_point: None, ..chat });
}

/// Stored sleep windows stay canonical under every command.
pub proof fn law_commands_keep_sleep_canonical(
    s: StateView,
    chat_id: i64,
    cmd: Cmd,
    help: Seq<char>,
    now: Moment,
    unix: i64,
)
    requires
        sleeps_canonically(s),
    ensures
        sleeps_canonically(command_plan(s, chat_id, cmd, help, now, unix).state),
{
    let after = command_plan(s, chat_id, cmd, help, now, unix).state;
    let chat = s.chat_or_fresh(chat_id);
    lemma_found_sleeps_canonically(s, chat_id);
    match cmd {
        Cmd::Watch(url) => {
            lemma_watch_keeps_sleep_canonical(s, chat_id, trimmed(url@), now, unix);
        },
        Cmd::Unwatch(arg) => {
            lemma_put_sleeps_canonically(s, chat_id, chat.without_told(trimmed(arg@)));
        },
        Cmd::StartWatching => {
            lemma_put_sleeps_canonically(s, chat_id, ChatView { active: true, ..chat });
        },
        Cmd::StopWatching => {
            lemma_put_sleeps_canonically(s, chat_id, ChatView { active: false, ..chat });
        },
        Cmd::SleepTime(arg) => {
            lemma_settings_keep_sleep_canonical(s, chat_id, trimmed(arg@), now);
        },
        Cmd::FilterPhone(arg) => {
            lemma_settings_keep_sleep_canonical(s, chat_id, trimmed(arg@), now);
        },
        Cmd::WorkPoint(arg) => {
            lemma_settings_keep_sleep_canonical(s, chat_id, trimmed(arg@), now);
        },
        _ => {
            assert(after.chats == s.chats);
        },
    }
}

/// Stored sleep windows stay canonical on a text and on a place for the work
/// point.
pub proof fn law_messages_keep_sleep_canonical(
    s: StateView,
    chat_id: i64,
    text: Seq<char>,
    place: Point,
    intro: Seq<char>,
    has_key: bool,
    now: Moment,
    unix: i64,
)
    requires
        sleeps_canonically(s),
    ensures
        sleeps_canonically(text_plan(s, chat_id, text, now, unix).state),
        sleeps_canonically(place_plan(s, chat_id, place, intro, has_key, now).state),
{
    let chat = s.chat_or_fresh(chat_id);
    lemma_found_sleeps_canonically(s, chat_id);
    lemma_watch_keeps_sleep_canonical(s, chat_id, trimmed(text), now, unix);
    lemma_put_sleeps_canonically(s, chat_id, ChatView { work_point: Some(place), ..chat });
}

/// Whether two chats differ at most in whether they are active.
spec fn differ_in_active(a: ChatView, b: ChatView) -> bool {
    a.watches == b.watches && a.sleep == b.sleep && a.filter_phone == b.filter_phone && a.work_point
        == b.work_point
}

/// Watching a new address puts it after the other watches, checked at the time of
/// the request, and changes no setting and no record of what was sent; it is
/// saved and told, and, unless the chat is asleep, checked.
pub proof fn law_new_address_is_watched(
    s: StateView,
    chat_id: i64,
    url: Seq<char>,
    now: Moment,
    unix: i64,
)
    requires
        url_fault(url) is None,
        forall|i: int|
            0 <= i < s.chat_or_fresh(chat_id).watches.len() ==> (
            #[trigger] s.chat_or_fresh(chat_id).watches[i]).url != url,
    ensures
        ({
            let before = s.chat_or_fresh(chat_id);
            let plan = watch_plan(s, chat_id, url, now, unix);
            let after = plan.state.chat_or_fresh(chat_id);
            &&& after.watches == before.watches.push(WatchView { url, last_check: unix })
            &&& after.active == before.active
            &&& after.sleep == before.sleep
            &&& after.filter_phone == before.filter_phone
            &&& after.work_point == before.work_point
            &&& plan.state.seen == s.seen
            &&& plan.steps[0] == StepView::Save
            &&& plan.steps[1] is Send
            &&& begins(plan.steps[1]->text, "Watching is started"@ + "\n\n"@)
            &&& asleep(before.sleep, now.time) ==> plan.steps.len() == 2
            &&& !asleep(before.sleep, now.time) ==> plan.steps.len() == 3 && plan.steps[2]
                == StepView::Check { url }
        }),
{
    let before = s.chat_or_fresh(chat_id);
    law_watched_is_having_a_watch(before, url);
    let added = before.with_watch(url);
    let after = added.with_check(url, unix);
    law_watch_is_added_at_the_end(before, url);
    assert forall|i: int| 0 <= i < before.watches.len() implies (#[trigger] added.watches[i]).url
        != url by {
        assert(added.watches[i] == before.watches[i]);
    }
    law_check_is_noted(added, url, unix, before.watches.len() as int);
    assert(after.watches =~= before.watches.push(WatchView { url, last_check: unix }));
    law_put_chat_is_found(s, chat_id, after);
    let plan = watch_plan(s, chat_id, url, now, unix);
    let text = summary(plan.state, chat_id, Some(url), now);
    law_has_is_being_made_of(
        Seq::empty(),
        "Watching is started"@ + "\n\n"@,
        Seq::empty(),
        text,
    );
}

/// An address that is watched already is not saved again; it is told, and, unless
/// the chat is asleep, checked.
pub proof fn law_known_address_is_checked_again(
    s: StateView,
    chat_id: i64,
    url: Seq<char>,
    now: Moment,
    unix: i64,
    i: int,
)
    requires
        url_fault(url) is None,
        0 <= i < s.chat_or_fresh(chat_id).watches.len(),
        s.chat_or_fresh(chat_id).watches[i].url == url,
    ensures
        ({
            let plan = watch_plan(s, chat_id, url, now, unix);
            &&& plan.state == s
            &&& plan.steps[0] is Send
            &&& asleep(s.chat_or_fresh(chat_id).sleep, now.time) ==> plan.steps.len() == 1
            &&& !asleep(s.chat_or_fresh(chat_id).sleep, now.time) ==> plan.steps.len() == 2
                && plan.steps[1] == StepView::Check { url }
        }),
{
    law_watched_is_having_a_watch(s.chat_or_fresh(chat_id), url);
}

/// An address that stands for no search is refused, with the reason, and changes
/// nothing.
pub proof fn law_bad_address_is_refused(
    s: StateView,
    chat_id: i64,
    url: Seq<char>,
    now: Moment,
    unix: i64,
)
    requires
        url_fault(url) is Some,
    ensures
        ({
            let plan = watch_plan(s, chat_id, url, now, unix);
            &&& plan.state == s
            &&& plan.steps.len() == 1
            &&& plan.steps[0] == StepView::Send { text: "Bad URL: "@ + url_fault(url)->0, html: false }
        }),
{
}

/// Starting and stopping to watch set that, and nothing else of the chat, are
/// saved, and are told by whether anything changed.
pub proof fn law_switch_sets_active(
    s: StateView,
    chat_id: i64,
    help: Seq<char>,
    now: Moment,
    unix: i64,
)
    ensures
        ({
            let before = s.chat_or_fresh(chat_id);
            let plan = command_plan(s, chat_id, Cmd::StartWatching, help, now, unix);
            let after = plan.state.chat_or_fresh(chat_id);
            &&& after.active
            &&& after.watches == before.watches
            &&& after.sleep == before.sleep
            &&& after.filter_phone == before.filter_phone
            &&& after.work_point == before.work_point
            &&& plan.steps.len() == 2
            &&& plan.steps[0] == StepView::Save
            &&& plan.steps[1] is Send
            &&& begins(
                plan.steps[1]->text,
                if before.active {
                    "Already watching"@
                } else {
                    "Watching resumed"@
                },
            )
        }),
        ({
            let before = s.chat_or_fresh(chat_id);
            let plan = command_plan(s, chat_id, Cmd::StopWatching, help, now, unix);
            let after = plan.state.chat_or_fresh(chat_id);
            &&& !after.active
            &&& after.watches == before.watches
            &&& after.sleep == before.sleep
            &&& after.filter_phone == before.filter_phone
            &&& after.work_point == before.work_point
            &&& plan.steps.len() == 2
            &&& plan.steps[0] == StepView::Save
            &&& plan.steps[1] is Send
            &&& begins(
                plan.steps[1]->text,
                if before.active {
                    "Watching stopped"@
                } else {
                    "Already stopped"@
                },
            )
        }),
{
    lemma_active_is_set(s, chat_id, true, now);
    lemma_active_is_set(s, chat_id, false, now);
}

proof fn lemma_headed_begins(
    header: Seq<char>,
    s: StateView,
    chat_id: i64,
    url: Option<Seq<char>>,
    now: Moment,
)
    ensures
        begins(headed(header, s, chat_id, url, now), header),
{
    let none = Seq::<char>::empty();
    let rest = "\n\n"@ + summary(s, chat_id, url, now);
    law_has_is_being_made_of(none, header, none, rest);
    assert(header + rest =~= headed(header, s, chat_id, url, now));
}

proof fn lemma_active_is_set(s: StateView, chat_id: i64, on: bool, now: Moment)
    ensures
        ({
            let before = s.chat_or_fresh(chat_id);
            let plan = active_plan(s, chat_id, on, now);
            let after = plan.state.chat_or_fresh(chat_id);
            &&& after.active == on
            &&& differ_in_active(before, after)
            &&& plan.steps.len() == 2
            &&& plan.steps[0] == StepView::Save
            &&& plan.steps[1] is Send
            &&& begins(
                plan.steps[1]->text,
                if on && before.active {
                    "Already watching"@
                } else if on {
                    "Watching resumed"@
                } else if before.active {
                    "Watching stopped"@
                } else {
                    "Already stopped"@
                },
            )
        }),
{
    let before = s.chat_or_fresh(chat_id);
    let chat = ChatView { active: on, ..before };
    law_put_chat_is_found(s, chat_id, chat);
    let after = s.with_chat(chat_id, chat);
    lemma_headed_begins("Already watching"@, after, chat_id, None, now);
    lemma_headed_begins("Watching resumed"@, after, chat_id, None, now);
    lemma_headed_begins("Watching stopped"@, after, chat_id, None, now);
    lemma_headed_begins("Already stopped"@, after, chat_id, None, now);
}

/// A window that is set makes the chat sleep while it is open and at no other
/// time; a word that clears makes it never sleep; any other argument changes
/// nothing. Nothing else of the chat changes.
pub proof fn law_sleep_is_set(s: StateView, chat_id: i64, arg: Seq<char>, now: Moment, t: TimeOfDay)
    requires
        arg.len() > 0,
    ensures
        ({
            let before = s.chat_or_fresh(chat_id);
            let plan = sleep_plan(s, chat_id, arg, now);
            let after = plan.state.chat_or_fresh(chat_id);
            &&& after.watches == before.watches
            &&& after.active == before.active
            &&& after.filter_phone == before.filter_phone
            &&& after.work_point == before.work_point
            &&& off_word(lowercase(arg)) ==> after.sleep is None && plan.steps[0] == StepView::Save
            &&& !off_word(lowercase(arg)) ==> (window(arg) matches Ok((start, end)) ==> asleep(
                after.sleep,
                t,
            ) == in_window(start, end, t) && plan.steps[0] == StepView::Save)
            &&& !off_word(lowercase(arg)) ==> (window(arg) matches Err(e) ==> plan.state == s
                && plan.steps.len() == 1 && plan.steps[0] is Send && begins(
                plan.steps[0]->text,
                "Bad format: "@ + e,
            ))
        }),
{
    let before = s.chat_or_fresh(chat_id);
    law_put_chat_is_found(s, chat_id, ChatView { sleep: None, ..before });
    if !off_word(lowercase(arg)) {
        match window(arg) {
            Ok((start, end)) => {
                law_sleep_that_was_set_holds(s, chat_id, arg, now);
                law_put_chat_is_found(
                    s,
                    chat_id,
                    ChatView { sleep: Some(window_text(start, end)), ..before },
                );
            },
            Err(e) => {
                law_has_is_being_made_of(
                    Seq::empty(),
                    "Bad format: "@ + e,
                    Seq::empty(),
                    "\nExamples:\n  /sleep_time 23:00-09:00\n  /sleep_time 21:00-11:00\n  /sleep_time off"@,
                );
            },
        }
    }
}

/// A word that switches the phone filter sets it to that; any other argument
/// changes nothing. Nothing else of the chat changes.
pub proof fn law_filter_is_set(s: StateView, chat_id: i64, arg: Seq<char>, now: Moment)
    requires
        arg.len() > 0,
    ensures
        ({
            let before = s.chat_or_fresh(chat_id);
            let plan = filter_plan(s, chat_id, arg, now);
            let after = plan.state.chat_or_fresh(chat_id);
            &&& after.watches == before.watches
            &&& after.active == before.active
            &&& after.sleep == before.sleep
            &&& after.work_point == before.work_point
            &&& bool_word(lowercase(trimmed(arg))) matches Some(on) ==> after.filter_phone == on
                && plan.steps.len() == 2 && plan.steps[0] == StepView::Save && plan.steps[1] is Send
                && begins(
                plan.steps[1]->text,
                if on {
                    "Phone filter ON"@
                } else {
                    "Phone filter OFF"@
                },
            )
            &&& bool_word(lowercase(trimmed(arg))) is None ==> plan.state == s && plan.steps.len()
                == 1
        }),
{
    let before = s.chat_or_fresh(chat_id);
    match bool_word(lowercase(trimmed(arg))) {
        Some(on) => {
            let chat = ChatView { filter_phone: on, ..before };
            law_put_chat_is_found(s, chat_id, chat);
            let after = s.with_chat(chat_id, chat);
            let long = if on {
                "Phone filter ON — ads with no phone will be skipped"@
            } else {
                "Phone filter OFF — every ad will be sent"@
            };
            lemma_headed_begins(long, after, chat_id, None, now);
            assert(begins("Phone filter ON — ads with no phone will be skipped"@, "Phone filter ON"@)
                && begins("Phone filter OFF — every ad will be sent"@, "Phone filter OFF"@)) by {
                reveal_strlit("Phone filter ON — ads with no phone will be skipped");
                reveal_strlit("Phone filter OFF — every ad will be sent");
                reveal_strlit("Phone filter ON");
                reveal_strlit("Phone filter OFF");
                assert("Phone filter ON — ads with no phone will be skipped"@.subrange(0, 15)
                    =~= "Phone filter ON"@);
                assert("Phone filter OFF — every ad will be sent"@.subrange(0, 16)
                    =~= "Phone filter OFF"@);
            }
            lemma_begins_begin(
                headed(long, after, chat_id, None, now),
                long,
                if on {
                    "Phone filter ON"@
                } else {
                    "Phone filter OFF"@
                },
            );
        },
        None => {},
    }
}

proof fn lemma_begins_begin(a: Seq<char>, b: Seq<char>, c: Seq<char>)
    requires
        begins(a, b),
        begins(b, c),
    ensures
        begins(a, c),
{
    assert(a.subrange(0, c.len() as int) =~= b.subrange(0, c.len() as int)) by {
        assert forall|i: int| 0 <= i < c.len() implies a[i] == b[i] by {
            assert(a.subrange(0, b.len() as int)[i] == a[i]);
        }
    }
}

/// Two numbers that were read for the work point set it where they are a place on
/// the globe, the first as its latitude; otherwise nothing changes. Nothing else of
/// the chat changes.
pub proof fn law_work_point_is_set(
    s: StateView,
    chat_id: i64,
    lat_text: Seq<char>,
    lat: Option<Degrees>,
    lng_text: Seq<char>,
    lng: Option<Degrees>,
    has_key: bool,
    now: Moment,
)
    ensures
        ({
            let before = s.chat_or_fresh(chat_id);
            let plan = read_plan(s, chat_id, lat_text, lat, lng_text, lng, has_key, now);
            let after = plan.state.chat_or_fresh(chat_id);
            let good = lat is Some && lng is Some && (Point {
                lat: lat->0,
                lng: lng->0,
            }).on_globe();
            &&& after.watches == before.watches
            &&& after.active == before.active
            &&& after.sleep == before.sleep
            &&& after.filter_phone == before.filter_phone
            &&& good ==> after.work_point is Some && after.work_point->0.lat == lat->0
                && after.work_point->0.lng == lng->0 && plan.steps.len() == 2 && plan.steps[0]
                == StepView::Save
            &&& !good ==> plan.state == s && plan.steps.len() == 1 && plan.steps[0] is Send
                && begins(plan.steps[0]->text, "Bad coordinates: "@)
            &&& lat is None ==> has(
                plan.steps[0]->text,
                "can't parse latitude '"@ + lat_text + "'"@,
            )
            &&& lat is Some && lng is None ==> has(
                plan.steps[0]->text,
                "can't parse longitude '"@ + lng_text + "'"@,
            )
            &&& lat is Some && lng is Some && !good ==> has(
                plan.steps[0]->text,
                "lat/lng out of range: "@ + (lat->0).text@ + ","@ + (lng->0).text@,
            )
        }),
{
    let before = s.chat_or_fresh(chat_id);
    match coords_fault(lat_text, lat, lng_text, lng) {
        Some(e) => {
            let tip =
                "\n\nTip: right-click your office on Google Maps, click the lat,lng to copy, paste here:\n  /work_point 51.8985,-8.4756"@;
            law_has_is_being_made_of(Seq::empty(), e, "Bad coordinates: "@, tip);
            law_has_is_being_made_of(Seq::empty(), "Bad coordinates: "@, Seq::empty(), e + tip);
            assert("Bad coordinates: "@ + (e + tip) =~= bad_coords_text(e));
        },
        None => {
            law_place_is_the_work_point(
                s,
                chat_id,
                Point { lat: lat->0, lng: lng->0 },
                "Work point set to "@,
                has_key,
                now,
            );
        },
    }
}

/// A place that is given for the work point becomes it, and nothing else of the
/// chat changes; the place is told, with a warning where there is no key.
pub proof fn law_place_is_the_work_point(
    s: StateView,
    chat_id: i64,
    place: Point,
    intro: Seq<char>,
    has_key: bool,
    now: Moment,
)
    ensures
        ({
            let before = s.chat_or_fresh(chat_id);
            let plan = place_plan(s, chat_id, place, intro, has_key, now);
            let after = plan.state.chat_or_fresh(chat_id);
            &&& after.work_point == Some(place)
            &&& after.watches == before.watches
            &&& after.active == before.active
            &&& after.sleep == before.sleep
            &&& after.filter_phone == before.filter_phone
            &&& plan.state.seen == s.seen
            &&& plan.steps.len() == 2
            &&& plan.steps[0] == StepView::Save
            &&& plan.steps[1] is Send
            &&& begins(plan.steps[1]->text, intro + place.lat.fixed@ + ","@ + place.lng.fixed@)
            &&& !has_key ==> has(
                plan.steps[1]->text,
                "⚠ GOOGLE_MAPS_API_KEY is empty in .env"@,
            )
        }),
{
    let chat = ChatView { work_point: Some(place), ..s.chat_or_fresh(chat_id) };
    law_put_chat_is_found(s, chat_id, chat);
    let after = s.with_chat(chat_id, chat);
    let told = intro + place.lat.fixed@ + ","@ + place.lng.fixed@;
    let header = told + key_warning(has_key);
    let none = Seq::<char>::empty();
    lemma_headed_begins(header, after, chat_id, None, now);
    law_has_is_being_made_of(none, told, none, key_warning(has_key));
    lemma_begins_begin(headed(header, after, chat_id, None, now), header, told);
    if !has_key {
        let q = "⚠ GOOGLE_MAPS_API_KEY is empty in .env"@;
        let w = key_warning(has_key);
        assert(has(w, q)) by {
            reveal_strlit("⚠ GOOGLE_MAPS_API_KEY is empty in .env");
            reveal_strlit(
                "\n\n⚠ GOOGLE_MAPS_API_KEY is empty in .env — saved the point, but commute times won't be calculated.",
            );
            assert(w.subrange(2, 2 + q.len() as int) =~= q);
            assert(stands_at(w, q, 2));
        }
        lemma_has_right(told, w, q);
        lemma_has_left(header, "\n\n"@, q);
        lemma_has_left(header + "\n\n"@, summary(after, chat_id, None, now), q);
    }
}

/// An argument of two coordinates is read as numbers, latitude first; a word that
/// clears takes the work point away; any other argument changes nothing.
pub proof fn law_work_point_argument(s: StateView, chat_id: i64, arg: Seq<char>, now: Moment)
    requires
        arg.len() > 0,
    ensures
        ({
            let before = s.chat_or_fresh(chat_id);
            let plan = point_plan(s, chat_id, arg, now);
            let after = plan.state.chat_or_fresh(chat_id);
            let off = off_word(lowercase(arg));
            &&& after.watches == before.watches
            &&& after.active == before.active
            &&& after.sleep == before.sleep
            &&& after.filter_phone == before.filter_phone
            &&& off ==> after.work_point is None && plan.steps[0] == StepView::Save
            &&& !off ==> plan.state == s && plan.steps.len() == 1
            &&& !off && coord_parts(arg).len() == 2 ==> plan.steps[0] == StepView::ReadPoint {
                lat: coord_parts(arg)[0],
                lng: coord_parts(arg)[1],
            }
            &&& !off && coord_parts(arg).len() != 2 ==> plan.steps[0] is Send && begins(
                plan.steps[0]->text,
                "Bad coordinates: "@,
            )
        }),
{
    let before = s.chat_or_fresh(chat_id);
    law_put_chat_is_found(s, chat_id, ChatView { work_point: None, ..before });
    let e = "expected '<lat>,<lng>'"@;
    let tip =
        "\n\nTip: right-click your office on Google Maps, click the lat,lng to copy, paste here:\n  /work_point 51.8985,-8.4756"@;
    law_has_is_being_made_of(Seq::empty(), "Bad coordinates: "@, Seq::empty(), e + tip);
    assert("Bad coordinates: "@ + (e + tip) =~= bad_coords_text(e));
}

/// A setting without an argument is shown, and changes nothing.
pub proof fn law_setting_without_argument_is_shown(s: StateView, chat_id: i64, now: Moment)
    ensures
        ({
            let none = Seq::<char>::empty();
            let sleep = sleep_plan(s, chat_id, none, now);
            let filter = filter_plan(s, chat_id, none, now);
            let point = point_plan(s, chat_id, none, now);
            &&& sleep.state == s && filter.state == s && point.state == s
            &&& sleep.steps.len() == 1 && filter.steps.len() == 1 && point.steps.len() == 1
            &&& sleep.steps[0] is Send && filter.steps[0] is Send && point.steps[0] is Send
            &&& has(sleep.steps[0]->text, summary(s, chat_id, None, now))
            &&& has(filter.steps[0]->text, summary(s, chat_id, None, now))
            &&& has(point.steps[0]->text, summary(s, chat_id, None, now))
        }),
{
    let told = summary(s, chat_id, None, now);
    let head = "Current settings"@ + "\n\n"@;
    law_has_is_being_made_of(
        Seq::empty(),
        told,
        head,
        "\n\nUsage:\n  /sleep_time 23:00-09:00\n  /sleep_time off"@,
    );
    law_has_is_being_made_of(
        Seq::empty(),
        told,
        head,
        "\n\nUsage:\n  /filter_phone true\n  /filter_phone false"@,
    );
    law_has_is_being_made_of(
        Seq::empty(),
        told,
        head,
        "\n\nUsage:\n  /work_point 51.8985,-8.4756\n  /work_point off"@,
    );
}

/// A check now goes over every watch of the chat, in order, and changes nothing;
/// a chat that is asleep is only told so.
pub proof fn law_check_covers_every_watch(
    s: StateView,
    chat_id: i64,
    help: Seq<char>,
    now: Moment,
    unix: i64,
    i: int,
)
    ensures
        ({
            let chat = s.chat_or_fresh(chat_id);
            let plan = command_plan(s, chat_id, Cmd::Check, help, now, unix);
            let n = chat.watches.len() as int;
            &&& plan.state == s
            &&& asleep(chat.sleep, now.time) ==> plan.steps.len() == 1 && plan.steps[0] is Send
            &&& !asleep(chat.sleep, now.time) ==> {
                &&& plan.steps.len() == n + 2
                &&& plan.steps[0] is Send
                &&& plan.steps[n + 1] is Send
                &&& 0 <= i < n ==> plan.steps[i + 1] == StepView::Check { url: chat.watches[i].url }
            }
        }),
{
    let chat = s.chat_or_fresh(chat_id);
    let plan = check_plan(s, chat_id, now);
    if !asleep(chat.sleep, now.time) && 0 <= i < chat.watches.len() {
        assert(plan.steps[i + 1] == check_steps(chat.watches)[i]);
    }
}

proof fn lemma_url_is_listed(watches: Seq<WatchView>, i: int)
    requires
        0 <= i < watches.len(),
    ensures
        has(
            url_list(watches),
            decimal_text(i + 1) + ". "@ + escaped(watches[i].url) + "\n"@,
        ),
    decreases watches.len(),
{
    let front = url_list(watches.drop_last());
    let n = decimal_text(watches.len() as int);
    let u = escaped(watches.last().url);
    let last = n + ". "@ + u + "\n"@;
    let q = decimal_text(i + 1) + ". "@ + escaped(watches[i].url) + "\n"@;
    assert(front + n + ". "@ + u + "\n"@ =~= front + last);
    if i < watches.len() - 1 {
        lemma_url_is_listed(watches.drop_last(), i);
        assert(watches.drop_last()[i] == watches[i]);
    } else {
        lemma_has_itself(last);
    }
    lemma_has_either(front, last, q);
}

/// The status of a chat with watches tells its settings and lists every watch
/// under its number.
pub proof fn law_status_lists_every_watch(s: StateView, chat_id: i64, now: Moment, i: int)
    requires
        0 <= i < s.chat_or_fresh(chat_id).watches.len(),
    ensures
        begins(status_text(s, chat_id, now), summary(s, chat_id, None, now)),
        has(
            status_text(s, chat_id, now),
            decimal_text(i + 1) + ". "@ + escaped(s.chat_or_fresh(chat_id).watches[i].url) + "\n"@,
        ),
{
    let chat = s.chat_or_fresh(chat_id);
    let told = summary(s, chat_id, None, now);
    let head = told + "\n\nURLs:\n"@;
    let list = url_list(chat.watches);
    lemma_url_is_listed(chat.watches, i);
    lemma_has_right(
        head,
        list,
        decimal_text(i + 1) + ". "@ + escaped(chat.watches[i].url) + "\n"@,
    );
    law_has_is_being_made_of(Seq::empty(), told, Seq::empty(), "\n\nURLs:\n"@ + list);
    assert(told + ("\n\nURLs:\n"@ + list) =~= head + list);
}

/// Clearing the history forgets every listing that was sent and tells how many
/// there were; no chat changes.
pub proof fn law_clearing_forgets_what_was_sent(
    s: StateView,
    chat_id: i64,
    help: Seq<char>,
    now: Moment,
    unix: i64,
    id: u64,
)
    ensures
        ({
            let plan = command_plan(s, chat_id, Cmd::ClearHistory, help, now, unix);
            &&& !plan.state.seen.contains(id)
            &&& plan.state.chats == s.chats
            &&& plan.steps.len() == 2
            &&& plan.steps[0] == StepView::Save
            &&& plan.steps[1] is Send
            &&& begins(
                plan.steps[1]->text,
                "Cleared "@ + decimal_text(s.seen.len() as int) + " ad ID(s) from state. "@,
            )
        }),
{
    let plan = clear_plan(s);
    let n = "Cleared "@ + decimal_text(s.seen.len() as int);
    let long = " ad ID(s) from state. The next check will re-send every current listing."@;
    let short = " ad ID(s) from state. "@;
    assert(long.subrange(0, short.len() as int) == short && short.len() <= long.len()) by {
        reveal_strlit(" ad ID(s) from state. The next check will re-send every current listing.");
        reveal_strlit(" ad ID(s) from state. ");
        assert(long.subrange(0, short.len() as int) =~= short);
    }
    let t = n + long;
    let q = n + short;
    assert(t.subrange(0, q.len() as int) =~= q) by {
        assert forall|i: int| 0 <= i < q.len() implies t[i] == q[i] by {
            if i >= n.len() {
                assert(long.subrange(0, short.len() as int)[i - n.len()] == long[i - n.len()]);
            }
        }
    }
}

/// Help and the map are one step and change nothing; help begins with the list
/// of commands.
pub proof fn law_help_and_map_change_nothing(
    s: StateView,
    chat_id: i64,
    help: Seq<char>,
    now: Moment,
    unix: i64,
)
    ensures
        ({
            let start = command_plan(s, chat_id, Cmd::Start, help, now, unix);
            let plan = command_plan(s, chat_id, Cmd::Help, help, now, unix);
            let map = command_plan(s, chat_id, Cmd::ShowMap, help, now, unix);
            &&& start == plan
            &&& plan.state == s
            &&& plan.steps.len() == 1
            &&& plan.steps[0] is Send
            &&& begins(plan.steps[0]->text, help)
            &&& map.state == s
            &&& map.steps == seq![StepView::ShowMap]
        }),
{
    law_has_is_being_made_of(
        Seq::empty(),
        help,
        Seq::empty(),
        "\n\nOr just paste a daft.ie URL.\nI check every 10 minutes and DM new listings."@,
    );
}

/// White space around the argument of a command does not count.
pub proof fn law_space_around_an_argument_does_not_count(
    s: StateView,
    chat_id: i64,
    a: String,
    b: String,
    help: Seq<char>,
    now: Moment,
    unix: i64,
)
    requires
        trimmed(a@) == b@,
    ensures
        command_plan(s, chat_id, Cmd::Watch(a), help, now, unix) == command_plan(
            s,
            chat_id,
            Cmd::Watch(b),
            help,
            now,
            unix,
        ),
        command_plan(s, chat_id, Cmd::Unwatch(a), help, now, unix) == command_plan(
            s,
            chat_id,
            Cmd::Unwatch(b),
            help,
            now,
            unix,
        ),
        command_plan(s, chat_id, Cmd::SleepTime(a), help, now, unix) == command_plan(
            s,
            chat_id,
            Cmd::SleepTime(b),
            help,
            now,
            unix,
        ),
        command_plan(s, chat_id, Cmd::FilterPhone(a), help, now, unix) == command_plan(
            s,
            chat_id,
            Cmd::FilterPhone(b),
            help,
            now,
            unix,
        ),
        command_plan(s, chat_id, Cmd::WorkPoint(a), help, now, unix) == command_plan(
            s,
            chat_id,
            Cmd::WorkPoint(b),
            help,
            now,
            unix,
        ),
{
    law_trim_is_idempotent(a@);
}

/// Each command with an argument does what is asked of it with that argument.
pub proof fn law_commands_are_told_apart(
    s: StateView,
    chat_id: i64,
    arg: String,
    help: Seq<char>,
    now: Moment,
    unix: i64,
)
    ensures
        trimmed(arg@).len() > 0 ==> command_plan(s, chat_id, Cmd::Watch(arg), help, now, unix)
            == watch_plan(s, chat_id, trimmed(arg@), now, unix),
        trimmed(arg@).len() == 0 ==> command_plan(s, chat_id, Cmd::Watch(arg), help, now, unix).state
            == s,
        command_plan(s, chat_id, Cmd::Unwatch(arg), help, now, unix) == unwatch_plan(
            s,
            chat_id,
            trimmed(arg@),
        ),
        command_plan(s, chat_id, Cmd::SleepTime(arg), help, now, unix) == sleep_plan(
            s,
            chat_id,
            trimmed(arg@),
            now,
        ),
        command_plan(s, chat_id, Cmd::FilterPhone(arg), help, now, unix) == filter_plan(
            s,
            chat_id,
            trimmed(arg@),
            now,
        ),
        command_plan(s, chat_id, Cmd::WorkPoint(arg), help, now, unix) == point_plan(
            s,
            chat_id,
            trimmed(arg@),
            now,
        ),
{
}

/// A text is watched as an address exactly where it begins with `http://` or
/// `https://`, white space before it aside, and holds `daft.ie`; then it is
/// treated as the command to watch it. Any other text changes nothing, checks
/// nothing and is answered once.
pub proof fn law_pasted_addresses_are_watched(
    s: StateView,
    chat_id: i64,
    text: String,
    help: Seq<char>,
    now: Moment,
    unix: i64,
)
    ensures
        ({
            let t = trimmed(text@);
            let web = begins(t, "http://"@) || begins(t, "https://"@);
            let plan = text_plan(s, chat_id, text@, now, unix);
            &&& web && has(t, "daft.ie"@) ==> plan == command_plan(
                s,
                chat_id,
                Cmd::Watch(text),
                help,
                now,
                unix,
            )
            &&& !(web && has(t, "daft.ie"@)) ==> plan.state == s && plan.steps.len() == 1
                && plan.steps[0] is Send
        }),
{
    let t = trimmed(text@);
    assert(begins(t, "http://"@) || begins(t, "https://"@) ==> t.len() > 0) by {
        reveal_strlit("http://");
        reveal_strlit("https://");
    }
}

/// Stopping a watch that a chat does not have keeps all of its watches and
/// settings and says that there is none.
pub proof fn law_unknown_watch_is_not_stopped(
    s: StateView,
    chat_id: i64,
    key: Seq<char>,
    n: int,
)
    requires
        ({
            let watches = s.chat_or_fresh(chat_id).watches;
            &&& forall|i: int| 0 <= i < watches.len() ==> (#[trigger] watches[i]).url != key
            &&& n == 0 || n > watches.len()
            &&& key == decimal_text(n) || exists|i: int|
                0 <= i < key.len() && !('0' <= #[trigger] key[i] <= '9') && key[i] != '+'
        }),
    ensures
        ({
            let plan = unwatch_plan(s, chat_id, key);
            &&& plan.state.chat_or_fresh(chat_id) == s.chat_or_fresh(chat_id)
            &&& plan.steps.len() == 1
            &&& plan.steps[0] == StepView::Send {
                text: "Not found. Use /status to see your watches."@,
                html: false,
            }
        }),
{
    let chat = s.chat_or_fresh(chat_id);
    law_unknown_key_stops_nothing(chat, key, n);
    law_put_chat_is_found(s, chat_id, chat);
    if chat.told_by(key) < chat.watches.len() {
        lemma_watch_index(chat.watches, key);
        assert(chat.without_told(key).watches.len() == chat.watches.len() - 1);
    }
}

} // verus!
