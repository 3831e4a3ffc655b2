//! The bot's commands, the reading of their arguments, and the summary of a
//! chat's settings.

use vstd::prelude::*;

use crate::caption::{map_link, push_map_link};
use crate::clock::{Moment, TimeOfDay};
use crate::geo::Point;
use crate::html::{escaped, html_escape};
use crate::number::{decimal_text, push_decimal};
use crate::sleep::{asleep, in_window, parse, str_view, window};
use crate::state::{ChatState, ChatView, State, StateView};
use crate::text::{
    all_ascii, ascii_lowered, chars_of, copy_of, has, is_white, is_whitespace,
    law_split_joins_back, lemma_has_either, lemma_has_itself, lemma_seek_is,
    lowercase, same, split, split_char, split_from, string_of, to_lowercase, trim, trimmed, views,
};

verus! {

/// A command to the bot, with its argument where it takes one.
#[derive(Clone, Debug)]
pub enum Cmd {
    Start,
    Help,
    Watch(String),
    Unwatch(String),
    Status,
    Check,
    StartWatching,
    StopWatching,
    SleepTime(String),
    FilterPhone(String),
    WorkPoint(String),
    ShowMap,
    ClearHistory,
}

impl Cmd {
    /// The name of this command.
    pub open spec fn label(self) -> Seq<char> {
        match self {
            Cmd::Start => "/start"@,
            Cmd::Help => "/help"@,
            Cmd::Watch(_) => "/watch"@,
            Cmd::Unwatch(_) => "/unwatch"@,
            Cmd::Status => "/status"@,
            Cmd::Check => "/check"@,
            Cmd::StartWatching => "/start_watching"@,
            Cmd::StopWatching => "/stop_watching"@,
            Cmd::SleepTime(_) => "/sleep_time"@,
            Cmd::FilterPhone(_) => "/filter_phone"@,
            Cmd::WorkPoint(_) => "/work_point"@,
            Cmd::ShowMap => "/map"@,
            Cmd::ClearHistory => "/clear_history"@,
        }
    }
}

/// The name of a command.
pub fn cmd_label(cmd: &Cmd) -> (r: &'static str)
    ensures
        r@ == cmd.label(),
{
    match cmd {
        Cmd::Start => "/start",
        Cmd::Help => "/help",
        Cmd::Watch(_) => "/watch",
        Cmd::Unwatch(_) => "/unwatch",
        Cmd::Status => "/status",
        Cmd::Check => "/check",
        Cmd::StartWatching => "/start_watching",
        Cmd::StopWatching => "/stop_watching",
        Cmd::SleepTime(_) => "/sleep_time",
        Cmd::FilterPhone(_) => "/filter_phone",
        Cmd::WorkPoint(_) => "/work_point",
        Cmd::ShowMap => "/map",
        Cmd::ClearHistory => "/clear_history",
    }
}

/// Who sent a message.
#[derive(Debug)]
pub struct Sender {
    pub username: Option<String>,
    pub first_name: String,
}

/// What a sender is called in the log.
pub open spec fn sender_label(from: Option<Sender>) -> Seq<char> {
    match from {
        Some(u) => match u.username {
            Some(n) => "@"@ + n@,
            None => u.first_name@,
        },
        None => "?"@,
    }
}

/// What a sender is called in the log: the user name with `@` before it, or else
/// the first name; `?` where there is no sender.
pub fn user_label(from: &Option<Sender>) -> (r: String)
    ensures
        r@ == sender_label(*from),
{
    match from {
        Some(u) => match &u.username {
            Some(n) => {
                let mut out = copy_of("@");
                out.append(n.as_str());
                out
            },
            None => u.first_name.clone(),
        },
        None => copy_of("?"),
    }
}

/// The value that a word gives to a switch.
pub open spec fn bool_word(w: Seq<char>) -> Option<bool> {
    if w == "true"@ || w == "on"@ || w == "1"@ || w == "yes"@ || w == "y"@ {
        Some(true)
    } else if w == "false"@ || w == "off"@ || w == "0"@ || w == "no"@ || w == "n"@ {
        Some(false)
    } else {
        None
    }
}

/// The value that the argument of a switch gives; capitals and white space
/// around it do not count.
pub fn parse_bool_arg(s: &str) -> (r: Option<bool>)
    ensures
        r == bool_word(lowercase(trimmed(s@))),
        all_ascii(trimmed(s@)) ==> r == bool_word(ascii_lowered(trimmed(s@))),
{
    let t = trim(s);
    let lower = to_lowercase(t.as_str());
    let w = lower.as_str();
    if same(w, "true") || same(w, "on") || same(w, "1") || same(w, "yes") || same(w, "y") {
        Some(true)
    } else if same(w, "false") || same(w, "off") || same(w, "0") || same(w, "no") || same(w, "n") {
        Some(false)
    } else {
        None
    }
}

/// Whether a word clears a setting.
pub open spec fn off_word(w: Seq<char>) -> bool {
    w == "off"@ || w == "none"@ || w == "-"@ || w == "0"@ || w == "clear"@
}

/// Whether an argument clears a setting; capitals do not count.
pub(crate) fn is_off(arg: &str) -> (r: bool)
    ensures
        r == off_word(lowercase(arg@)),
{
    let lower = to_lowercase(arg);
    let w = lower.as_str();
    same(w, "off") || same(w, "none") || same(w, "-") || same(w, "0") || same(w, "clear")
}

/// A text without the round brackets at its beginning.
pub open spec fn strip_front(s: Seq<char>) -> Seq<char>
    decreases s.len(),
{
    if s.len() > 0 && (s[0] == '(' || s[0] == ')') {
        strip_front(s.skip(1))
    } else {
        s
    }
}

/// A text without the round brackets at its end.
pub open spec fn strip_back(s: Seq<char>) -> Seq<char>
    decreases s.len(),
{
    if s.len() > 0 && (s.last() == '(' || s.last() == ')') {
        strip_back(s.drop_last())
    } else {
        s
    }
}

/// A text with a comma for each white space.
pub open spec fn commas_for_white(s: Seq<char>) -> Seq<char> {
    s.map_values(
        |c: char|
            if is_white(c) {
                ','
            } else {
                c
            },
    )
}

/// The parts of a pair of coordinates: what commas and white space separate,
/// after brackets around all of it are taken off.
pub open spec fn coord_parts(s: Seq<char>) -> Seq<Seq<char>> {
    split(commas_for_white(strip_back(strip_front(trimmed(s)))), ',').filter(
        |p: Seq<char>| p.len() > 0,
    )
}

/// A text without the round brackets at its two ends.
fn strip_brackets(s: &str) -> (r: String)
    ensures
        r@ == strip_back(strip_front(s@)),
{
    let cs = chars_of(s);
    let n: usize = cs.len();
    let mut lo: usize = 0;
    assert(cs@.skip(0) =~= cs@);
    while lo < n && (cs[lo] == '(' || cs[lo] == ')')
        invariant
            lo <= n,
            n == cs@.len(),
            strip_front(cs@.skip(lo as int)) == strip_front(cs@),
        decreases n - lo,
    {
        assert(cs@.skip(lo as int)[0] == cs@[lo as int]);
        assert(cs@.skip(lo as int).skip(1) =~= cs@.skip(lo + 1));
        lo = lo + 1;
    }
    let ghost t = cs@.skip(lo as int);
    assert(strip_front(cs@) == t) by {
        if lo < n {
            assert(t[0] == cs@[lo as int]);
        }
    }
    let mut hi: usize = n;
    assert(cs@.subrange(lo as int, n as int) =~= t);
    while hi > lo && (cs[hi - 1] == '(' || cs[hi - 1] == ')')
        invariant
            lo <= hi <= n,
            n == cs@.len(),
            strip_back(cs@.subrange(lo as int, hi as int)) == strip_back(t),
        decreases hi,
    {
        let ghost u = cs@.subrange(lo as int, hi as int);
        assert(u.last() == cs@[hi - 1]);
        assert(u.drop_last() =~= cs@.subrange(lo as int, hi - 1));
        hi = hi - 1;
    }
    proof {
        let u = cs@.subrange(lo as int, hi as int);
        if hi > lo {
            assert(u.last() == cs@[hi - 1]);
        }
    }
    string_of(&cs, lo, hi)
}

/// The texts of the latitude and the longitude in an argument; none where it
/// has not two parts.
pub fn split_coords(s: &str) -> (r: Option<(String, String)>)
    ensures
        match r {
            Some((lat, lng)) => coord_parts(s@).len() == 2 && lat@ == coord_parts(s@)[0] && lng@
                == coord_parts(s@)[1],
            None => coord_parts(s@).len() != 2,
        },
{
    let t = trim(s);
    let bare = strip_brackets(t.as_str());
    let cs = chars_of(bare.as_str());
    let mut commas = String::new();
    for i in 0..cs.len()
        invariant
            cs@ == bare@,
            commas@ == commas_for_white(bare@.take(i as int)),
    {
        if is_whitespace(cs[i]) {
            commas.push(',');
        } else {
            commas.push(cs[i]);
        }
        assert(commas@ =~= commas_for_white(bare@.take(i + 1)));
    }
    assert(bare@.take(bare@.len() as int) =~= bare@);
    let pieces = split_char(commas.as_str(), ',');
    let ghost all = views(pieces@);
    let ghost p = |p: Seq<char>| p.len() > 0;
    let mut parts: Vec<String> = Vec::new();
    assert(views(parts@) =~= all.take(0).filter(p)) by {
        reveal(Seq::filter);
        assert(all.take(0) =~= Seq::<Seq<char>>::empty());
    }
    for i in 0..pieces.len()
        invariant
            all == views(pieces@),
            p == |p: Seq<char>| p.len() > 0,
            views(parts@) == all.take(i as int).filter(p),
    {
        let ghost before = parts@;
        proof {
            reveal(Seq::filter);
            assert(all.take(i + 1).drop_last() =~= all.take(i as int));
            assert(all.take(i + 1).last() == pieces@[i as int]@);
        }
        if !pieces[i].as_str().is_empty() {
            parts.push(pieces[i].clone());
            assert(views(parts@) =~= views(before).push(pieces@[i as int]@));
        }
    }
    proof {
        assert(all.take(pieces@.len() as int) =~= all);
        assert(views(parts@) == coord_parts(s@));
        assert(forall|i: int| 0 <= i < parts@.len() ==> views(parts@)[i] == parts@[i]@);
    }
    if parts.len() == 2 {
        Some((parts[0].clone(), parts[1].clone()))
    } else {
        None
    }
}

/// When a sleep window ends.
pub open spec fn until_text(win: Seq<char>) -> Seq<char> {
    match window(win) {
        Ok((_, end)) => end.text(),
        Err(_) => Seq::empty(),
    }
}

/// The line of the summary on the sleep window.
pub open spec fn sleep_line(sleep: Option<Seq<char>>, time: TimeOfDay) -> Seq<char> {
    match sleep {
        Some(win) => if asleep(sleep, time) {
            "😴 Sleep: <b>"@ + escaped(win) + "</b> (sleeping now, until "@ + escaped(
                until_text(win),
            ) + ")\n"@
        } else {
            "😴 Sleep: <b>"@ + escaped(win) + "</b>\n"@
        },
        None => "😴 Sleep: <b>off</b>\n"@,
    }
}

/// The line of the summary on the work point.
pub open spec fn work_line(work_point: Option<Point>) -> Seq<char> {
    match work_point {
        Some(p) => "🏢 Work point: "@ + map_link(p.lat, p.lng) + p.lat.fixed@ + ","@ + p.lng.fixed@
            + "</a>\n"@,
        None => "🏢 Work point: <b>off</b>\n"@,
    }
}

/// The summary of a chat's settings, in HTML.
pub open spec fn chat_summary(
    c: ChatView,
    seen: int,
    url: Option<Seq<char>>,
    now: Moment,
) -> Seq<char> {
    (match url {
        Some(u) => "🔗 "@ + escaped(u) + "\n"@,
        None => Seq::empty(),
    }) + (if c.active {
        "Watcher: <b>ACTIVE</b>\n"@
    } else {
        "Watcher: <b>STOPPED</b>\n"@
    }) + sleep_line(c.sleep, now.time) + ("🕐 Bot time now: "@ + now.clock@ + "\n"@) + (
    if c.filter_phone {
        "📞 Phone filter: <b>on</b>\n"@
    } else {
        "📞 Phone filter: <b>off</b>\n"@
    }) + work_line(c.work_point) + ("Watches: <b>"@ + decimal_text(c.watches.len() as int)
        + "</b>\n"@) + ("Sent ads recorded: <b>"@ + decimal_text(seen) + "</b>"@)
}

/// The summary of the settings of the chat with a number.
pub open spec fn summary(
    s: StateView,
    chat_id: i64,
    url: Option<Seq<char>>,
    now: Moment,
) -> Seq<char> {
    chat_summary(s.chat_or_fresh(chat_id), s.seen.len() as int, url, now)
}

/// Appends the line of the summary on the sleep window.
fn push_sleep_line(out: &mut String, c: &ChatState, now: &Moment)
    ensures
        final(out)@ == old(out)@ + sleep_line(c@.sleep, now.time),
{
    match &c.sleep {
        Some(win) => {
            out.append("😴 Sleep: <b>");
            out.append(html_escape(win.as_str()).as_str());
            if c.is_asleep(now.time) {
                let until = match parse(win.as_str()) {
                    Ok((_, end)) => end.hour_minute(),
                    Err(_) => String::new(),
                };
                out.append("</b> (sleeping now, until ");
                out.append(html_escape(until.as_str()).as_str());
                out.append(")\n");
            } else {
                out.append("</b>\n");
            }
            assert(out@ =~= old(out)@ + sleep_line(c@.sleep, now.time));
        },
        None => {
            out.append("😴 Sleep: <b>off</b>\n");
        },
    }
}

/// Appends the line of the summary on the work point.
fn push_work_line(out: &mut String, work_point: &Option<Point>)
    ensures
        final(out)@ == old(out)@ + work_line(*work_point),
{
    match work_point {
        Some(p) => {
            out.append("🏢 Work point: ");
            push_map_link(out, &p.lat, &p.lng);
            out.append(p.lat.fixed.as_str());
            out.append(",");
            out.append(p.lng.fixed.as_str());
            out.append("</a>\n");
            assert(out@ =~= old(out)@ + work_line(*work_point));
        },
        None => {
            out.append("🏢 Work point: <b>off</b>\n");
        },
    }
}

/// The summary of a chat's settings, in HTML.
fn render_chat_summary(c: &ChatState, seen: usize, url: Option<&str>, now: &Moment) -> (r: String)
    ensures
        r@ == chat_summary(c@, seen as int, str_view(url), *now),
{
    let mut out = String::new();
    match url {
        Some(u) => {
            out.append("🔗 ");
            out.append(html_escape(u).as_str());
            out.append("\n");
            assert(out@ =~= "🔗 "@ + escaped(u@) + "\n"@);
        },
        None => {},
    }
    if c.active {
        out.append("Watcher: <b>ACTIVE</b>\n");
    } else {
        out.append("Watcher: <b>STOPPED</b>\n");
    }
    push_sleep_line(&mut out, c, now);
    let ghost a = out@;
    out.append("🕐 Bot time now: ");
    out.append(now.clock.as_str());
    out.append("\n");
    assert(out@ =~= a + ("🕐 Bot time now: "@ + now.clock@ + "\n"@));
    if c.filter_phone {
        out.append("📞 Phone filter: <b>on</b>\n");
    } else {
        out.append("📞 Phone filter: <b>off</b>\n");
    }
    push_work_line(&mut out, &c.work_point);
    let ghost b = out@;
    out.append("Watches: <b>");
    push_decimal(&mut out, c.watches.len() as u64);
    out.append("</b>\n");
    assert(out@ =~= b + ("Watches: <b>"@ + decimal_text(c@.watches.len() as int) + "</b>\n"@));
    let ghost d = out@;
    out.append("Sent ads recorded: <b>");
    push_decimal(&mut out, seen as u64);
    out.append("</b>");
    assert(out@ =~= d + ("Sent ads recorded: <b>"@ + decimal_text(seen as int) + "</b>"@));
    out
}

/// The summary, in HTML, of the settings of the chat with a number, at a moment.
pub fn render_state_summary_at(
    s: &State,
    chat_id: i64,
    current_url: Option<&str>,
    now: &Moment,
) -> (r: String)
    ensures
        r@ == summary(s@, chat_id, str_view(current_url), *now),
{
    match s.chat_get(chat_id) {
        Some(c) => render_chat_summary(c, s.seen_count(), current_url, now),
        None => render_chat_summary(&ChatState::default(), s.seen_count(), current_url, now),
    }
}

/// The summary, in HTML, of the settings of the chat with a number, with the
/// time that the clock shows.
pub fn render_state_summary(s: &State, chat_id: i64, current_url: Option<&str>) -> (r: String)
    ensures
        exists|now: Moment| #[trigger]
            now.wf() && r@ == summary(s@, chat_id, str_view(current_url), now),
{
    let now = Moment::now();
    assert(now.wf());
    render_state_summary_at(s, chat_id, current_url, &now)
}

/// These words, and no others, switch a setting on or off.
pub proof fn law_words_of_a_switch(w: Seq<char>)
    ensures
        bool_word(w) == Some(true) <==> w == seq!['t', 'r', 'u', 'e'] || w == seq!['o', 'n'] || w
            == seq!['1'] || w == seq!['y', 'e', 's'] || w == seq!['y'],
        bool_word(w) == Some(false) <==> w == seq!['f', 'a', 'l', 's', 'e'] || w == seq![
            'o',
            'f',
            'f',
        ] || w == seq!['0'] || w == seq!['n', 'o'] || w == seq!['n'],
{
    reveal_strlit("true");
    reveal_strlit("on");
    reveal_strlit("1");
    reveal_strlit("yes");
    reveal_strlit("y");
    reveal_strlit("false");
    reveal_strlit("off");
    reveal_strlit("0");
    reveal_strlit("no");
    reveal_strlit("n");
    assert("true"@ =~= seq!['t', 'r', 'u', 'e']);
    assert("on"@ =~= seq!['o', 'n']);
    assert("1"@ =~= seq!['1']);
    assert("yes"@ =~= seq!['y', 'e', 's']);
    assert("y"@ =~= seq!['y']);
    assert("false"@ =~= seq!['f', 'a', 'l', 's', 'e']);
    assert("off"@ =~= seq!['o', 'f', 'f']);
    assert("0"@ =~= seq!['0']);
    assert("no"@ =~= seq!['n', 'o']);
    assert("n"@ =~= seq!['n']);
    assert(seq!['t', 'r', 'u', 'e'][0] == 't');
    assert(seq!['o', 'n'][1] == 'n');
    assert(seq!['1'][0] == '1');
    assert(seq!['y', 'e', 's'][0] == 'y');
    assert(seq!['y'][0] == 'y');
}

/// These words, and no others, clear a setting.
pub proof fn law_words_that_clear(w: Seq<char>)
    ensures
        off_word(w) <==> w == seq!['o', 'f', 'f'] || w == seq!['n', 'o', 'n', 'e'] || w == seq!['-']
            || w == seq!['0'] || w == seq!['c', 'l', 'e', 'a', 'r'],
{
    reveal_strlit("off");
    reveal_strlit("none");
    reveal_strlit("-");
    reveal_strlit("0");
    reveal_strlit("clear");
    assert("off"@ =~= seq!['o', 'f', 'f']);
    assert("none"@ =~= seq!['n', 'o', 'n', 'e']);
    assert("-"@ =~= seq!['-']);
    assert("0"@ =~= seq!['0']);
    assert("clear"@ =~= seq!['c', 'l', 'e', 'a', 'r']);
}

/// A sender with a user name is called by it, with `@` before it, one without by
/// the first name, and none at all `?`.
pub proof fn law_sender_is_called_by_name(u: Sender)
    ensures
        u.username matches Some(n) ==> sender_label(Some(u)) == seq!['@'] + n@,
        u.username is None ==> sender_label(Some(u)) == u.first_name@,
        sender_label(None) == seq!['?'],
{
    reveal_strlit("@");
    reveal_strlit("?");
    assert("@"@ =~= seq!['@']);
    assert("?"@ =~= seq!['?']);
}

proof fn lemma_one_filtered(x: Seq<char>, rest: Seq<Seq<char>>)
    ensures
        (seq![x] + rest).filter(|p: Seq<char>| p.len() > 0) == (if x.len() > 0 {
            seq![x]
        } else {
            Seq::empty()
        }) + rest.filter(|p: Seq<char>| p.len() > 0),
{
    let f = |p: Seq<char>| p.len() > 0;
    let one = seq![x];
    Seq::filter_distributes_over_add(one, rest, f);
    assert(one.filter(f) =~= if x.len() > 0 {
        seq![x]
    } else {
        Seq::empty()
    }) by {
        reveal(Seq::filter);
        assert(one.drop_last() =~= Seq::<Seq<char>>::empty());
        assert(one.drop_last().filter(f) =~= Seq::<Seq<char>>::empty());
    }
}

proof fn lemma_after_the_commas(s: Seq<char>, b: Seq<char>, from: int, start: int)
    requires
        0 <= from <= start <= s.len(),
        forall|i: int| from <= i < start ==> s[i] == ',',
        s.skip(start) == b,
        b.len() > 0,
        forall|i: int| 0 <= i < b.len() ==> b[i] != ',',
    ensures
        split_from(s, ',', from).filter(|p: Seq<char>| p.len() > 0) == seq![b],
    decreases start - from,
{
    let none = Seq::<Seq<char>>::empty();
    let f = |p: Seq<char>| p.len() > 0;
    if from < start {
        assert(s[from] == ',');
        lemma_seek_is(s, ',', from, from);
        assert(s.subrange(from, from) =~= Seq::<char>::empty());
        lemma_one_filtered(s.subrange(from, from), split_from(s, ',', from + 1));
        lemma_after_the_commas(s, b, from + 1, start);
        assert(Seq::<Seq<char>>::empty() + seq![b] =~= seq![b]);
    } else {
        assert forall|j: int| from <= j < s.len() implies s[j] != ',' by {
            assert(s[j] == b[j - start]);
        }
        lemma_seek_is(s, ',', from, s.len() as int);
        assert(split_from(s, ',', from) =~= seq![b] + none);
        lemma_one_filtered(b, none);
        assert(none.filter(f) =~= none) by {
            reveal(Seq::filter);
        }
        assert(seq![b] + none =~= seq![b]);
    }
}

proof fn lemma_strip_front_is(open: Seq<char>, s: Seq<char>)
    requires
        forall|i: int| 0 <= i < open.len() ==> #[trigger] open[i] == '(' || open[i] == ')',
        s.len() > 0 && s[0] != '(' && s[0] != ')',
    ensures
        strip_front(open + s) == s,
    decreases open.len(),
{
    if open.len() == 0 {
        assert(open + s =~= s);
    } else {
        let t = open.skip(1);
        assert forall|i: int| 0 <= i < t.len() implies #[trigger] t[i] == '(' || t[i] == ')' by {
            assert(t[i] == open[i + 1]);
        }
        assert((open + s)[0] == open[0]);
        assert((open + s).skip(1) =~= t + s);
        lemma_strip_front_is(t, s);
    }
}

proof fn lemma_strip_back_is(s: Seq<char>, close: Seq<char>)
    requires
        forall|i: int| 0 <= i < close.len() ==> #[trigger] close[i] == '(' || close[i] == ')',
        s.len() > 0 && s.last() != '(' && s.last() != ')',
    ensures
        strip_back(s + close) == s,
    decreases close.len(),
{
    if close.len() == 0 {
        assert(s + close =~= s);
    } else {
        let t = close.drop_last();
        assert forall|i: int| 0 <= i < t.len() implies #[trigger] t[i] == '(' || t[i] == ')' by {
            assert(t[i] == close[i]);
        }
        assert((s + close).last() == close[close.len() - 1]);
        assert((s + close).drop_last() =~= s + t);
        lemma_strip_back_is(s, t);
    }
}

/// Two coordinates with commas or white space between them, and with brackets
/// around them or none, are the two parts of the pair, in their order.
pub proof fn law_pair_has_two_parts(
    open: Seq<char>,
    a: Seq<char>,
    between: Seq<char>,
    b: Seq<char>,
    close: Seq<char>,
)
    requires
        a.len() > 0 && b.len() > 0 && between.len() > 0,
        forall|i: int| 0 <= i < open.len() ==> #[trigger] open[i] == '(' || open[i] == ')',
        forall|i: int| 0 <= i < close.len() ==> #[trigger] close[i] == '(' || close[i] == ')',
        forall|i: int|
            0 <= i < between.len() ==> #[trigger] between[i] == ',' || is_white(between[i]),
        forall|i: int|
            0 <= i < a.len() ==> #[trigger] a[i] != ',' && !is_white(a[i]) && a[i] != '(' && a[i]
                != ')',
        forall|i: int|
            0 <= i < b.len() ==> #[trigger] b[i] != ',' && !is_white(b[i]) && b[i] != '(' && b[i]
                != ')',
    ensures
        coord_parts(open + (a + between + b) + close) == seq![a, b],
{
    let mid = a + between + b;
    let s = open + mid + close;
    assert(a[0] != ',');
    assert(b[b.len() - 1] != ',');
    assert(mid[0] == a[0] && mid.last() == b.last());
    assert(!is_white(s[0])) by {
        if open.len() > 0 {
            assert(s[0] == open[0]);
        } else {
            assert(s[0] == a[0]);
        }
    }
    assert(!is_white(s.last())) by {
        if close.len() > 0 {
            assert(s.last() == close[close.len() - 1]);
        } else {
            assert(s.last() == b.last());
        }
    }
    assert(trimmed(s) == s);
    assert(s =~= open + (mid + close));
    assert((mid + close)[0] == a[0]);
    lemma_strip_front_is(open, mid + close);
    lemma_strip_back_is(mid, close);
    let t = commas_for_white(mid);
    assert forall|i: int| 0 <= i < a.len() implies t[i] == a[i] by {
        assert(mid[i] == a[i]);
    }
    let start = (a.len() + between.len()) as int;
    assert forall|i: int| a.len() <= i < start implies t[i] == ',' by {
        assert(mid[i] == between[i - a.len()]);
    }
    assert forall|i: int| 0 <= i < b.len() implies #[trigger] t[start + i] == b[i] by {
        assert(mid[start + i] == b[i]);
    }
    assert(t.skip(start) =~= b) by {
        assert forall|i: int| 0 <= i < b.len() implies t.skip(start)[i] == b[i] by {
            assert(t[start + i] == b[i]);
        }
    }
    lemma_seek_is(t, ',', 0, a.len() as int);
    assert(t.subrange(0, a.len() as int) =~= a);
    lemma_one_filtered(a, split_from(t, ',', a.len() as int + 1));
    lemma_after_the_commas(t, b, a.len() as int + 1, start);
    assert(seq![a] + seq![b] =~= seq![a, b]);
}

proof fn lemma_filtered_is_among(s: Seq<Seq<char>>, f: spec_fn(Seq<char>) -> bool, i: int)
    requires
        0 <= i < s.filter(f).len(),
    ensures
        s.contains(s.filter(f)[i]),
        f(s.filter(f)[i]),
    decreases s.len(),
{
    reveal(Seq::filter);
    let front = s.drop_last();
    if f(s.last()) && i == s.filter(f).len() - 1 {
        assert(s.filter(f)[i] == s.last());
        assert(s[s.len() - 1] == s.last());
    } else {
        lemma_filtered_is_among(front, f, i);
        let x = s.filter(f)[i];
        assert(x == front.filter(f)[i]);
        let j = choose|j: int| 0 <= j < front.len() && front[j] == x;
        assert(s[j] == x);
    }
}

/// No part of a pair is empty, and none holds a comma.
pub proof fn law_parts_hold_no_separator(s: Seq<char>, i: int, k: int)
    requires
        0 <= i < coord_parts(s).len(),
    ensures
        coord_parts(s)[i].len() > 0,
        0 <= k < coord_parts(s)[i].len() ==> coord_parts(s)[i][k] != ',',
{
    let pieces = split(commas_for_white(strip_back(strip_front(trimmed(s)))), ',');
    let f = |p: Seq<char>| p.len() > 0;
    let part = coord_parts(s)[i];
    assert(part == pieces.filter(f)[i]);
    lemma_filtered_is_among(pieces, f, i);
    law_split_joins_back(commas_for_white(strip_back(strip_front(trimmed(s)))), ',');
    let j = choose|j: int| 0 <= j < pieces.len() && pieces[j] == part;
    if 0 <= k < part.len() {
        assert(pieces[j][k] != ',');
    }
}

proof fn lemma_has_eight(
    a: Seq<char>,
    b: Seq<char>,
    c: Seq<char>,
    d: Seq<char>,
    e: Seq<char>,
    f: Seq<char>,
    g: Seq<char>,
    h: Seq<char>,
    q: Seq<char>,
)
    requires
        q == a || q == b || q == c || q == d || q == e || q == f || q == g || q == h,
    ensures
        has(a + b + c + d + e + f + g + h, q),
{
    lemma_has_itself(q);
    lemma_has_either(a, b, q);
    lemma_has_either(a + b, c, q);
    lemma_has_either(a + b + c, d, q);
    lemma_has_either(a + b + c + d, e, q);
    lemma_has_either(a + b + c + d + e, f, q);
    lemma_has_either(a + b + c + d + e + f, g, q);
    lemma_has_either(a + b + c + d + e + f + g, h, q);
}

proof fn lemma_summary_has(
    c: ChatView,
    seen: int,
    url: Option<Seq<char>>,
    now: Moment,
    q: Seq<char>,
)
    requires
        (url matches Some(u) && q == "🔗 "@ + escaped(u) + "\n"@) || (c.active && q
            == "Watcher: <b>ACTIVE</b>\n"@) || (!c.active && q == "Watcher: <b>STOPPED</b>\n"@) || q
            == sleep_line(c.sleep, now.time) || q == "🕐 Bot time now: "@ + now.clock@ + "\n"@ || (
        c.filter_phone && q == "📞 Phone filter: <b>on</b>\n"@) || (!c.filter_phone && q
            == "📞 Phone filter: <b>off</b>\n"@) || q == work_line(c.work_point) || q
            == "Watches: <b>"@ + decimal_text(c.watches.len() as int) + "</b>\n"@ || q
            == "Sent ads recorded: <b>"@ + decimal_text(seen) + "</b>"@,
    ensures
        has(chat_summary(c, seen, url, now), q),
{
    lemma_has_eight(
        match url {
            Some(u) => "🔗 "@ + escaped(u) + "\n"@,
            None => Seq::empty(),
        },
        if c.active {
            "Watcher: <b>ACTIVE</b>\n"@
        } else {
            "Watcher: <b>STOPPED</b>\n"@
        },
        sleep_line(c.sleep, now.time),
        "🕐 Bot time now: "@ + now.clock@ + "\n"@,
        if c.filter_phone {
            "📞 Phone filter: <b>on</b>\n"@
        } else {
            "📞 Phone filter: <b>off</b>\n"@
        },
        work_line(c.work_point),
        "Watches: <b>"@ + decimal_text(c.watches.len() as int) + "</b>\n"@,
        "Sent ads recorded: <b>"@ + decimal_text(seen) + "</b>"@,
        q,
    );
}

/// The summary tells the address that was asked of, whether the chat is watched
/// for, the clock, the phone filter, how many watches there are and how many
/// listings were sent.
pub proof fn law_summary_tells_the_chat(c: ChatView, seen: int, url: Option<Seq<char>>, now: Moment)
    ensures
        url matches Some(u) ==> has(chat_summary(c, seen, url, now), "🔗 "@ + escaped(u) + "\n"@),
        c.active ==> has(chat_summary(c, seen, url, now), "Watcher: <b>ACTIVE</b>\n"@),
        !c.active ==> has(chat_summary(c, seen, url, now), "Watcher: <b>STOPPED</b>\n"@),
        has(chat_summary(c, seen, url, now), "🕐 Bot time now: "@ + now.clock@ + "\n"@),
        c.filter_phone ==> has(
            chat_summary(c, seen, url, now),
            "📞 Phone filter: <b>on</b>\n"@,
        ),
        !c.filter_phone ==> has(
            chat_summary(c, seen, url, now),
            "📞 Phone filter: <b>off</b>\n"@,
        ),
        has(
            chat_summary(c, seen, url, now),
            "Watches: <b>"@ + decimal_text(c.watches.len() as int) + "</b>\n"@,
        ),
        has(
            chat_summary(c, seen, url, now),
            "Sent ads recorded: <b>"@ + decimal_text(seen) + "</b>"@,
        ),
{
    if url is Some {
        lemma_summary_has(c, seen, url, now, "🔗 "@ + escaped(url->0) + "\n"@);
    }
    if c.active {
        lemma_summary_has(c, seen, url, now, "Watcher: <b>ACTIVE</b>\n"@);
    } else {
        lemma_summary_has(c, seen, url, now, "Watcher: <b>STOPPED</b>\n"@);
    }
    lemma_summary_has(c, seen, url, now, "🕐 Bot time now: "@ + now.clock@ + "\n"@);
    if c.filter_phone {
        lemma_summary_has(c, seen, url, now, "📞 Phone filter: <b>on</b>\n"@);
    } else {
        lemma_summary_has(c, seen, url, now, "📞 Phone filter: <b>off</b>\n"@);
    }
    lemma_summary_has(
        c,
        seen,
        url,
        now,
        "Watches: <b>"@ + decimal_text(c.watches.len() as int) + "</b>\n"@,
    );
    lemma_summary_has(
        c,
        seen,
        url,
        now,
        "Sent ads recorded: <b>"@ + decimal_text(seen) + "</b>"@,
    );
}

/// The summary tells the sleep window of the chat, and, while it is open, when it
/// ends.
pub proof fn law_summary_tells_the_sleep(
    c: ChatView,
    seen: int,
    url: Option<Seq<char>>,
    now: Moment,
)
    ensures
        c.sleep is None ==> has(chat_summary(c, seen, url, now), "😴 Sleep: <b>off</b>\n"@),
        c.sleep matches Some(w) ==> (window(w) matches Ok((start, end)) ==> (if in_window(
            start,
            end,
            now.time,
        ) {
            has(
                chat_summary(c, seen, url, now),
                "😴 Sleep: <b>"@ + escaped(w) + "</b> (sleeping now, until "@ + escaped(end.text())
                    + ")\n"@,
            )
        } else {
            has(chat_summary(c, seen, url, now), "😴 Sleep: <b>"@ + escaped(w) + "</b>\n"@)
        })),
        c.sleep matches Some(w) ==> (window(w) is Err ==> has(
            chat_summary(c, seen, url, now),
            "😴 Sleep: <b>"@ + escaped(w) + "</b>\n"@,
        )),
{
    lemma_summary_has(c, seen, url, now, sleep_line(c.sleep, now.time));
}

/// The summary tells the work point of the chat, with a link to a map of it.
pub proof fn law_summary_tells_the_work_point(
    c: ChatView,
    seen: int,
    url: Option<Seq<char>>,
    now: Moment,
)
    ensures
        c.work_point is None ==> has(
            chat_summary(c, seen, url, now),
            "🏢 Work point: <b>off</b>\n"@,
        ),
        c.work_point matches Some(p) ==> has(
            chat_summary(c, seen, url, now),
            "🏢 Work point: "@ + ("<a href=\"https://www.google.com/maps?q="@ + p.lat.text@ + ","@
                + p.lng.text@ + "&amp;z=13\">"@) + p.lat.fixed@ + ","@ + p.lng.fixed@ + "</a>\n"@,
        ),
{
    lemma_summary_has(c, seen, url, now, work_line(c.work_point));
}

/// Each command goes by its name, whatever its argument.
pub proof fn law_commands_have_names(arg: String)
    ensures
        Cmd::Start.label() == "/start"@,
        Cmd::Help.label() == "/help"@,
        Cmd::Watch(arg).label() == "/watch"@,
        Cmd::Unwatch(arg).label() == "/unwatch"@,
        Cmd::Status.label() == "/status"@,
        Cmd::Check.label() == "/check"@,
        Cmd::StartWatching.label() == "/start_watching"@,
        Cmd::StopWatching.label() == "/stop_watching"@,
        Cmd::SleepTime(arg).label() == "/sleep_time"@,
        Cmd::FilterPhone(arg).label() == "/filter_phone"@,
        Cmd::WorkPoint(arg).label() == "/work_point"@,
        Cmd::ShowMap.label() == "/map"@,
        Cmd::ClearHistory.label() == "/clear_history"@,
{
}

} // verus!
