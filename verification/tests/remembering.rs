use daftie::clock::TimeOfDay;
use daftie::state::{default_true, read_line, ChatState, State, Watch};
use std::collections::HashSet;

fn noon() -> TimeOfDay {
    TimeOfDay { secs: 12 * 3600, nanos: 0 }
}

fn watched_urls(s: &State, chat_id: i64) -> Vec<String> {
    s.chat_get(chat_id).map(|c| c.watches.iter().map(|w| w.url.clone()).collect()).unwrap_or_default()
}

#[test]
fn nothing_is_remembered_at_first() {
    let s = State::default();
    assert!(s.chats.is_empty());
    assert_eq!(s.seen_count(), 0);
    assert!(s.chat_get(1).is_none());
    let c = ChatState::default();
    assert!(c.active && default_true());
    assert!(c.watches.is_empty() && c.sleep.is_none() && !c.filter_phone);
    assert!(c.work_point.is_none());
}

#[test]
fn chats_are_made_when_they_are_changed() {
    let mut s = State::default();
    s.chat_mut(-100).filter_phone = true;
    assert!(s.chat_get(-100).unwrap().filter_phone);
    assert_eq!(s.chats[0].id, "-100");
    s.chat_mut(7).active = false;
    assert!(s.chat_get(-100).unwrap().active);
    assert!(!s.chat_get(7).unwrap().active);
    s.chat_mut(-100).sleep = Some("1-2".to_string());
    assert_eq!(s.chats.len(), 2);
    assert_eq!(s.chat_get(-100).unwrap().sleep.as_deref(), Some("1-2"));
    assert!(s.chat_get(-100).unwrap().filter_phone);
}

#[test]
fn an_address_is_watched_once() {
    let mut s = State::default();
    assert!(s.add_watch(1, "u".to_string()));
    assert!(!s.add_watch(1, "u".to_string()));
    assert!(s.add_watch(2, "u".to_string()));
    assert!(s.add_watch(1, "v".to_string()));
    assert_eq!(watched_urls(&s, 1), vec!["u", "v"]);
    assert_eq!(s.chat_get(1).unwrap().watches[0].last_check, 0);
}

#[test]
fn watches_are_removed_by_number_or_address() {
    let mut s = State::default();
    for u in ["a", "b", "c", "1"] {
        s.add_watch(1, u.to_string());
    }
    assert_eq!(s.remove_watch(1, "2"), Some("b".to_string()));
    assert_eq!(s.remove_watch(1, "c"), Some("c".to_string()));
    assert_eq!(s.remove_watch(1, "1"), Some("a".to_string()));
    assert_eq!(s.remove_watch(1, "0"), None);
    assert_eq!(s.remove_watch(1, "9"), None);
    assert_eq!(s.remove_watch(1, "zzz"), None);
    assert_eq!(watched_urls(&s, 1), vec!["1"]);
    assert_eq!(s.remove_watch(5, "a"), None);
    assert!(s.chat_get(5).is_some());
}

#[test]
fn removing_undoes_adding() {
    let mut s = State::default();
    s.add_watch(1, "a".to_string());
    s.add_watch(1, "b".to_string());
    assert_eq!(s.remove_watch(1, "b"), Some("b".to_string()));
    assert_eq!(watched_urls(&s, 1), vec!["a"]);
    // An address that is the number of another watch removes that one.
    s.add_watch(1, "1".to_string());
    assert_eq!(s.remove_watch(1, "1"), Some("a".to_string()));
    assert_eq!(watched_urls(&s, 1), vec!["1"]);
}

#[test]
fn checks_are_noted_on_their_watch() {
    let mut s = State::default();
    s.add_watch(1, "a".to_string());
    s.add_watch(1, "b".to_string());
    s.note_check(1, "b", 99);
    let times: Vec<i64> = s.chat_get(1).unwrap().watches.iter().map(|w| w.last_check).collect();
    assert_eq!(times, vec![0, 99]);
    s.note_check(1, "missing", 5);
    s.note_check(3, "a", 5);
    assert!(s.chat_get(3).unwrap().watches.is_empty());
    assert_eq!(watched_urls(&s, 1), vec!["a", "b"]);
    let mut c = ChatState::default();
    assert!(c.watch("x".to_string()));
    c.note_check("x", 7);
    assert_eq!(c.watches[0].last_check, 7);
    assert_eq!(c.unwatch("x"), Some("x".to_string()));
}

#[test]
fn sent_listings_are_remembered_until_cleared() {
    let mut s = State::default();
    assert!(!s.is_seen(4));
    assert!(s.mark_seen(4));
    assert!(!s.mark_seen(4));
    assert!(s.mark_seen(5));
    assert!(s.is_seen(4));
    assert_eq!(s.seen_count(), 2);
    assert_eq!(s.clear_seen(), 2);
    assert_eq!(s.seen_count(), 0);
    assert!(!s.is_seen(4));
    assert_eq!(s.clear_seen(), 0);
}

#[test]
fn states_are_made_of_their_parts() {
    let chat = |sleep: &str| ChatState { sleep: Some(sleep.to_string()), ..ChatState::default() };
    let seen: HashSet<u64> = [1, 2].into_iter().collect();
    let s = State::from_parts(
        vec![
            ("7".to_string(), chat("a")), ("x".to_string(), chat("b")), ("7".to_string(), chat("c")),
        ],
        seen,
    );
    assert_eq!(s.chats.len(), 2);
    assert_eq!(s.chat_get(7).unwrap().sleep.as_deref(), Some("c"));
    assert_eq!(s.chats[1].id, "x");
    assert!(s.is_seen(2) && s.seen_count() == 2);
}

#[test]
fn lines_of_the_old_list_name_listings() {
    assert_eq!(read_line(" 12 2024-01-01"), Some(12));
    assert_eq!(read_line("# 12"), None);
    assert_eq!(read_line("   "), None);
    assert_eq!(read_line("x 12"), None);
    assert_eq!(read_line("+3\u{a0}z"), Some(3));
    assert_eq!(read_line("18446744073709551616"), None);
}

#[test]
fn the_old_list_is_absorbed_once() {
    let mut s = State::default();
    s.mark_seen(1);
    let list = "1\n2 x\r\n# 3\n\n2\n 4\t";
    assert_eq!(s.absorb_old_list(list), 2);
    assert!(s.is_seen(1) && s.is_seen(2) && s.is_seen(4) && !s.is_seen(3));
    assert_eq!(s.absorb_old_list(list), 0);
    assert_eq!(s.seen_count(), 3);
    assert_eq!(s.absorb_old_list(""), 0);
}

#[test]
fn watches_are_due_unless_stopped_or_asleep() {
    let mut s = State::default();
    s.add_watch(1, "a".to_string());
    s.add_watch(1, "b".to_string());
    s.add_watch(-2, "c".to_string());
    s.chat_mut(-2).sleep = Some("11-13".to_string());
    s.add_watch(3, "d".to_string());
    s.chat_mut(3).active = false;
    s.chat_mut(3).sleep = Some("11-13".to_string());
    let due = s.due_watches(noon());
    assert_eq!(due.watches, vec![(1, "a".to_string()), (1, "b".to_string())]);
    assert_eq!((due.stopped, due.sleeping), (1, 1));
    let later = s.due_watches(TimeOfDay { secs: 13 * 3600, nanos: 0 });
    assert_eq!(later.watches.len(), 3);
    assert_eq!(later.watches[2], (-2, "c".to_string()));
    let t = s.totals(noon());
    assert_eq!((t.chats, t.watches, t.seen, t.stopped, t.sleeping), (3, 4, 0, 1, 2));
}

#[test]
fn a_chat_without_a_number_counts_as_zero() {
    let chat = ChatState {
        watches: vec![Watch { url: "u".to_string(), last_check: 0 }],
        ..ChatState::default()
    };
    let s = State::from_parts(vec![("abc".to_string(), chat)], HashSet::new());
    assert_eq!(s.due_watches(noon()).watches, vec![(0, "u".to_string())]);
}

#[test]
fn a_chat_sleeps_in_its_window() {
    let mut c = ChatState::default();
    assert!(!c.is_asleep(noon()));
    c.sleep = Some("12:00-12:01".to_string());
    assert!(c.is_asleep(noon()));
    c.sleep = Some("12:01-12:00".to_string());
    assert!(!c.is_asleep(noon()));
}

#[test]
fn a_state_survives_its_parts() {
    let mut s = State::default();
    s.add_watch(1, "a".to_string());
    s.add_watch(-2, "b".to_string());
    s.chat_mut(-2).filter_phone = true;
    s.mark_seen(6);
    let mut parts: Vec<(String, ChatState)> = s.chats.into_iter().map(|e| (e.id, e.chat)).collect();
    parts.reverse();
    let back = State::from_parts(parts, s.seen_ids);
    assert_eq!(watched_urls(&back, 1), vec!["a"]);
    assert_eq!(watched_urls(&back, -2), vec!["b"]);
    assert!(back.chat_get(-2).unwrap().filter_phone && !back.chat_get(1).unwrap().filter_phone);
    assert!(back.is_seen(6));
}

#[test]
fn a_clone_remembers_the_same() {
    let mut s = State::default();
    s.add_watch(1, "a".to_string());
    s.note_check(1, "a", 9);
    s.chat_mut(1).sleep = Some("01:00-02:00".to_string());
    s.chat_mut(-2).active = false;
    for id in [3, 4, 5] {
        s.mark_seen(id);
    }
    let c = s.clone();
    s.clear_seen();
    s.remove_watch(1, "a");
    assert_eq!(watched_urls(&c, 1), vec!["a"]);
    assert_eq!(c.chat_get(1).unwrap().watches[0].clone().last_check, 9);
    assert_eq!(c.chat_get(1).unwrap().clone().sleep.as_deref(), Some("01:00-02:00"));
    assert!(!c.chat_get(-2).unwrap().active);
    assert!(c.is_seen(3) && c.is_seen(4) && c.is_seen(5) && c.seen_count() == 3);
}
