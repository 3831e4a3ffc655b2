//! What the bot remembers: the settings and the watches of each chat, and the
//! listings that it has sent.

use std::collections::HashSet;
use vstd::prelude::*;

use crate::clock::TimeOfDay;
use crate::geo::Point;
use crate::number::{
    decimal_text, integer, integer_text, is_digit, law_decimal_text_writes_its_number,
    law_integer_text_is_injective, law_integer_text_reads_back, law_only_digits_are_numbers,
    parse_i64, parse_u64, parse_usize, signed_value, value_up_to,
};
use crate::sleep::{asleep, is_sleeping_at};
use crate::text::{
    chars_of, is_white, is_whitespace, lemma_trim_end_window, lemma_trim_start_at, same, split,
    split_char, trim, trimmed, views,
};

verus! {

broadcast use vstd::std_specs::hash::group_hash_axioms;

/// A watched search and the time, in seconds since 1970, of its last check.
#[derive(Debug)]
pub struct Watch {
    pub url: String,
    pub last_check: i64,
}

/// The settings and the watches of a chat. `active` tells whether periodic
/// checks are on, `sleep` the window in which they pause, `filter_phone` whether
/// listings without a phone number are passed over, and `work_point` where the
/// chat's commutes end.
#[derive(Debug)]
pub struct ChatState {
    pub watches: Vec<Watch>,
    pub active: bool,
    pub sleep: Option<String>,
    pub filter_phone: bool,
    pub work_point: Option<Point>,
}

/// A chat and its key, the decimal text of its number.
#[derive(Debug)]
pub struct ChatEntry {
    pub id: String,
    pub chat: ChatState,
}

/// What the bot remembers.
#[derive(Debug)]
pub struct State {
    pub chats: Vec<ChatEntry>,
    pub seen_ids: HashSet<u64>,
}

/// What a watch holds.
#[verifier::ext_equal]
pub struct WatchView {
    pub url: Seq<char>,
    pub last_check: i64,
}

/// What the state of a chat holds.
#[verifier::ext_equal]
pub struct ChatView {
    pub watches: Seq<WatchView>,
    pub active: bool,
    pub sleep: Option<Seq<char>>,
    pub filter_phone: bool,
    pub work_point: Option<Point>,
}

/// What the bot's state holds: the chats by their keys, and the listings sent.
#[verifier::ext_equal]
pub struct StateView {
    pub chats: Seq<(Seq<char>, ChatView)>,
    pub seen: Set<u64>,
}

impl View for Watch {
    type V = WatchView;

    open spec fn view(&self) -> WatchView {
        WatchView { url: self.url@, last_check: self.last_check }
    }
}

impl View for ChatState {
    type V = ChatView;

    open spec fn view(&self) -> ChatView {
        ChatView {
            watches: self.watches@.map_values(|w: Watch| w@),
            active: self.active,
            sleep: match self.sleep {
                Some(s) => Some(s@),
                None => None,
            },
            filter_phone: self.filter_phone,
            work_point: self.work_point,
        }
    }
}

impl View for State {
    type V = StateView;

    open spec fn view(&self) -> StateView {
        StateView {
            chats: self.chats@.map_values(|e: ChatEntry| (e.id@, e.chat@)),
            seen: self.seen_ids@,
        }
    }
}

/// The position of the first watch of an address, or the number of watches.
pub open spec fn watch_index(watches: Seq<WatchView>, url: Seq<char>) -> int
    decreases watches.len(),
{
    if watches.len() == 0 {
        0
    } else if watches[0].url == url {
        0
    } else {
        1 + watch_index(watches.skip(1), url)
    }
}

pub proof fn lemma_watch_index(watches: Seq<WatchView>, url: Seq<char>)
    ensures
        0 <= watch_index(watches, url) <= watches.len(),
        watch_index(watches, url) < watches.len() ==> watches[watch_index(watches, url)].url
            == url,
        forall|i: int| 0 <= i < watch_index(watches, url) ==> (#[trigger] watches[i]).url != url,
    decreases watches.len(),
{
    if watches.len() > 0 && watches[0].url != url {
        lemma_watch_index(watches.skip(1), url);
        let k = watch_index(watches.skip(1), url);
        assert forall|i: int| 0 <= i < 1 + k implies (#[trigger] watches[i]).url != url by {
            if i > 0 {
                assert(watches.skip(1)[i - 1] == watches[i]);
            }
        }
    }
}

pub proof fn lemma_watch_index_is(watches: Seq<WatchView>, url: Seq<char>, k: int)
    requires
        0 <= k <= watches.len(),
        k < watches.len() ==> watches[k].url == url,
        forall|i: int| 0 <= i < k ==> (#[trigger] watches[i]).url != url,
    ensures
        watch_index(watches, url) == k,
{
    lemma_watch_index(watches, url);
    let j = watch_index(watches, url);
    if j < k {
        assert(watches[j].url != url);
    } else if k < j {
        assert(watches[k].url != url);
    }
}

impl ChatView {
    /// A chat of which nothing has been set yet.
    pub open spec fn fresh() -> ChatView {
        ChatView {
            watches: Seq::empty(),
            active: true,
            sleep: None,
            filter_phone: false,
            work_point: None,
        }
    }

    /// Whether an address is watched.
    pub open spec fn watches_url(self, url: Seq<char>) -> bool {
        watch_index(self.watches, url) < self.watches.len()
    }

    /// With a watch of an address, which is not watched twice.
    pub open spec fn with_watch(self, url: Seq<char>) -> ChatView {
        if self.watches_url(url) {
            self
        } else {
            ChatView { watches: self.watches.push(WatchView { url, last_check: 0 }), ..self }
        }
    }

    /// With the time of the last check of the first watch of an address.
    pub open spec fn with_check(self, url: Seq<char>, time: i64) -> ChatView {
        if self.watches_url(url) {
            ChatView {
                watches: self.watches.update(
                    watch_index(self.watches, url),
                    WatchView { url, last_check: time },
                ),
                ..self
            }
        } else {
            self
        }
    }

    /// The position of the watch that a key tells: the key's number, counted
    /// from 1, or else the first watch of that address; the number of watches
    /// where it tells none.
    pub open spec fn told_by(self, key: Seq<char>) -> int {
        match value_up_to(key, usize::MAX as int) {
            Some(n) => if 1 <= n <= self.watches.len() {
                n - 1
            } else {
                watch_index(self.watches, key)
            },
            None => watch_index(self.watches, key),
        }
    }

    /// Without the watch that a key tells.
    pub open spec fn without_told(self, key: Seq<char>) -> ChatView {
        if self.told_by(key) < self.watches.len() {
            ChatView { watches: self.watches.remove(self.told_by(key)), ..self }
        } else {
            self
        }
    }

    /// Whether no address is watched twice.
    pub open spec fn watches_once(self) -> bool {
        forall|i: int, j: int|
            0 <= i < j < self.watches.len() ==> (#[trigger] self.watches[i]).url != (
            #[trigger] self.watches[j]).url
    }
}

/// The position of the first chat with a key, or the number of chats.
pub open spec fn chat_index(chats: Seq<(Seq<char>, ChatView)>, key: Seq<char>) -> int
    decreases chats.len(),
{
    if chats.len() == 0 {
        0
    } else if chats[0].0 == key {
        0
    } else {
        1 + chat_index(chats.skip(1), key)
    }
}

pub proof fn lemma_chat_index(chats: Seq<(Seq<char>, ChatView)>, key: Seq<char>)
    ensures
        0 <= chat_index(chats, key) <= chats.len(),
        chat_index(chats, key) < chats.len() ==> chats[chat_index(chats, key)].0 == key,
        forall|i: int| 0 <= i < chat_index(chats, key) ==> (#[trigger] chats[i]).0 != key,
    decreases chats.len(),
{
    if chats.len() > 0 && chats[0].0 != key {
        lemma_chat_index(chats.skip(1), key);
        let k = chat_index(chats.skip(1), key);
        assert forall|i: int| 0 <= i < 1 + k implies (#[trigger] chats[i]).0 != key by {
            if i > 0 {
                assert(chats.skip(1)[i - 1] == chats[i]);
            }
        }
    }
}

pub proof fn lemma_chat_index_is(chats: Seq<(Seq<char>, ChatView)>, key: Seq<char>, k: int)
    requires
        0 <= k <= chats.len(),
        k < chats.len() ==> chats[k].0 == key,
        forall|i: int| 0 <= i < k ==> (#[trigger] chats[i]).0 != key,
    ensures
        chat_index(chats, key) == k,
{
    lemma_chat_index(chats, key);
    let j = chat_index(chats, key);
    if j < k {
        assert(chats[j].0 != key);
    } else if k < j {
        assert(chats[k].0 != key);
    }
}

/// Chats with one more, in the place of the first with its key, or after all
/// others where there is none.
pub open spec fn put_chat(
    chats: Seq<(Seq<char>, ChatView)>,
    key: Seq<char>,
    chat: ChatView,
) -> Seq<(Seq<char>, ChatView)> {
    let i = chat_index(chats, key);
    if i < chats.len() {
        chats.update(i, (key, chat))
    } else {
        chats.push((key, chat))
    }
}

/// Chats put one after another.
pub open spec fn collected(parts: Seq<(Seq<char>, ChatView)>) -> Seq<(Seq<char>, ChatView)>
    decreases parts.len(),
{
    if parts.len() == 0 {
        Seq::empty()
    } else {
        put_chat(collected(parts.drop_last()), parts.last().0, parts.last().1)
    }
}

/// The keys and what the chats hold.
pub open spec fn keyed_views(parts: Seq<(String, ChatState)>) -> Seq<(Seq<char>, ChatView)> {
    parts.map_values(|e: (String, ChatState)| (e.0@, e.1@))
}

/// Whether no two chats have the same key.
pub open spec fn keys_distinct(chats: Seq<(Seq<char>, ChatView)>) -> bool {
    forall|i: int, j: int|
        0 <= i < j < chats.len() ==> (#[trigger] chats[i]).0 != (#[trigger] chats[j]).0
}

/// Putting a chat keeps the keys distinct.
pub proof fn law_put_chat_keeps_keys_distinct(
    chats: Seq<(Seq<char>, ChatView)>,
    key: Seq<char>,
    chat: ChatView,
)
    requires
        keys_distinct(chats),
    ensures
        keys_distinct(put_chat(chats, key, chat)),
{
    lemma_chat_index(chats, key);
    let after = put_chat(chats, key, chat);
    let k = chat_index(chats, key);
    assert forall|i: int, j: int| 0 <= i < j < after.len() implies (#[trigger] after[i]).0 != (
    #[trigger] after[j]).0 by {
        if i < chats.len() && j < chats.len() {
            assert(chats[i].0 != chats[j].0);
        } else {
            assert(chats[i].0 != key);
        }
    }
}

/// Chats put one after another have distinct keys.
pub proof fn law_collected_keys_are_distinct(parts: Seq<(Seq<char>, ChatView)>)
    ensures
        keys_distinct(collected(parts)),
    decreases parts.len(),
{
    if parts.len() > 0 {
        law_collected_keys_are_distinct(parts.drop_last());
        law_put_chat_keeps_keys_distinct(
            collected(parts.drop_last()),
            parts.last().0,
            parts.last().1,
        );
    }
}

impl StateView {
    /// Whether no two chats have the same key.
    pub open spec fn wf(self) -> bool {
        keys_distinct(self.chats)
    }

    /// The chat with a number.
    pub open spec fn chat(self, chat_id: i64) -> Option<ChatView> {
        let i = chat_index(self.chats, integer_text(chat_id as int));
        if i < self.chats.len() {
            Some(self.chats[i].1)
        } else {
            None
        }
    }

    /// The chat with a number; a fresh one where there is none.
    pub open spec fn chat_or_fresh(self, chat_id: i64) -> ChatView {
        match self.chat(chat_id) {
            Some(c) => c,
            None => ChatView::fresh(),
        }
    }

    /// With a chat in the place of the one with that number, or after all
    /// others where there was none.
    pub open spec fn with_chat(self, chat_id: i64, chat: ChatView) -> StateView {
        StateView { chats: put_chat(self.chats, integer_text(chat_id as int), chat), ..self }
    }
}

impl Default for ChatState {
    /// A chat of which nothing has been set yet; it is active.
    fn default() -> (r: Self)
        ensures
            r@ == ChatView::fresh(),
    {
        let r = ChatState {
            watches: Vec::new(),
            active: default_true(),
            sleep: None,
            filter_phone: false,
            work_point: None,
        };
        assert(r@.watches =~= Seq::<WatchView>::empty());
        r
    }
}

/// What a chat's `active` is where it has not been set.
pub fn default_true() -> (r: bool)
    ensures
        r == true,
{
    true
}

impl Default for State {
    /// Nothing remembered.
    fn default() -> (r: Self)
        ensures
            r@ == (StateView { chats: Seq::empty(), seen: Set::empty() }),
    {
        let r = State { chats: Vec::new(), seen_ids: HashSet::new() };
        assert(r@.chats =~= Seq::<(Seq<char>, ChatView)>::empty());
        r
    }
}

impl Clone for Watch {
    fn clone(&self) -> (r: Self)
        ensures
            r == *self,
    {
        Watch { url: self.url.clone(), last_check: self.last_check }
    }
}

impl Clone for ChatState {
    fn clone(&self) -> (r: Self)
        ensures
            r@ == self@,
    {
        let mut watches: Vec<Watch> = Vec::new();
        for i in 0..self.watches.len()
            invariant
                watches@ == self.watches@.take(i as int),
        {
            watches.push(self.watches[i].clone());
            assert(watches@ =~= self.watches@.take(i + 1));
        }
        assert(watches@ =~= self.watches@);
        let sleep = match &self.sleep {
            Some(w) => Some(w.clone()),
            None => None,
        };
        let work_point = match &self.work_point {
            Some(p) => Some(p.clone()),
            None => None,
        };
        ChatState {
            watches,
            active: self.active,
            sleep,
            filter_phone: self.filter_phone,
            work_point,
        }
    }
}

impl Clone for ChatEntry {
    fn clone(&self) -> (r: Self)
        ensures
            r.id == self.id,
            r.chat@ == self.chat@,
    {
        ChatEntry { id: self.id.clone(), chat: self.chat.clone() }
    }
}

/// The same numbers.
fn copy_ids(ids: &HashSet<u64>) -> (r: HashSet<u64>)
    ensures
        r@ == ids@,
{
    let mut copy: HashSet<u64> = HashSet::new();
    for id in it: ids.iter()
        invariant
            it.seq().unref().to_set() == ids@,
            copy@ == it.seq().unref().take(it.index()).to_set(),
            it.index() == it.seq().len() ==> copy@ == ids@,
    {
        let ghost all = it.seq().unref();
        let ghost n = it.index();
        copy.insert(*id);
        proof {
            assert(all[n] == *id);
            assert(all.take(n + 1) =~= all.take(n).push(*id));
            lemma_set_of_push(all.take(n), *id);
            assert(all.take(all.len() as int) =~= all);
        }
    }
    copy
}

proof fn lemma_set_of_push(s: Seq<u64>, x: u64)
    ensures
        s.push(x).to_set() == s.to_set().insert(x),
{
    assert forall|y: u64| s.push(x).to_set().contains(y) == s.to_set().insert(x).contains(y) by {
        if s.contains(y) {
            let i = choose|i: int| 0 <= i < s.len() && s[i] == y;
            assert(s.push(x)[i] == y);
        }
        if y == x {
            assert(s.push(x)[s.len() as int] == y);
        }
    }
    assert(s.push(x).to_set() =~= s.to_set().insert(x));
}

impl Clone for State {
    fn clone(&self) -> (r: Self)
        ensures
            r@ == self@,
    {
        let mut chats: Vec<ChatEntry> = Vec::new();
        for i in 0..self.chats.len()
            invariant
                chats@.len() == i,
                forall|j: int|
                    0 <= j < i ==> (#[trigger] chats@[j]).id == self.chats@[j].id
                        && chats@[j].chat@ == self.chats@[j].chat@,
        {
            chats.push(self.chats[i].clone());
        }
        let r = State { chats, seen_ids: copy_ids(&self.seen_ids) };
        assert(r@.chats =~= self@.chats);
        r
    }
}

impl ChatState {
    /// The position of the first watch of an address, or the number of watches.
    fn find_watch(&self, url: &str) -> (r: usize)
        ensures
            r == watch_index(self@.watches, url@),
            r <= self.watches@.len(),
    {
        let mut i: usize = 0;
        while i < self.watches.len()
            invariant
                i <= self.watches@.len(),
                forall|j: int| 0 <= j < i ==> (#[trigger] self@.watches[j]).url != url@,
            decreases self.watches@.len() - i,
        {
            assert(self@.watches[i as int] == self.watches@[i as int]@);
            if same(self.watches[i].url.as_str(), url) {
                proof {
                    lemma_watch_index_is(self@.watches, url@, i as int);
                }
                return i;
            }
            i = i + 1;
        }
        proof {
            lemma_watch_index_is(self@.watches, url@, i as int);
        }
        i
    }

    /// Watches an address, unless it is watched already. Tells whether it was
    /// not.
    pub fn watch(&mut self, url: String) -> (r: bool)
        ensures
            r == !old(self)@.watches_url(url@),
            final(self)@ == old(self)@.with_watch(url@),
    {
        if self.find_watch(url.as_str()) < self.watches.len() {
            return false;
        }
        self.watches.push(Watch { url, last_check: 0 });
        assert(self@.watches =~= old(self)@.watches.push(WatchView { url: url@, last_check: 0 }));
        true
    }

    /// Stops a watch, told by its number counted from 1 or by its address.
    /// Gives its address back.
    pub fn unwatch(&mut self, key: &str) -> (r: Option<String>)
        ensures
            final(self)@ == old(self)@.without_told(key@),
            match r {
                Some(url) => old(self)@.told_by(key@) < old(self)@.watches.len() && url@
                    == old(self)@.watches[old(self)@.told_by(key@)].url,
                None => old(self)@.told_by(key@) >= old(self)@.watches.len(),
            },
    {
        let by_number: Option<usize> = parse_usize(key);
        let mut i: usize = self.watches.len();
        let mut told: bool = false;
        if let Some(n) = by_number {
            if n >= 1 && n <= self.watches.len() {
                i = n - 1;
                told = true;
            }
        }
        if !told {
            i = self.find_watch(key);
        }
        assert(i == self@.told_by(key@));
        if i < self.watches.len() {
            assert(self@.watches[i as int] == self.watches@[i as int]@);
            let w = self.watches.remove(i);
            assert(self@.watches =~= old(self)@.watches.remove(i as int));
            Some(w.url)
        } else {
            None
        }
    }

    /// Notes the time of the last check of the first watch of an address.
    pub fn note_check(&mut self, url: &str, time: i64)
        ensures
            final(self)@ == old(self)@.with_check(url@, time),
    {
        let i: usize = self.find_watch(url);
        if i < self.watches.len() {
            proof {
                lemma_watch_index(self@.watches, url@);
                assert(self@.watches[i as int] == self.watches@[i as int]@);
            }
            self.watches[i].last_check = time;
            assert(self@.watches =~= old(self)@.watches.update(
                i as int,
                WatchView { url: url@, last_check: time },
            ));
        }
    }
}

impl State {
    /// The position of the first chat with a key, or the number of chats.
    fn find_chat(&self, key: &str) -> (r: usize)
        ensures
            r == chat_index(self@.chats, key@),
            r <= self.chats@.len(),
    {
        let mut i: usize = 0;
        while i < self.chats.len()
            invariant
                i <= self.chats@.len(),
                forall|j: int| 0 <= j < i ==> (#[trigger] self@.chats[j]).0 != key@,
            decreases self.chats@.len() - i,
        {
            assert(self@.chats[i as int] == (self.chats@[i as int].id@, self.chats@[i as int].chat@));
            if same(self.chats[i].id.as_str(), key) {
                proof {
                    lemma_chat_index_is(self@.chats, key@, i as int);
                }
                return i;
            }
            i = i + 1;
        }
        proof {
            lemma_chat_index_is(self@.chats, key@, i as int);
        }
        i
    }

    /// The chat with a number, to change; it is made where there is none.
    pub fn chat_mut(&mut self, chat_id: i64) -> (r: &mut ChatState)
        ensures
            (*r)@ == old(self)@.chat_or_fresh(chat_id),
            final(self)@ == old(self)@.with_chat(chat_id, (*final(r))@),
    {
        let key = integer(chat_id);
        let i: usize = self.find_chat(key.as_str());
        if i == self.chats.len() {
            self.chats.push(ChatEntry { id: key, chat: ChatState::default() });
        }
        proof {
            lemma_chat_index(old(self)@.chats, integer_text(chat_id as int));
            assert(self@.chats[i as int] == (self.chats@[i as int].id@, self.chats@[i as int].chat@));
            assert(self.chats@[i as int].id@ == integer_text(chat_id as int));
            assert(forall|j: int|
                0 <= j < self.chats@.len() && j != i ==> #[trigger] self@.chats[j]
                    == old(self)@.chats[j]);
        }
        &mut self.chats[i].chat
    }

    /// The chat with a number.
    pub fn chat_get(&self, chat_id: i64) -> (r: Option<&ChatState>)
        ensures
            self@.chat(chat_id) == (match r {
                Some(c) => Some(c@),
                None => None::<ChatView>,
            }),
    {
        let key = integer(chat_id);
        let i: usize = self.find_chat(key.as_str());
        if i < self.chats.len() {
            assert(self@.chats[i as int].1 == self.chats@[i as int].chat@);
            Some(&self.chats[i].chat)
        } else {
            None
        }
    }

    /// Watches an address in a chat, unless it is watched there already. Tells
    /// whether it was not.
    pub fn add_watch(&mut self, chat_id: i64, url: String) -> (r: bool)
        ensures
            r == !old(self)@.chat_or_fresh(chat_id).watches_url(url@),
            final(self)@ == old(self)@.with_chat(
                chat_id,
                old(self)@.chat_or_fresh(chat_id).with_watch(url@),
            ),
    {
        let chat = self.chat_mut(chat_id);
        chat.watch(url)
    }

    /// Stops a watch of a chat, told by its number counted from 1 or by its
    /// address. Gives its address back.
    pub fn remove_watch(&mut self, chat_id: i64, key: &str) -> (r: Option<String>)
        ensures
            final(self)@ == old(self)@.with_chat(
                chat_id,
                old(self)@.chat_or_fresh(chat_id).without_told(key@),
            ),
            ({
                let chat = old(self)@.chat_or_fresh(chat_id);
                match r {
                    Some(url) => chat.told_by(key@) < chat.watches.len() && url@
                        == chat.watches[chat.told_by(key@)].url,
                    None => chat.told_by(key@) >= chat.watches.len(),
                }
            }),
    {
        let chat = self.chat_mut(chat_id);
        chat.unwatch(key)
    }

    /// Notes the time of the last check of a watch of a chat.
    pub fn note_check(&mut self, chat_id: i64, url: &str, time: i64)
        ensures
            final(self)@ == old(self)@.with_chat(
                chat_id,
                old(self)@.chat_or_fresh(chat_id).with_check(url@, time),
            ),
    {
        let chat = self.chat_mut(chat_id);
        chat.note_check(url, time);
    }

    /// Whether a listing was sent.
    pub fn is_seen(&self, id: u64) -> (r: bool)
        ensures
            r == self@.seen.contains(id),
    {
        self.seen_ids.contains(&id)
    }

    /// Notes that a listing was sent. Tells whether it had not been.
    pub fn mark_seen(&mut self, id: u64) -> (r: bool)
        ensures
            r == !old(self)@.seen.contains(id),
            final(self)@ == (StateView { seen: old(self)@.seen.insert(id), ..old(self)@ }),
    {
        self.seen_ids.insert(id)
    }

    /// Forgets which listings were sent. Tells how many they were.
    pub fn clear_seen(&mut self) -> (r: usize)
        ensures
            r == old(self)@.seen.len(),
            final(self)@ == (StateView { seen: Set::empty(), ..old(self)@ }),
    {
        let n: usize = self.seen_ids.len();
        self.seen_ids.clear();
        n
    }

    /// How many listings were sent.
    pub fn seen_count(&self) -> (r: usize)
        ensures
            r == self@.seen.len(),
    {
        self.seen_ids.len()
    }

    /// What is remembered of chats with their keys, the last of those with the
    /// same key in the place of the first, and of listings sent.
    pub fn from_parts(chats: Vec<(String, ChatState)>, seen_ids: HashSet<u64>) -> (r: State)
        ensures
            r@.chats == collected(keyed_views(chats@)),
            r@.seen == seen_ids@,
            r@.wf(),
    {
        let ghost all = keyed_views(chats@);
        let mut s = State { chats: Vec::new(), seen_ids };
        assert(s@.chats =~= collected(all.take(0)));
        for e in it: chats
            invariant
                all == keyed_views(it.seq()),
                s@.chats == collected(all.take(it.index())),
                s@.seen == seen_ids@,
        {
            let ghost before = s@;
            let ghost n = it.index();
            let (id, chat) = e;
            let i: usize = s.find_chat(id.as_str());
            proof {
                lemma_chat_index(before.chats, id@);
                assert(all.take(n + 1).drop_last() =~= all.take(n));
                assert(all.take(n + 1).last() == (id@, chat@));
            }
            if i < s.chats.len() {
                s.chats[i].chat = chat;
                assert(s@.chats =~= before.chats.update(i as int, (id@, chat@)));
            } else {
                s.chats.push(ChatEntry { id, chat });
                assert(s@.chats =~= before.chats.push((id@, chat@)));
            }
        }
        proof {
            assert(all.take(all.len() as int) =~= all);
            law_collected_keys_are_distinct(all);
        }
        s
    }
}

/// The characters of a text before its first white space.
pub open spec fn first_word(s: Seq<char>) -> Seq<char>
    decreases s.len(),
{
    if s.len() == 0 || is_white(s[0]) {
        Seq::empty()
    } else {
        seq![s[0]] + first_word(s.skip(1))
    }
}

/// The listing that a line of the old list names: the number in its first word,
/// unless the line is a comment, which begins with `#`.
pub open spec fn listing_in_line(line: Seq<char>) -> Option<u64> {
    let t = trimmed(line);
    if t.len() == 0 || t[0] == '#' {
        None
    } else {
        match value_up_to(first_word(t), u64::MAX as int) {
            Some(id) => Some(id as u64),
            None => None,
        }
    }
}

/// The listings that lines name, added to those sent, and how many of them were
/// not among those.
pub open spec fn with_lines(seen: Set<u64>, lines: Seq<Seq<char>>) -> (Set<u64>, int)
    decreases lines.len(),
{
    if lines.len() == 0 {
        (seen, 0)
    } else {
        let (before, n) = with_lines(seen, lines.drop_last());
        match listing_in_line(lines.last()) {
            Some(id) => (
                before.insert(id),
                if before.contains(id) {
                    n
                } else {
                    n + 1
                },
            ),
            None => (before, n),
        }
    }
}

/// The characters of a text before its first white space.
fn word_of(s: &str) -> (r: String)
    ensures
        r@ == first_word(s@),
{
    let cs = chars_of(s);
    let n: usize = cs.len();
    let mut out = String::new();
    let mut i: usize = 0;
    assert(cs@.skip(0) =~= cs@);
    assert(out@ + first_word(cs@.skip(0)) =~= first_word(cs@));
    while i < n && !is_whitespace(cs[i])
        invariant
            i <= n,
            n == cs@.len(),
            out@ + first_word(cs@.skip(i as int)) == first_word(cs@),
        decreases n - i,
    {
        let ghost rest = cs@.skip(i as int);
        let ghost before = out@;
        assert(rest[0] == cs@[i as int]);
        assert(rest.skip(1) =~= cs@.skip(i + 1));
        out.push(cs[i]);
        assert(out@ + first_word(rest.skip(1)) =~= before + first_word(rest));
        i = i + 1;
    }
    proof {
        let rest = cs@.skip(i as int);
        if i < n {
            assert(rest[0] == cs@[i as int]);
        }
        assert(out@ + first_word(rest) =~= out@);
    }
    out
}

/// The listing that a line of the old list names.
pub fn read_line(line: &str) -> (r: Option<u64>)
    ensures
        r == listing_in_line(line@),
{
    let t = trim(line);
    let cs = chars_of(t.as_str());
    if cs.len() == 0 || cs[0] == '#' {
        return None;
    }
    let word = word_of(t.as_str());
    parse_u64(word.as_str())
}

/// The number of the chat with a key; 0 where the key is no number.
pub open spec fn chat_number(key: Seq<char>) -> i64 {
    match signed_value(key, i64::MIN as int, i64::MAX as int) {
        Some(n) => n as i64,
        None => 0,
    }
}

/// The watches of a chat with the chat's number.
pub open spec fn watches_of(key: Seq<char>, chat: ChatView) -> Seq<(i64, Seq<char>)> {
    chat.watches.map_values(|w: WatchView| (chat_number(key), w.url))
}

/// Whether the watches of a chat are to be checked at a time: the chat is
/// active, and its sleep window does not cover the time.
pub open spec fn is_due(chat: ChatView, now: TimeOfDay) -> bool {
    chat.active && !asleep(chat.sleep, now)
}

/// The watches to be checked at a time, chat by chat.
pub open spec fn due_of(chats: Seq<(Seq<char>, ChatView)>, now: TimeOfDay) -> Seq<(i64, Seq<char>)>
    decreases chats.len(),
{
    if chats.len() == 0 {
        Seq::empty()
    } else {
        let before = due_of(chats.drop_last(), now);
        let (key, chat) = chats.last();
        if is_due(chat, now) {
            before + watches_of(key, chat)
        } else {
            before
        }
    }
}

/// How many chats are stopped.
pub open spec fn stopped_of(chats: Seq<(Seq<char>, ChatView)>) -> int
    decreases chats.len(),
{
    if chats.len() == 0 {
        0
    } else if !chats.last().1.active {
        stopped_of(chats.drop_last()) + 1
    } else {
        stopped_of(chats.drop_last())
    }
}

/// How many chats a sleep window covers at a time, of the active ones or of all.
pub open spec fn asleep_of(
    chats: Seq<(Seq<char>, ChatView)>,
    now: TimeOfDay,
    only_active: bool,
) -> int
    decreases chats.len(),
{
    if chats.len() == 0 {
        0
    } else {
        let before = asleep_of(chats.drop_last(), now, only_active);
        let chat = chats.last().1;
        if asleep(chat.sleep, now) && (chat.active || !only_active) {
            before + 1
        } else {
            before
        }
    }
}

/// How many watches there are.
pub open spec fn watches_in(chats: Seq<(Seq<char>, ChatView)>) -> int
    decreases chats.len(),
{
    if chats.len() == 0 {
        0
    } else {
        watches_in(chats.drop_last()) + chats.last().1.watches.len()
    }
}

/// The watches to be checked, with the number of the chat of each, and how many
/// chats were passed over because they are stopped or asleep.
#[derive(Debug)]
pub struct Due {
    pub watches: Vec<(i64, String)>,
    pub stopped: usize,
    pub sleeping: usize,
}

/// How much is remembered.
#[derive(Debug)]
pub struct Totals {
    pub chats: usize,
    pub watches: u128,
    pub seen: usize,
    pub stopped: usize,
    pub sleeping: usize,
}

/// The numbers and the addresses of watches.
pub open spec fn due_views(v: Seq<(i64, String)>) -> Seq<(i64, Seq<char>)> {
    v.map_values(|w: (i64, String)| (w.0, w.1@))
}

impl ChatState {
    /// Whether the sleep window covers a time.
    pub fn is_asleep(&self, now: TimeOfDay) -> (r: bool)
        ensures
            r == asleep(self@.sleep, now),
    {
        match &self.sleep {
            Some(s) => is_sleeping_at(Some(s.as_str()), now),
            None => false,
        }
    }
}

impl State {
    /// Takes in the listings that the old list names, one to a line. Tells how
    /// many of them were new.
    pub fn absorb_old_list(&mut self, content: &str) -> (r: usize)
        ensures
            final(self)@ == (StateView {
                seen: with_lines(old(self)@.seen, split(content@, '\n')).0,
                ..old(self)@
            }),
            r == with_lines(old(self)@.seen, split(content@, '\n')).1,
    {
        let lines = split_char(content, '\n');
        let ghost all = views(lines@);
        let ghost seen = self@.seen;
        let mut fresh: usize = 0;
        for i in 0..lines.len()
            invariant
                all == views(lines@),
                self@.chats == old(self)@.chats,
                self@.seen == with_lines(seen, all.take(i as int)).0,
                fresh == with_lines(seen, all.take(i as int)).1,
                fresh <= i,
        {
            proof {
                assert(all.take(i + 1).drop_last() =~= all.take(i as int));
                assert(all.take(i + 1).last() == lines@[i as int]@);
            }
            match read_line(lines[i].as_str()) {
                Some(id) => {
                    if self.mark_seen(id) {
                        fresh = fresh + 1;
                    }
                },
                None => {},
            }
        }
        assert(all.take(all.len() as int) =~= all);
        fresh
    }

    /// The watches to be checked at a time.
    pub fn due_watches(&self, now: TimeOfDay) -> (r: Due)
        ensures
            due_views(r.watches@) == due_of(self@.chats, now),
            r.stopped == stopped_of(self@.chats),
            r.sleeping == asleep_of(self@.chats, now, true),
    {
        let mut watches: Vec<(i64, String)> = Vec::new();
        let mut stopped: usize = 0;
        let mut sleeping: usize = 0;
        assert(due_views(watches@) =~= due_of(self@.chats.take(0), now));
        for i in 0..self.chats.len()
            invariant
                due_views(watches@) == due_of(self@.chats.take(i as int), now),
                stopped == stopped_of(self@.chats.take(i as int)),
                sleeping == asleep_of(self@.chats.take(i as int), now, true),
                stopped <= i,
                sleeping <= i,
        {
            let ghost key = self.chats@[i as int].id@;
            let ghost chat = self.chats@[i as int].chat@;
            proof {
                assert(self@.chats.take(i + 1).drop_last() =~= self@.chats.take(i as int));
                assert(self@.chats.take(i + 1).last() == (key, chat));
            }
            let entry = &self.chats[i];
            if !entry.chat.active {
                stopped = stopped + 1;
            } else if entry.chat.is_asleep(now) {
                sleeping = sleeping + 1;
            } else {
                let number: i64 = match parse_i64(entry.id.as_str()) {
                    Some(n) => n,
                    None => 0,
                };
                let ghost before = due_views(watches@);
                assert(before + watches_of(key, chat).take(0) =~= before);
                for j in 0..entry.chat.watches.len()
                    invariant
                        number == chat_number(key),
                        chat == entry.chat@,
                        due_views(watches@) == before + watches_of(key, chat).take(j as int),
                {
                    let ghost held = watches@;
                    assert(chat.watches[j as int] == entry.chat.watches@[j as int]@);
                    watches.push((number, entry.chat.watches[j].url.clone()));
                    assert(due_views(watches@) =~= due_views(held).push(
                        watches_of(key, chat)[j as int],
                    ));
                    assert(due_views(watches@) =~= before + watches_of(key, chat).take(j + 1));
                }
                assert(watches_of(key, chat).take(entry.chat.watches@.len() as int) =~= watches_of(
                    key,
                    chat,
                ));
            }
        }
        assert(self@.chats.take(self.chats@.len() as int) =~= self@.chats);
        Due { watches, stopped, sleeping }
    }

    /// How much is remembered, and how many chats are asleep at a time.
    pub fn totals(&self, now: TimeOfDay) -> (r: Totals)
        ensures
            r.chats == self@.chats.len(),
            r.watches == watches_in(self@.chats),
            r.seen == self@.seen.len(),
            r.stopped == stopped_of(self@.chats),
            r.sleeping == asleep_of(self@.chats, now, false),
    {
        let mut watches: u128 = 0;
        let mut stopped: usize = 0;
        let mut sleeping: usize = 0;
        for i in 0..self.chats.len()
            invariant
                watches == watches_in(self@.chats.take(i as int)),
                watches <= i * (usize::MAX as int),
                stopped == stopped_of(self@.chats.take(i as int)),
                sleeping == asleep_of(self@.chats.take(i as int), now, false),
                stopped <= i,
                sleeping <= i,
        {
            let ghost chat = self.chats@[i as int].chat@;
            proof {
                assert(self@.chats.take(i + 1).drop_last() =~= self@.chats.take(i as int));
                assert(self@.chats.take(i + 1).last().1 == chat);
                assert(i * (usize::MAX as int) + usize::MAX as int == (i + 1) * (usize::MAX as int))
                    by (nonlinear_arith);
                assert((i + 1) * (usize::MAX as int) <= u128::MAX) by (nonlinear_arith)
                    requires
                        i + 1 <= usize::MAX,
                ;
            }
            let n: usize = self.chats[i].chat.watches.len();
            watches = watches + n as u128;
            if !self.chats[i].chat.active {
                stopped = stopped + 1;
            }
            if self.chats[i].chat.is_asleep(now) {
                sleeping = sleeping + 1;
            }
        }
        assert(self@.chats.take(self.chats@.len() as int) =~= self@.chats);
        Totals { chats: self.chats.len(), watches, seen: self.seen_count(), stopped, sleeping }
    }
}

/// The chat that was put is the chat found.
pub proof fn law_put_chat_is_found(s: StateView, chat_id: i64, chat: ChatView)
    ensures
        s.with_chat(chat_id, chat).chat(chat_id) == Some(chat),
{
    let key = integer_text(chat_id as int);
    lemma_chat_index(s.chats, key);
    let after = s.with_chat(chat_id, chat).chats;
    let k = chat_index(s.chats, key);
    assert forall|i: int| 0 <= i < k implies (#[trigger] after[i]).0 != key by {
        assert(after[i] == s.chats[i]);
    }
    lemma_chat_index_is(after, key, k);
}

/// Putting a chat changes no other chat, and no record of what was sent.
pub proof fn law_put_chat_keeps_others(s: StateView, chat_id: i64, chat: ChatView, other: i64)
    requires
        other != chat_id,
    ensures
        s.with_chat(chat_id, chat).chat(other) == s.chat(other),
        s.with_chat(chat_id, chat).seen == s.seen,
{
    let key = integer_text(chat_id as int);
    let other_key = integer_text(other as int);
    if key == other_key {
        law_integer_text_is_injective(chat_id as int, other as int);
    }
    let after = s.with_chat(chat_id, chat).chats;
    lemma_chat_index(s.chats, key);
    lemma_chat_index(s.chats, other_key);
    let j = chat_index(s.chats, other_key);
    assert forall|i: int| 0 <= i < j implies (#[trigger] after[i]).0 != other_key by {
        assert(s.chats[i].0 != other_key);
    }
    if j < s.chats.len() {
        lemma_chat_index_is(after, other_key, j);
    } else {
        assert forall|i: int| 0 <= i < after.len() implies (#[trigger] after[i]).0 != other_key by {
            if i < s.chats.len() {
                assert(s.chats[i].0 != other_key);
            }
        }
        lemma_chat_index_is(after, other_key, after.len() as int);
    }
}

/// Putting a chat as it was found changes nothing.
pub proof fn law_put_same_chat(s: StateView, chat_id: i64)
    requires
        s.chat(chat_id) is Some,
    ensures
        s.with_chat(chat_id, s.chat_or_fresh(chat_id)) == s,
{
    let key = integer_text(chat_id as int);
    lemma_chat_index(s.chats, key);
    assert(s.with_chat(chat_id, s.chat_or_fresh(chat_id)).chats =~= s.chats);
}

/// An address that was added is watched; adding it again adds nothing.
pub proof fn law_watch_is_added_once(c: ChatView, url: Seq<char>)
    ensures
        c.with_watch(url).watches_url(url),
        c.with_watch(url).with_watch(url) == c.with_watch(url),
        c.with_watch(url).watches.len() <= c.watches.len() + 1,
{
    lemma_watch_index(c.watches, url);
    if !c.watches_url(url) {
        let after = c.with_watch(url).watches;
        let n = c.watches.len() as int;
        assert forall|i: int| 0 <= i < n implies (#[trigger] after[i]).url != url by {
            assert(after[i] == c.watches[i]);
        }
        lemma_watch_index_is(after, url, n);
    }
}

/// Removing an address that was just added undoes the adding, unless the
/// address is itself the number of a watch.
pub proof fn law_removing_undoes_adding(c: ChatView, url: Seq<char>)
    requires
        !c.watches_url(url),
        value_up_to(url, usize::MAX as int) matches Some(n) ==> !(1 <= n <= c.watches.len() + 1),
    ensures
        c.with_watch(url).without_told(url) == c,
        c.with_watch(url).watches[c.with_watch(url).told_by(url)].url == url,
{
    lemma_watch_index(c.watches, url);
    let after = c.with_watch(url).watches;
    let n = c.watches.len() as int;
    assert forall|i: int| 0 <= i < n implies (#[trigger] after[i]).url != url by {
        assert(after[i] == c.watches[i]);
    }
    lemma_watch_index_is(after, url, n);
    assert(after.remove(n) =~= c.watches);
}

/// The number of a watch, counted from 1, tells that watch.
pub proof fn law_number_tells_the_watch(c: ChatView, n: int)
    requires
        1 <= n <= c.watches.len(),
        n <= usize::MAX,
    ensures
        c.told_by(decimal_text(n)) == n - 1,
{
    law_decimal_text_writes_its_number(n);
}

/// The address of a watch, unless it is the number of one, tells the first
/// watch of that address.
pub proof fn law_address_tells_the_watch(c: ChatView, url: Seq<char>)
    requires
        c.watches_url(url),
        value_up_to(url, usize::MAX as int) is None,
    ensures
        0 <= c.told_by(url) < c.watches.len(),
        c.watches[c.told_by(url)].url == url,
{
    lemma_watch_index(c.watches, url);
}

/// Adding, removing and checking keep every address watched at most once.
pub proof fn law_watches_stay_distinct(c: ChatView, text: Seq<char>, time: i64)
    requires
        c.watches_once(),
    ensures
        c.with_watch(text).watches_once(),
        c.without_told(text).watches_once(),
        c.with_check(text, time).watches_once(),
        ChatView::fresh().watches_once(),
{
    lemma_watch_index(c.watches, text);
    let added = c.with_watch(text);
    assert forall|i: int, j: int| 0 <= i < j < added.watches.len() implies (
    #[trigger] added.watches[i]).url != (#[trigger] added.watches[j]).url by {
        if j < c.watches.len() {
            assert(c.watches[i].url != c.watches[j].url);
        } else {
            assert(c.watches[i].url != text);
        }
    }
    let removed = c.without_told(text);
    let k = c.told_by(text);
    assert forall|i: int, j: int| 0 <= i < j < removed.watches.len() implies (
    #[trigger] removed.watches[i]).url != (#[trigger] removed.watches[j]).url by {
        if k < c.watches.len() {
            let a = if i < k {
                i
            } else {
                i + 1
            };
            let b = if j < k {
                j
            } else {
                j + 1
            };
            assert(removed.watches[i] == c.watches[a]);
            assert(removed.watches[j] == c.watches[b]);
            assert(c.watches[a].url != c.watches[b].url);
        }
    }
    let checked = c.with_check(text, time);
    assert forall|i: int, j: int| 0 <= i < j < checked.watches.len() implies (
    #[trigger] checked.watches[i]).url != (#[trigger] checked.watches[j]).url by {
        assert(c.watches[i].url != c.watches[j].url);
        assert(checked.watches[i].url == c.watches[i].url);
        assert(checked.watches[j].url == c.watches[j].url);
    }
}

/// Noting a check changes no address and no setting.
pub proof fn law_check_keeps_addresses(c: ChatView, url: Seq<char>, time: i64, other: Seq<char>)
    ensures
        c.with_check(url, time).watches.len() == c.watches.len(),
        c.with_check(url, time).watches_url(other) == c.watches_url(other),
{
    lemma_watch_index(c.watches, url);
    lemma_watch_index(c.watches, other);
    let after = c.with_check(url, time).watches;
    let k = watch_index(c.watches, other);
    assert forall|i: int| 0 <= i < k implies (#[trigger] after[i]).url != other by {
        assert(after[i].url == c.watches[i].url);
    }
    if k < c.watches.len() {
        assert(after[k].url == c.watches[k].url);
    }
    lemma_watch_index_is(after, other, k);
}

/// The old list forgets nothing that was sent, and taking it in again adds
/// nothing.
pub proof fn law_old_list_is_absorbed_once(seen: Set<u64>, lines: Seq<Seq<char>>)
    ensures
        seen.subset_of(with_lines(seen, lines).0),
        with_lines(with_lines(seen, lines).0, lines) == (with_lines(seen, lines).0, 0int),
{
    lemma_with_lines_grows(seen, lines);
    assert(lines.take(lines.len() as int) =~= lines);
    lemma_known_lines_add_nothing(seen, lines, lines.len() as int, with_lines(seen, lines).0);
}

proof fn lemma_with_lines_grows(seen: Set<u64>, lines: Seq<Seq<char>>)
    ensures
        seen.subset_of(with_lines(seen, lines).0),
    decreases lines.len(),
{
    if lines.len() > 0 {
        lemma_with_lines_grows(seen, lines.drop_last());
    }
}

/// Lines whose listings are all known add nothing.
proof fn lemma_known_lines_add_nothing(
    seen: Set<u64>,
    lines: Seq<Seq<char>>,
    n: int,
    all: Set<u64>,
)
    requires
        0 <= n <= lines.len(),
        with_lines(seen, lines.take(n)).0.subset_of(all),
    ensures
        with_lines(all, lines.take(n)) == (all, 0int),
    decreases n,
{
    let t = lines.take(n);
    if n > 0 {
        assert(t.drop_last() =~= lines.take(n - 1));
        let before = with_lines(seen, lines.take(n - 1)).0;
        assert(before.subset_of(with_lines(seen, t).0));
        lemma_known_lines_add_nothing(seen, lines, n - 1, all);
        match listing_in_line(t.last()) {
            Some(id) => {
                assert(with_lines(seen, t).0.contains(id));
                assert(all.insert(id) =~= all);
            },
            None => {},
        }
    }
}

/// Whether every key is the text of a chat's number.
pub open spec fn keys_are_numbers(chats: Seq<(Seq<char>, ChatView)>) -> bool {
    forall|i: int|
        0 <= i < chats.len() ==> exists|id: i64|
            (#[trigger] chats[i]).0 == #[trigger] integer_text(id as int)
}

proof fn lemma_distinct_are_collected(parts: Seq<(Seq<char>, ChatView)>)
    requires
        keys_distinct(parts),
    ensures
        collected(parts) == parts,
    decreases parts.len(),
{
    if parts.len() > 0 {
        let front = parts.drop_last();
        assert(keys_distinct(front)) by {
            assert forall|i: int, j: int| 0 <= i < j < front.len() implies (#[trigger] front[i]).0
                != (#[trigger] front[j]).0 by {
                assert(parts[i].0 != parts[j].0);
            }
        }
        lemma_distinct_are_collected(front);
        let n = front.len() as int;
        assert forall|i: int| 0 <= i < n implies (#[trigger] front[i]).0 != parts.last().0 by {
            assert(parts[i].0 != parts[n].0);
        }
        lemma_chat_index_is(front, parts.last().0, n);
        assert(front.push(parts.last()) =~= parts);
    }
}

/// A state made of the chats of another, in whatever order they come, and of the
/// listings sent, has the same chats under the same numbers.
pub proof fn law_state_survives_its_parts(
    s: StateView,
    parts: Seq<(Seq<char>, ChatView)>,
    chat_id: i64,
)
    requires
        s.wf(),
        keys_distinct(parts),
        forall|e: (Seq<char>, ChatView)| #[trigger] parts.contains(e) <==> s.chats.contains(e),
    ensures
        (StateView { chats: collected(parts), seen: s.seen }).chat(chat_id) == s.chat(chat_id),
{
    let key = integer_text(chat_id as int);
    lemma_distinct_are_collected(parts);
    lemma_chat_index(parts, key);
    lemma_chat_index(s.chats, key);
    let i = chat_index(parts, key);
    let j = chat_index(s.chats, key);
    if i < parts.len() {
        assert(parts.contains(parts[i]));
        let k = choose|k: int| 0 <= k < s.chats.len() && s.chats[k] == parts[i];
        assert forall|m: int| 0 <= m < k implies (#[trigger] s.chats[m]).0 != key by {
            assert(s.chats[m].0 != s.chats[k].0);
        }
        lemma_chat_index_is(s.chats, key, k);
    } else if j < s.chats.len() {
        assert(s.chats.contains(s.chats[j]));
        assert(parts.contains(s.chats[j]));
        let k = choose|k: int| 0 <= k < parts.len() && parts[k] == s.chats[j];
        assert(parts[k].0 != key);
    }
}

/// Putting a chat keeps every key the text of a chat's number.
pub proof fn law_keys_stay_numbers(
    chats: Seq<(Seq<char>, ChatView)>,
    chat_id: i64,
    chat: ChatView,
)
    requires
        keys_are_numbers(chats),
    ensures
        keys_are_numbers(put_chat(chats, integer_text(chat_id as int), chat)),
{
    let key = integer_text(chat_id as int);
    let after = put_chat(chats, key, chat);
    lemma_chat_index(chats, key);
    assert forall|i: int| 0 <= i < after.len() implies exists|id: i64|
        (#[trigger] after[i]).0 == #[trigger] integer_text(id as int) by {
        if i < chats.len() && i != chat_index(chats, key) {
            assert(after[i] == chats[i]);
        } else {
            assert(after[i].0 == integer_text(chat_id as int));
        }
    }
}

/// A watch is checked at a time exactly if its chat is active, is not asleep
/// and has it.
pub proof fn law_due_watches(s: StateView, now: TimeOfDay, chat_id: i64, url: Seq<char>)
    requires
        s.wf(),
        keys_are_numbers(s.chats),
    ensures
        due_of(s.chats, now).contains((chat_id, url)) <==> (s.chat(chat_id) matches Some(c)
            && is_due(c, now) && c.watches_url(url)),
{
    let key = integer_text(chat_id as int);
    lemma_due_contains(s.chats, now, chat_id, url);
    lemma_chat_index(s.chats, key);
    let k = chat_index(s.chats, key);
    law_integer_text_reads_back(chat_id as int, i64::MIN as int, i64::MAX as int);
    if due_of(s.chats, now).contains((chat_id, url)) {
        let i = choose|i: int| 0 <= i < s.chats.len() && due_here(s.chats[i], now, chat_id, url);
        let id = choose|id: i64| s.chats[i].0 == #[trigger] integer_text(id as int);
        law_integer_text_reads_back(id as int, i64::MIN as int, i64::MAX as int);
        assert(id == chat_id);
        assert forall|j: int| 0 <= j < i implies (#[trigger] s.chats[j]).0 != key by {
            assert(s.chats[j].0 != s.chats[i].0);
        }
        lemma_chat_index_is(s.chats, key, i);
    }
    if k < s.chats.len() && is_due(s.chats[k].1, now) && s.chats[k].1.watches_url(url) {
        assert(due_here(s.chats[k], now, chat_id, url));
    }
}

/// Whether a chat is due, has a number and watches an address.
spec fn due_here(
    entry: (Seq<char>, ChatView),
    now: TimeOfDay,
    chat_id: i64,
    url: Seq<char>,
) -> bool {
    is_due(entry.1, now) && chat_number(entry.0) == chat_id && entry.1.watches_url(url)
}

proof fn lemma_due_contains(
    chats: Seq<(Seq<char>, ChatView)>,
    now: TimeOfDay,
    chat_id: i64,
    url: Seq<char>,
)
    ensures
        due_of(chats, now).contains((chat_id, url)) <==> exists|i: int|
            0 <= i < chats.len() && due_here(#[trigger] chats[i], now, chat_id, url),
    decreases chats.len(),
{
    if chats.len() > 0 {
        let front = chats.drop_last();
        lemma_due_contains(front, now, chat_id, url);
        let n = chats.len() - 1;
        let (key, chat) = chats.last();
        let before = due_of(front, now);
        let here = watches_of(key, chat);
        lemma_watch_index(chat.watches, url);
        assert(here.contains((chat_id, url)) <==> chat_number(key) == chat_id && chat.watches_url(
            url,
        )) by {
            if here.contains((chat_id, url)) {
                let j = choose|j: int| 0 <= j < here.len() && here[j] == (chat_id, url);
                assert(chat.watches[j].url == url);
                if !chat.watches_url(url) {
                    assert(chat.watches[j].url != url);
                }
            }
            if chat_number(key) == chat_id && chat.watches_url(url) {
                assert(here[watch_index(chat.watches, url)] == (chat_id, url));
            }
        }
        assert((before + here).contains((chat_id, url)) <==> before.contains((chat_id, url))
            || here.contains((chat_id, url))) by {
            if before.contains((chat_id, url)) {
                let j = choose|j: int| 0 <= j < before.len() && before[j] == (chat_id, url);
                assert((before + here)[j] == (chat_id, url));
            }
            if here.contains((chat_id, url)) {
                let j = choose|j: int| 0 <= j < here.len() && here[j] == (chat_id, url);
                assert((before + here)[before.len() + j] == (chat_id, url));
            }
            if (before + here).contains((chat_id, url)) {
                let j = choose|j: int|
                    0 <= j < (before + here).len() && (before + here)[j] == (chat_id, url);
                if j < before.len() {
                    assert(before[j] == (chat_id, url));
                } else {
                    assert(here[j - before.len()] == (chat_id, url));
                }
            }
        }
        if exists|i: int| 0 <= i < front.len() && due_here(#[trigger] front[i], now, chat_id, url) {
            let i = choose|i: int|
                0 <= i < front.len() && due_here(#[trigger] front[i], now, chat_id, url);
            assert(due_here(chats[i], now, chat_id, url));
        }
        if exists|i: int| 0 <= i < chats.len() && due_here(#[trigger] chats[i], now, chat_id, url) {
            let i = choose|i: int|
                0 <= i < chats.len() && due_here(#[trigger] chats[i], now, chat_id, url);
            if i < n {
                assert(due_here(front[i], now, chat_id, url));
            }
        }
        assert(due_here(chats[n], now, chat_id, url) <==> is_due(chat, now) && here.contains(
            (chat_id, url),
        ));
    }
}

/// A chat of which nothing has been set is active, never sleeps, filters
/// nothing, and has no work point and no watch.
pub proof fn law_fresh_chat()
    ensures
        ChatView::fresh().active,
        ChatView::fresh().sleep is None,
        !ChatView::fresh().filter_phone,
        ChatView::fresh().work_point is None,
        ChatView::fresh().watches.len() == 0,
{
}

/// An address is watched exactly where one of the watches has it.
pub proof fn law_watched_is_having_a_watch(c: ChatView, url: Seq<char>)
    ensures
        c.watches_url(url) <==> exists|i: int|
            0 <= i < c.watches.len() && (#[trigger] c.watches[i]).url == url,
{
    lemma_watch_index(c.watches, url);
}

/// A watch that is added stands after the others, which stay as they are, and
/// has not been checked; no setting changes.
pub proof fn law_watch_is_added_at_the_end(c: ChatView, url: Seq<char>)
    requires
        forall|i: int| 0 <= i < c.watches.len() ==> (#[trigger] c.watches[i]).url != url,
    ensures
        ({
            let after = c.with_watch(url);
            &&& after.watches.len() == c.watches.len() + 1
            &&& after.watches.last().url == url
            &&& after.watches.last().last_check == 0
            &&& forall|i: int|
                0 <= i < c.watches.len() ==> #[trigger] after.watches[i] == c.watches[i]
            &&& after.active == c.active
            &&& after.sleep == c.sleep
            &&& after.filter_phone == c.filter_phone
            &&& after.work_point == c.work_point
        }),
{
    lemma_watch_index(c.watches, url);
}

/// Noting a check sets the time of the first watch of the address; every other
/// watch and every setting stays as it is.
pub proof fn law_check_is_noted(c: ChatView, url: Seq<char>, time: i64, k: int)
    requires
        0 <= k < c.watches.len(),
        c.watches[k].url == url,
        forall|i: int| 0 <= i < k ==> (#[trigger] c.watches[i]).url != url,
    ensures
        ({
            let after = c.with_check(url, time);
            &&& after.watches.len() == c.watches.len()
            &&& after.watches[k].url == url
            &&& after.watches[k].last_check == time
            &&& forall|i: int|
                0 <= i < c.watches.len() && i != k ==> #[trigger] after.watches[i] == c.watches[i]
            &&& after.active == c.active
            &&& after.sleep == c.sleep
            &&& after.filter_phone == c.filter_phone
            &&& after.work_point == c.work_point
        }),
{
    lemma_watch_index_is(c.watches, url, k);
}

/// A check of an address that is not watched changes nothing.
pub proof fn law_check_of_another_address_is_not_noted(c: ChatView, url: Seq<char>, time: i64)
    requires
        forall|i: int| 0 <= i < c.watches.len() ==> (#[trigger] c.watches[i]).url != url,
    ensures
        c.with_check(url, time) == c,
{
    lemma_watch_index(c.watches, url);
}

/// Stopping a watch by its number, counted from 1, takes that watch away and
/// leaves the others in their order; no setting changes.
pub proof fn law_number_stops_its_watch(c: ChatView, n: int)
    requires
        1 <= n <= c.watches.len(),
        n <= usize::MAX,
    ensures
        ({
            let after = c.without_told(decimal_text(n));
            &&& after.watches.len() == c.watches.len() - 1
            &&& forall|i: int| 0 <= i < n - 1 ==> #[trigger] after.watches[i] == c.watches[i]
            &&& forall|i: int|
                n - 1 <= i < after.watches.len() ==> #[trigger] after.watches[i] == c.watches[i + 1]
            &&& after.active == c.active
            &&& after.sleep == c.sleep
            &&& after.filter_phone == c.filter_phone
            &&& after.work_point == c.work_point
        }),
{
    law_number_tells_the_watch(c, n);
}

/// Stopping a watch by its address, where that is no number, takes away the first
/// watch of that address and leaves the others in their order.
pub proof fn law_address_stops_its_watch(c: ChatView, url: Seq<char>, k: int)
    requires
        0 <= k < c.watches.len(),
        c.watches[k].url == url,
        forall|i: int| 0 <= i < k ==> (#[trigger] c.watches[i]).url != url,
        exists|i: int| 0 <= i < url.len() && !('0' <= #[trigger] url[i] <= '9') && url[i] != '+',
    ensures
        c.without_told(url).watches == c.watches.take(k) + c.watches.skip(k + 1),
{
    lemma_watch_index_is(c.watches, url, k);
    law_only_digits_are_numbers(url, usize::MAX as int);
    assert(c.watches.remove(k) =~= c.watches.take(k) + c.watches.skip(k + 1));
}

/// A key that is no address of a watch and no number of one stops nothing.
pub proof fn law_unknown_key_stops_nothing(c: ChatView, key: Seq<char>, n: int)
    requires
        forall|i: int| 0 <= i < c.watches.len() ==> (#[trigger] c.watches[i]).url != key,
        n == 0 || n > c.watches.len(),
        key == decimal_text(n) || exists|i: int|
            0 <= i < key.len() && !('0' <= #[trigger] key[i] <= '9') && key[i] != '+',
    ensures
        c.without_told(key) == c,
{
    lemma_watch_index(c.watches, key);
    if key == decimal_text(n) {
        law_decimal_text_writes_its_number(n);
    } else {
        law_only_digits_are_numbers(key, usize::MAX as int);
    }
}

proof fn lemma_first_word_is(a: Seq<char>, b: Seq<char>)
    requires
        forall|i: int| 0 <= i < a.len() ==> !is_white(#[trigger] a[i]),
        b.len() == 0 || is_white(b[0]),
    ensures
        first_word(a + b) == a,
    decreases a.len(),
{
    if a.len() == 0 {
        assert(a + b =~= b);
        assert(first_word(a + b) =~= a);
    } else {
        let t = a.skip(1);
        assert forall|i: int| 0 <= i < t.len() implies !is_white(#[trigger] t[i]) by {
            assert(t[i] == a[i + 1]);
        }
        assert((a + b).skip(1) =~= t + b);
        assert((a + b)[0] == a[0]);
        assert(!is_white(a[0]));
        lemma_first_word_is(t, b);
        assert(seq![a[0]] + t =~= a);
    }
}

/// A line of the old list names the listing whose number stands first in it, after
/// white space or none, and before white space or the end.
pub proof fn law_line_names_its_first_number(before: Seq<char>, n: int, after: Seq<char>)
    requires
        0 <= n <= u64::MAX,
        forall|i: int| 0 <= i < before.len() ==> is_white(#[trigger] before[i]),
        after.len() == 0 || is_white(after[0]),
    ensures
        listing_in_line(before + decimal_text(n) + after) == Some(n as u64),
{
    let d = decimal_text(n);
    let line = before + d + after;
    law_decimal_text_writes_its_number(n);
    assert forall|i: int| 0 <= i < d.len() implies !is_white(#[trigger] d[i]) by {
        assert(is_digit(d[i]));
    }
    assert forall|j: int| 0 <= j < before.len() implies is_white(line[j]) by {
        assert(line[j] == before[j]);
    }
    assert(line[before.len() as int] == d[0]);
    lemma_trim_start_at(line, before.len() as int);
    let rest = line.skip(before.len() as int);
    assert(rest =~= d + after);
    let hi = lemma_trim_end_window(rest);
    if hi < d.len() {
        assert(is_white(rest[d.len() - 1]));
        assert(rest[d.len() - 1] == d[d.len() - 1]);
    }
    let tail = after.take(hi - d.len());
    assert(rest.take(hi) =~= d + tail);
    if tail.len() > 0 {
        assert(tail[0] == after[0]);
    }
    lemma_first_word_is(d, tail);
    assert((d + tail)[0] == d[0]);
    assert(is_digit(d[0]));
}

/// A comment of the old list, which has `#` as its first character after white
/// space, names no listing, and neither does a blank line.
pub proof fn law_comments_name_no_listing(before: Seq<char>, after: Seq<char>)
    requires
        forall|i: int| 0 <= i < before.len() ==> is_white(#[trigger] before[i]),
    ensures
        listing_in_line(before.push('#') + after) is None,
        listing_in_line(before) is None,
{
    let line = before.push('#') + after;
    assert forall|j: int| 0 <= j < before.len() implies is_white(line[j]) by {
        assert(line[j] == before[j]);
    }
    assert(line[before.len() as int] == '#');
    lemma_trim_start_at(line, before.len() as int);
    let rest = line.skip(before.len() as int);
    assert(rest[0] == '#');
    let hi = lemma_trim_end_window(rest);
    if hi > 0 {
        assert(rest.take(hi)[0] == '#');
    }
    lemma_trim_start_at(before, before.len() as int);
    assert(before.skip(before.len() as int) =~= Seq::<char>::empty());
    assert(trimmed(before).len() == 0);
}

/// After the old list was taken in, a listing counts as sent exactly where it did
/// before or a line names it.
pub proof fn law_old_list_adds_what_it_names(seen: Set<u64>, lines: Seq<Seq<char>>, id: u64)
    ensures
        with_lines(seen, lines).0.contains(id) <==> seen.contains(id) || exists|i: int|
            0 <= i < lines.len() && listing_in_line(#[trigger] lines[i]) == Some(id),
    decreases lines.len(),
{
    if lines.len() > 0 {
        let front = lines.drop_last();
        law_old_list_adds_what_it_names(seen, front, id);
        if exists|i: int| 0 <= i < front.len() && listing_in_line(#[trigger] front[i]) == Some(id) {
            let i = choose|i: int|
                0 <= i < front.len() && listing_in_line(#[trigger] front[i]) == Some(id);
            assert(lines[i] == front[i]);
        }
        if exists|i: int| 0 <= i < lines.len() && listing_in_line(#[trigger] lines[i]) == Some(id) {
            let i = choose|i: int|
                0 <= i < lines.len() && listing_in_line(#[trigger] lines[i]) == Some(id);
            if i < front.len() {
                assert(front[i] == lines[i]);
            }
        }
    }
}

/// What the old list is said to have added is by how many the listings that count
/// as sent grew.
pub proof fn law_old_list_counts_what_is_new(seen: Set<u64>, lines: Seq<Seq<char>>)
    requires
        seen.finite(),
    ensures
        with_lines(seen, lines).0.finite(),
        with_lines(seen, lines).1 == with_lines(seen, lines).0.len() - seen.len(),
    decreases lines.len(),
{
    if lines.len() > 0 {
        law_old_list_counts_what_is_new(seen, lines.drop_last());
    }
}

/// The watches that are due stand chat by chat, and within a chat in its order,
/// each with the number of its chat; a chat that is stopped or asleep has none.
pub proof fn law_due_watches_keep_their_order(
    a: Seq<(Seq<char>, ChatView)>,
    b: Seq<(Seq<char>, ChatView)>,
    key: Seq<char>,
    c: ChatView,
    now: TimeOfDay,
)
    ensures
        due_of(a + b, now) == due_of(a, now) + due_of(b, now),
        !c.active || asleep(c.sleep, now) ==> due_of(seq![(key, c)], now).len() == 0,
        c.active && !asleep(c.sleep, now) ==> due_of(seq![(key, c)], now).len()
            == c.watches.len() && forall|i: int|
            0 <= i < c.watches.len() ==> #[trigger] due_of(seq![(key, c)], now)[i] == (
                chat_number(key),
                c.watches[i].url,
            ),
    decreases b.len(),
{
    let one = seq![(key, c)];
    assert(one.drop_last() =~= Seq::<(Seq<char>, ChatView)>::empty());
    assert(due_of(one.drop_last(), now) =~= Seq::<(i64, Seq<char>)>::empty());
    assert(one.last() == (key, c));
    if b.len() == 0 {
        assert(a + b =~= a);
        assert(due_of(a, now) + due_of(b, now) =~= due_of(a, now));
    } else {
        law_due_watches_keep_their_order(a, b.drop_last(), key, c, now);
        assert((a + b).drop_last() =~= a + b.drop_last());
        assert((a + b).last() == b.last());
        assert(due_of(a + b, now) =~= due_of(a, now) + due_of(b, now));
    }
}

/// The number of the chat with a key is the number that the key writes, and 0
/// where it has a character after the first that is no digit.
pub proof fn law_key_writes_the_chat_number(n: i64, key: Seq<char>)
    ensures
        chat_number(integer_text(n as int)) == n,
        (exists|i: int| 0 < i < key.len() && !('0' <= #[trigger] key[i] <= '9')) ==> chat_number(
            key,
        ) == 0,
        key.len() == 0 ==> chat_number(key) == 0,
{
    if exists|i: int| 0 < i < key.len() && !('0' <= #[trigger] key[i] <= '9') {
        let i = choose|i: int| 0 < i < key.len() && !('0' <= #[trigger] key[i] <= '9');
        assert(!is_digit(key[i]));
        assert(key.skip(1)[i - 1] == key[i]);
    }
    law_integer_text_reads_back(n as int, i64::MIN as int, i64::MAX as int);
}

/// The totals are how many of the chats are stopped, how many sleep, how many of
/// the active ones sleep, and how many watches all of them have together.
pub proof fn law_totals_count_chats(
    a: Seq<(Seq<char>, ChatView)>,
    key: Seq<char>,
    c: ChatView,
    now: TimeOfDay,
)
    ensures
        ({
            let b = a.push((key, c));
            let sleeps = asleep(c.sleep, now);
            &&& stopped_of(b) - stopped_of(a) == (if c.active {
                0int
            } else {
                1
            })
            &&& asleep_of(b, now, false) - asleep_of(a, now, false) == (if sleeps {
                1int
            } else {
                0
            })
            &&& asleep_of(b, now, true) - asleep_of(a, now, true) == (if sleeps && c.active {
                1int
            } else {
                0
            })
            &&& watches_in(b) - watches_in(a) == c.watches.len()
        }),
        stopped_of(Seq::empty()) == 0,
        asleep_of(Seq::empty(), now, false) == 0,
        asleep_of(Seq::empty(), now, true) == 0,
        watches_in(Seq::empty()) == 0,
{
    let b = a.push((key, c));
    assert(b.drop_last() =~= a);
    assert(b.last() == (key, c));
}

/// Of the parts of a state with the same chat the last one counts, and it changes
/// no other chat.
pub proof fn law_last_part_of_a_chat_counts(
    parts: Seq<(Seq<char>, ChatView)>,
    chat_id: i64,
    c: ChatView,
    other: i64,
    seen: Set<u64>,
)
    ensures
        ({
            let key = integer_text(chat_id as int);
            let before = StateView { chats: collected(parts), seen };
            let after = StateView { chats: collected(parts.push((key, c))), seen };
            &&& after.chat(chat_id) == Some(c)
            &&& other != chat_id ==> after.chat(other) == before.chat(other)
        }),
        collected(Seq::empty()).len() == 0,
{
    let key = integer_text(chat_id as int);
    let before = StateView { chats: collected(parts), seen };
    assert(parts.push((key, c)).drop_last() =~= parts);
    law_put_chat_is_found(before, chat_id, c);
    if other != chat_id {
        law_put_chat_keeps_others(before, chat_id, c, other);
    }
}

} // verus!
